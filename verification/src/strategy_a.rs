//! Iteration-partitioned training.
//!
//! The population splits into its sections; each section, with its own patch
//! sequence, becomes one self-contained work unit that applies the update
//! rule once per local weight vector; the caller collects one message per
//! section and concatenates them in arrival order — worker completion order,
//! not section order — into the returned population. The update rule is an
//! external collaborator and enters as a function value; the arrival order
//! enters as an explicit permutation of the section indices, since the
//! result channel guarantees no ordering across senders.
use vstd::prelude::*;

use crate::network::lemma_slot_in_range;
use crate::network::MtNetwork;
use crate::reorder::is_index_permutation;
use crate::reorder::lemma_flatten_len_uniform;
use crate::reorder::lemma_index_permutation_facts;
use crate::reorder::lemma_permuted_flatten_multiset;
use crate::reorder::ordered_parts;

verus! {

/// What one dispatched work unit must leave behind: output `k` of section
/// `i` is a value the update rule admits for that section's sample `k`, the
/// population's weight vector `i * section_size + k`, and the learning rate.
pub open spec fn section_outputs_ok<F: Fn(&Vec<u32>, &Vec<u32>, u32) -> Vec<u32>>(
    net: MtNetwork,
    samples: Seq<Vec<Vec<u32>>>,
    rule: F,
    outs: Seq<Seq<Vec<u32>>>,
) -> bool {
    &&& outs.len() == net.num_sections_spec()
    &&& forall|i: int| 0 <= i < outs.len() ==> (#[trigger] outs[i]).len() == net.section_size
    &&& forall|i: int, k: int|
        0 <= i < outs.len() && 0 <= k < net.section_size ==> call_ensures(
            rule,
            (&samples[i]@[k], &net.weights@[i * net.section_size + k], net.lr),
            #[trigger] outs[i][k],
        )
}

/// The work a dispatched unit performs on its section: applies the update
/// rule once per local weight vector, against the sample patch of the same
/// local index, keeping local order.
pub fn apply_rule_section<F: Fn(&Vec<u32>, &Vec<u32>, u32) -> Vec<u32>>(
    weights: &Vec<Vec<u32>>,
    samples: &Vec<Vec<u32>>,
    lr: u32,
    rule: &F,
) -> (out: Vec<Vec<u32>>)
    requires
        samples@.len() >= weights@.len(),
        forall|k: int|
            0 <= k < weights@.len() ==> call_requires(*rule, (&samples@[k], &weights@[k], lr)),
    ensures
        out@.len() == weights@.len(),
        forall|k: int|
            0 <= k < weights@.len() ==> call_ensures(
                *rule,
                (&samples@[k], &weights@[k], lr),
                #[trigger] out@[k],
            ),
{
    let mut out: Vec<Vec<u32>> = Vec::new();
    let mut k: usize = 0;
    while k < weights.len()
        invariant
            samples@.len() >= weights@.len(),
            forall|j: int|
                0 <= j < weights@.len() ==> call_requires(*rule, (&samples@[j], &weights@[j], lr)),
            k <= weights@.len(),
            out@.len() == k,
            forall|j: int|
                0 <= j < k ==> call_ensures(*rule, (&samples@[j], &weights@[j], lr), #[trigger] out@[j]),
        decreases weights@.len() - k,
    {
        out.push(rule(&samples[k], &weights[k], lr));
        k = k + 1;
    }
    out
}

/// Strategy A result completeness: however worker completions interleave,
/// a population assembled from the per-section outputs in arrival order
/// holds exactly `neurons` vectors and equals, as a multiset, the
/// per-section outputs pooled together — a count-and-membership equality,
/// not a positional one.
pub proof fn lemma_strategy_a_completeness<F: Fn(&Vec<u32>, &Vec<u32>, u32) -> Vec<u32>>(
    net: MtNetwork,
    samples: Seq<Vec<Vec<u32>>>,
    rule: F,
    outs: Seq<Seq<Vec<u32>>>,
    arrival: Seq<usize>,
)
    requires
        net.wf(),
        section_outputs_ok(net, samples, rule, outs),
        is_index_permutation(arrival, outs.len()),
    ensures
        ordered_parts(outs, arrival).flatten().len() == net.neurons,
        ordered_parts(outs, arrival).flatten().to_multiset() == outs.flatten().to_multiset(),
{
    let s = net.section_size as int;
    let n = net.num_sections_spec();
    net.lemma_population_divides();
    assert(n <= net.neurons) by (nonlinear_arith)
        requires
            s >= 1,
            n >= 0,
            net.neurons == s * n,
    ;
    lemma_index_permutation_facts(arrival, outs.len());
    lemma_permuted_flatten_multiset(outs, arrival);
    let o = ordered_parts(outs, arrival);
    assert forall|k: int| 0 <= k < o.len() implies (#[trigger] o[k]).len() == s by {
        assert(arrival[k] < n);
        assert(o[k] == outs[arrival[k] as int]);
    }
    lemma_flatten_len_uniform(o, s);
    assert(o.flatten().len() == n * s);
    assert(n * s == s * n) by (nonlinear_arith);
}

impl MtNetwork {
    /// One full training pass under strategy A, as observed at the result
    /// channel's consumer: every section's work unit runs against the
    /// section's own patch sequence, and the finished sections are
    /// concatenated in the given arrival order. The returned population
    /// always holds exactly `neurons` vectors and pools exactly the
    /// per-section outputs, whatever the arrival order; the stored weight
    /// population itself is left untouched. Splitting by iteration is
    /// inefficient for small sections and is kept as the baseline path.
    pub fn train_iteration<F: Fn(&Vec<u32>, &Vec<u32>, u32) -> Vec<u32>>(
        &self,
        _epoch: usize,
        samples: &Vec<Vec<Vec<u32>>>,
        rule: &F,
        arrival: &Vec<usize>,
    ) -> (pop: Vec<Vec<u32>>)
        requires
            self.wf(),
            samples@.len() == self.num_sections_spec(),
            forall|i: int|
                0 <= i < samples@.len() ==> (#[trigger] samples@[i])@.len() >= self.section_size,
            is_index_permutation(arrival@, self.num_sections_spec() as nat),
            forall|i: int, k: int|
                0 <= i < samples@.len() && 0 <= k < self.section_size ==> call_requires(
                    *rule,
                    (&samples@[i]@[k], &self.weights@[i * self.section_size + k], self.lr),
                ),
        ensures
            pop@.len() == self.neurons,
            exists|outs: Seq<Seq<Vec<u32>>>|
                #[trigger] section_outputs_ok(*self, samples@, *rule, outs) && pop@ == ordered_parts(
                    outs,
                    arrival@,
                ).flatten() && pop@.to_multiset() == outs.flatten().to_multiset(),
    {
        let s = self.section_size;
        proof {
            self.lemma_population_divides();
        }
        let n = self.num_sections();
        proof {
            lemma_index_permutation_facts(arrival@, n as nat);
        }
        let ghost mut outs: Seq<Seq<Vec<u32>>> = Seq::new(n as nat, |i: int| Seq::empty());
        let mut pop: Vec<Vec<u32>> = Vec::new();
        let mut t: usize = 0;
        while t < arrival.len()
            invariant
                self.wf(),
                s == self.section_size,
                n == self.num_sections_spec(),
                self.neurons == s * n,
                samples@.len() == n,
                forall|i: int| 0 <= i < samples@.len() ==> (#[trigger] samples@[i])@.len() >= s,
                forall|i: int, k: int|
                    0 <= i < samples@.len() && 0 <= k < s ==> call_requires(
                        *rule,
                        (&samples@[i]@[k], &self.weights@[i * s + k], self.lr),
                    ),
                arrival@.len() == n,
                forall|j: int| 0 <= j < arrival@.len() ==> (#[trigger] arrival@[j]) < n,
                arrival@.no_duplicates(),
                t <= n,
                outs.len() == n,
                forall|j: int|
                    0 <= j < t ==> (#[trigger] outs[arrival@[j] as int]).len() == s,
                forall|j: int, k: int|
                    0 <= j < t && 0 <= k < s ==> call_ensures(
                        *rule,
                        (
                            &samples@[arrival@[j] as int]@[k],
                            &self.weights@[arrival@[j] as int * s + k],
                            self.lr,
                        ),
                        #[trigger] outs[arrival@[j] as int][k],
                    ),
                pop@ == ordered_parts(outs, arrival@.subrange(0, t as int)).flatten(),
                pop@.len() == t * s,
            decreases arrival@.len() - t,
        {
            let sec_idx = arrival[t];
            let ghost old_outs = outs;
            let ghost old_prefix = arrival@.subrange(0, t as int);
            let mut section_out: Vec<Vec<u32>> = Vec::new();
            let mut k: usize = 0;
            while k < s
                invariant
                    self.wf(),
                    s == self.section_size,
                    self.neurons == s * n,
                    samples@.len() == n,
                    forall|i: int| 0 <= i < samples@.len() ==> (#[trigger] samples@[i])@.len() >= s,
                    forall|i: int, k2: int|
                        0 <= i < samples@.len() && 0 <= k2 < s ==> call_requires(
                            *rule,
                            (&samples@[i]@[k2], &self.weights@[i * s + k2], self.lr),
                        ),
                    sec_idx < n,
                    k <= s,
                    section_out@.len() == k,
                    forall|k2: int|
                        0 <= k2 < k ==> call_ensures(
                            *rule,
                            (
                                &samples@[sec_idx as int]@[k2],
                                &self.weights@[sec_idx as int * s + k2],
                                self.lr,
                            ),
                            #[trigger] section_out@[k2],
                        ),
                decreases s - k,
            {
                proof {
                    lemma_slot_in_range(s as int, n as int, sec_idx as int, k as int);
                }
                let idx = sec_idx * s + k;
                section_out.push(rule(&samples[sec_idx][k], &self.weights[idx], self.lr));
                k = k + 1;
            }
            proof {
                outs = outs.update(sec_idx as int, section_out@);
                assert forall|j: int| 0 <= j < t implies arrival@[j] != sec_idx by {
                    assert(arrival@[t as int] == sec_idx);
                }
                let prefix = arrival@.subrange(0, t as int + 1);
                let base = ordered_parts(outs, old_prefix);
                assert(base =~= ordered_parts(old_outs, old_prefix));
                assert(ordered_parts(outs, prefix) =~= base.push(section_out@));
                base.lemma_flatten_push(section_out@);
                assert(base.push(section_out@).flatten() == base.flatten() + section_out@);
                assert((t as int + 1) * (s as int) == t as int * (s as int) + s as int)
                    by (nonlinear_arith);
            }
            pop.append(&mut section_out);
            t = t + 1;
        }
        proof {
            assert(arrival@.subrange(0, arrival@.len() as int) =~= arrival@);
            assert forall|i: int, k: int|
                0 <= i < outs.len() && 0 <= k < s implies call_ensures(
                *rule,
                (&samples@[i]@[k], &self.weights@[i * s + k], self.lr),
                #[trigger] outs[i][k],
            ) by {
                assert(arrival@.contains(i as usize));
                let j = choose|j: int| 0 <= j < arrival@.len() && arrival@[j] == i as usize;
                assert(outs[arrival@[j] as int][k] == outs[i][k]);
            }
            assert forall|i: int| 0 <= i < outs.len() implies (#[trigger] outs[i]).len() == s by {
                assert(arrival@.contains(i as usize));
                let j = choose|j: int| 0 <= j < arrival@.len() && arrival@[j] == i as usize;
                assert(outs[arrival@[j] as int].len() == s);
            }
            assert(section_outputs_ok(*self, samples@, *rule, outs));
            lemma_strategy_a_completeness(*self, samples@, *rule, outs, arrival@);
        }
        pop
    }
}

} // verus!
