//! Batch-streamed training with a dedicated aggregator.
//!
//! One worker is reserved as the aggregator: it alone drains the result
//! channel, once per expected section, and appends whatever arrives to an
//! internal buffer; a failed receive is swallowed as benign end-of-work. All
//! other work units each re-initialize their section's weight vectors from
//! scratch and apply the update rule sequentially over a shared, read-only
//! prefix of the dataset. The computed population is discarded by design:
//! only the aggregator's count is observable.
use vstd::prelude::*;

use crate::cells::clone_row;
use crate::cells::fresh_weight_vector;
use crate::cells::views_of;
use crate::cells::PATCH_SIZE;
use crate::network::MtNetwork;

verus! {

/// What one blocking receive on the result channel left behind.
pub enum RecvOutcome {
    /// One section's finished weight vectors, as sent by its work unit.
    Delivered(Vec<Vec<u32>>),
    /// The channel reported no more senders; swallowed as end-of-work.
    Closed,
}

/// The delivered payloads among a run of receive outcomes, in arrival
/// order, each as its row of cell sequences.
pub open spec fn delivered_views(outcomes: Seq<RecvOutcome>) -> Seq<Seq<Seq<u32>>>
    decreases outcomes.len(),
{
    if outcomes.len() == 0 {
        Seq::empty()
    } else {
        let front = delivered_views(outcomes.drop_last());
        match outcomes.last() {
            RecvOutcome::Delivered(v) => front.push(views_of(v@)),
            RecvOutcome::Closed => front,
        }
    }
}

/// The weight vector reached after `steps` sequential applications of the
/// update rule, one per leading shared sample, starting from `w0`.
pub open spec fn update_chain<F: Fn(&Vec<u32>, &Vec<u32>, u32) -> Vec<u32>>(
    rule: F,
    shared: Seq<Vec<u32>>,
    lr: u32,
    steps: int,
    w0: Vec<u32>,
    wn: Vec<u32>,
) -> bool
    decreases steps,
{
    if steps <= 0 {
        wn == w0
    } else {
        exists|mid: Vec<u32>|
            update_chain(rule, shared, lr, steps - 1, w0, mid) && #[trigger] call_ensures(
                rule,
                (&shared[steps - 1], &mid, lr),
                wn,
            )
    }
}

/// What one neuron of a batch work unit leaves behind: a weight vector
/// reached from some full-width starting vector — the unit's own fresh
/// draw — by `steps` sequential applications of the update rule over the
/// leading shared samples.
pub open spec fn from_scratch_output<F: Fn(&Vec<u32>, &Vec<u32>, u32) -> Vec<u32>>(
    rule: F,
    shared: Seq<Vec<u32>>,
    lr: u32,
    steps: int,
    wn: Vec<u32>,
) -> bool {
    exists|w0: Vec<u32>| w0@.len() == PATCH_SIZE && #[trigger] update_chain(
        rule,
        shared,
        lr,
        steps,
        w0,
        wn,
    )
}

/// Aggregator liveness under full delivery: when every receive in a run
/// delivers one section of `s` vectors — no sender crashed — the run yields
/// one payload per receive and the gathered buffer holds exactly
/// `outcomes.len() * s` vectors: none missing, none extra.
pub proof fn lemma_aggregator_full_delivery(outcomes: Seq<RecvOutcome>, s: int)
    requires
        forall|i: int|
            0 <= i < outcomes.len() ==> ((#[trigger] outcomes[i]) matches RecvOutcome::Delivered(v)
                && v@.len() == s),
    ensures
        delivered_views(outcomes).len() == outcomes.len(),
        delivered_views(outcomes).flatten().len() == outcomes.len() * s,
    decreases outcomes.len(),
{
    if outcomes.len() == 0 {
        assert(delivered_views(outcomes).flatten().len() == 0);
    } else {
        let front = outcomes.drop_last();
        assert forall|i: int|
            0 <= i < front.len() implies ((#[trigger] front[i]) matches RecvOutcome::Delivered(v)
            && v@.len() == s) by {
            assert(front[i] == outcomes[i]);
        }
        lemma_aggregator_full_delivery(front, s);
        match outcomes.last() {
            RecvOutcome::Delivered(v) => {
                assert(views_of(v@).len() == s);
                delivered_views(front).lemma_flatten_push(views_of(v@));
                assert(outcomes.len() * s == (outcomes.len() - 1) * s + s) by (nonlinear_arith);
            },
            RecvOutcome::Closed => {
                assert((outcomes[outcomes.len() - 1] matches RecvOutcome::Delivered(v)
                    && v@.len() == s));
            },
        }
    }
}

/// The aggregator's work: drains the given run of receive outcomes in
/// order, appending every delivered section to one buffer and swallowing
/// failed receives, so the buffer holds exactly the delivered payloads,
/// concatenated in arrival order.
pub fn aggregate_results(outcomes: &Vec<RecvOutcome>) -> (buf: Vec<Vec<u32>>)
    ensures
        views_of(buf@) == delivered_views(outcomes@).flatten(),
{
    let mut buf: Vec<Vec<u32>> = Vec::new();
    let mut i: usize = 0;
    while i < outcomes.len()
        invariant
            i <= outcomes@.len(),
            views_of(buf@) == delivered_views(outcomes@.subrange(0, i as int)).flatten(),
        decreases outcomes@.len() - i,
    {
        let ghost old_buf = buf@;
        let ghost prefix = outcomes@.subrange(0, i as int);
        match &outcomes[i] {
            RecvOutcome::Delivered(v) => {
                let mut section = clone_row(v);
                let ghost section_views = views_of(section@);
                buf.append(&mut section);
                proof {
                    assert(views_of(buf@) =~= views_of(old_buf) + section_views);
                }
            },
            RecvOutcome::Closed => {},
        }
        proof {
            let prefix1 = outcomes@.subrange(0, i as int + 1);
            assert(prefix1.drop_last() =~= prefix);
            assert(prefix1.last() == outcomes@[i as int]);
            match outcomes@[i as int] {
                RecvOutcome::Delivered(v) => {
                    delivered_views(prefix).lemma_flatten_push(views_of(v@));
                },
                RecvOutcome::Closed => {},
            }
        }
        i = i + 1;
    }
    proof {
        assert(outcomes@.subrange(0, outcomes@.len() as int) =~= outcomes@);
    }
    buf
}

/// One batch work unit of strategy B: for each of its section's
/// `section_size` neurons, draws a fresh random weight vector — a
/// deliberate from-scratch re-initialization, not the stored population —
/// and applies the update rule sequentially over the first
/// `epoch_count - 1` shared samples; local order is kept. The unit carries
/// only its section size and the learning rate, never the network itself.
pub fn batch_work_unit<F: Fn(&Vec<u32>, &Vec<u32>, u32) -> Vec<u32>>(
    section_size: usize,
    lr: u32,
    epoch_count: usize,
    shared: &Vec<Vec<u32>>,
    rule: &F,
) -> (out: Vec<Vec<u32>>)
    requires
        epoch_count >= 1,
        shared@.len() >= epoch_count - 1,
        forall|w: Vec<u32>, k: int|
            0 <= k < epoch_count - 1 ==> call_requires(*rule, (&shared@[k], &w, lr)),
    ensures
        out@.len() == section_size,
        forall|j: int|
            0 <= j < out@.len() ==> from_scratch_output(
                *rule,
                shared@,
                lr,
                epoch_count - 1,
                #[trigger] out@[j],
            ),
{
    let mut out: Vec<Vec<u32>> = Vec::new();
    let mut j: usize = 0;
    while j < section_size
        invariant
            epoch_count >= 1,
            shared@.len() >= epoch_count - 1,
            forall|w: Vec<u32>, k: int|
                0 <= k < epoch_count - 1 ==> call_requires(*rule, (&shared@[k], &w, lr)),
            j <= section_size,
            out@.len() == j,
            forall|j2: int|
                0 <= j2 < j ==> from_scratch_output(
                    *rule,
                    shared@,
                    lr,
                    epoch_count - 1,
                    #[trigger] out@[j2],
                ),
        decreases section_size - j,
    {
        let mut w = fresh_weight_vector();
        let ghost w0 = w;
        let mut e: usize = 0;
        while e < epoch_count - 1
            invariant
                epoch_count >= 1,
                shared@.len() >= epoch_count - 1,
                forall|wv: Vec<u32>, k: int|
                    0 <= k < epoch_count - 1 ==> call_requires(
                        *rule,
                        (&shared@[k], &wv, lr),
                    ),
                e <= epoch_count - 1,
                w0@.len() == PATCH_SIZE,
                update_chain(*rule, shared@, lr, e as int, w0, w),
            decreases epoch_count - 1 - e,
        {
            let ghost prev = w;
            w = rule(&shared[e], &w, lr);
            proof {
                let steps = e as int + 1;
                assert(update_chain(*rule, shared@, lr, steps, w0, w)) by {
                    reveal_with_fuel(update_chain, 2);
                    assert(update_chain(*rule, shared@, lr, steps - 1, w0, prev)
                        && call_ensures(*rule, (&shared@[steps - 1], &prev, lr), w));
                }
            }
            e = e + 1;
        }
        proof {
            assert(update_chain(*rule, shared@, lr, epoch_count - 1, w0, w));
        }
        let ghost wlast = w;
        out.push(w);
        proof {
            assert(out@[j as int] == wlast);
            assert(from_scratch_output(
                *rule,
                shared@,
                lr,
                epoch_count - 1,
                out@[j as int],
            )) by {
                assert(w0@.len() == PATCH_SIZE && update_chain(
                    *rule,
                    shared@,
                    lr,
                    epoch_count - 1,
                    w0,
                    out@[j as int],
                ));
            }
        }
        j = j + 1;
    }
    out
}

impl MtNetwork {
    /// One fire-and-forget training run of strategy B, as observed at the
    /// aggregator: every section's batch work unit runs and its finished
    /// section is delivered, the aggregator drains exactly one outcome per
    /// section and then stops, and the assembled population is discarded by
    /// design. Returns how many receives the aggregator performed: always
    /// exactly the section count, `neurons / section_size`.
    pub fn train_complete_iterations<F: Fn(&Vec<u32>, &Vec<u32>, u32) -> Vec<u32>>(
        &self,
        epoch_count: usize,
        shared: &Vec<Vec<u32>>,
        rule: &F,
    ) -> (received: usize)
        requires
            self.wf(),
            epoch_count >= 1,
            shared@.len() >= epoch_count - 1,
            forall|w: Vec<u32>, k: int|
                0 <= k < epoch_count - 1 ==> call_requires(*rule, (&shared@[k], &w, self.lr)),
        ensures
            received == self.num_sections_spec(),
    {
        let n = self.num_sections();
        let mut outcomes: Vec<RecvOutcome> = Vec::new();
        let mut u: usize = 0;
        while u < n
            invariant
                self.wf(),
                epoch_count >= 1,
                shared@.len() >= epoch_count - 1,
                forall|w: Vec<u32>, k: int|
                    0 <= k < epoch_count - 1 ==> call_requires(*rule, (&shared@[k], &w, self.lr)),
                u <= n,
                outcomes@.len() == u,
            decreases n - u,
        {
            let unit = batch_work_unit(self.section_size, self.lr, epoch_count, shared, rule);
            outcomes.push(RecvOutcome::Delivered(unit));
            u = u + 1;
        }
        let _discarded = aggregate_results(&outcomes);
        outcomes.len()
    }
}

} // verus!
