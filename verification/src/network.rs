//! The training orchestrator: a fixed neuron population, partitioned into
//! disjoint equal-size contiguous sections, each section's update work
//! described for one worker, and the partial results reassembled.
use vstd::prelude::*;

use crate::cells::clone_cells;
use crate::cells::fresh_weight_vector;
use crate::cells::PATCH_SIZE;

verus! {

/// A configuration that cannot start a training run.
#[derive(Debug, Clone, Copy, PartialEq, Eq, Structural)]
pub enum ConfigError {
    /// The worker pool cannot be built with zero threads.
    ZeroThreads,
    /// A section of zero neurons cannot partition the population.
    ZeroSectionSize,
    /// The population does not divide evenly into sections.
    UnevenPartition,
}

/// Holds all data needed for training a network: the immutable training
/// configuration and the current weight population, one vector of raw cells
/// per neuron.
pub struct MtNetwork {
    /// Number of neurons assigned to one worker's section.
    pub section_size: usize,
    /// Number of workers in the pool serving this network.
    pub threads: usize,
    /// Total number of neurons in the population.
    pub neurons: usize,
    /// Learning rate, carried as a raw cell for the update rule.
    pub lr: u32,
    /// The weight population: `neurons` vectors of `PATCH_SIZE` cells each.
    pub weights: Vec<Vec<u32>>,
}

impl MtNetwork {
    /// A well-formed network: a nonempty section size that divides the
    /// population evenly, at least one worker, and a full-width weight
    /// vector per neuron.
    pub open spec fn wf(self) -> bool {
        &&& self.section_size >= 1
        &&& self.threads >= 1
        &&& self.neurons % self.section_size == 0
        &&& self.weights@.len() == self.neurons
        &&& forall|i: int|
            0 <= i < self.weights@.len() ==> (#[trigger] self.weights@[i])@.len() == PATCH_SIZE
    }

    /// Number of sections the population divides into.
    pub open spec fn num_sections_spec(self) -> int {
        self.neurons as int / self.section_size as int
    }

    /// The population divides exactly: `neurons == section_size * sections`.
    pub proof fn lemma_population_divides(self)
        requires
            self.wf(),
        ensures
            self.neurons == self.section_size * self.num_sections_spec(),
    {
        vstd::arithmetic::div_mod::lemma_fundamental_div_mod(
            self.neurons as int,
            self.section_size as int,
        );
    }

    /// Validates the configuration and initializes the weight population
    /// with `neurons` freshly drawn random vectors. Construction fails, and
    /// returns the reason, exactly when the pool would have no worker, the
    /// section size is zero, or the population does not divide evenly into
    /// sections; nothing is drawn and no worker is engaged in that case.
    pub fn new(section_size: usize, threads: usize, neurons: usize, lr: u32) -> (r: Result<
        MtNetwork,
        ConfigError,
    >)
        ensures
            r is Err <==> (threads == 0 || section_size == 0 || neurons % section_size != 0),
            match r {
                Ok(net) => {
                    &&& net.wf()
                    &&& net.section_size == section_size
                    &&& net.threads == threads
                    &&& net.neurons == neurons
                    &&& net.lr == lr
                },
                Err(e) => {
                    &&& (e == ConfigError::ZeroThreads <==> threads == 0)
                    &&& (e == ConfigError::ZeroSectionSize <==> threads >= 1 && section_size == 0)
                    &&& (e == ConfigError::UnevenPartition <==> threads >= 1 && section_size >= 1
                        && neurons % section_size != 0)
                },
            },
    {
        if threads == 0 {
            return Err(ConfigError::ZeroThreads);
        }
        if section_size == 0 {
            return Err(ConfigError::ZeroSectionSize);
        }
        if neurons % section_size != 0 {
            return Err(ConfigError::UnevenPartition);
        }
        let mut weights: Vec<Vec<u32>> = Vec::new();
        let mut i: usize = 0;
        while i < neurons
            invariant
                i <= neurons,
                weights@.len() == i,
                forall|j: int|
                    0 <= j < weights@.len() ==> (#[trigger] weights@[j])@.len() == PATCH_SIZE,
            decreases neurons - i,
        {
            weights.push(fresh_weight_vector());
            i = i + 1;
        }
        Ok(MtNetwork { section_size, threads, neurons, lr, weights })
    }

    /// Number of sections the population divides into.
    pub fn num_sections(&self) -> (n: usize)
        requires
            self.wf(),
        ensures
            n == self.num_sections_spec(),
    {
        self.neurons / self.section_size
    }

    /// One half of partitioning exactness: every section slot `(i, k)`
    /// addresses a neuron index below the population size, and that index
    /// determines the slot back — so no neuron index lies in two slots.
    pub proof fn lemma_slot_to_index(self, i: int, k: int)
        requires
            self.wf(),
            0 <= i < self.num_sections_spec(),
            0 <= k < self.section_size,
        ensures
            0 <= i * self.section_size + k < self.neurons,
            i == (i * self.section_size + k) / (self.section_size as int),
            k == (i * self.section_size + k) % (self.section_size as int),
    {
        let s = self.section_size as int;
        let n = self.num_sections_spec();
        self.lemma_population_divides();
        lemma_slot_in_range(s, n, i, k);
        vstd::arithmetic::div_mod::lemma_fundamental_div_mod_converse(i * s + k, s, i, k);
    }

    /// The other half of partitioning exactness: every neuron index `g` lies
    /// in some section slot, namely section `g / section_size` at offset
    /// `g % section_size` — for a fixed configuration, independent of any
    /// scheduling.
    pub proof fn lemma_index_to_slot(self, g: int)
        requires
            self.wf(),
            0 <= g < self.neurons,
        ensures
            0 <= g / (self.section_size as int) < self.num_sections_spec(),
            0 <= g % (self.section_size as int) < self.section_size,
            g == (g / (self.section_size as int)) * self.section_size + g % (
            self.section_size as int),
    {
        let s = self.section_size as int;
        let n = self.num_sections_spec();
        vstd::arithmetic::div_mod::lemma_fundamental_div_mod(g, s);
        vstd::arithmetic::div_mod::lemma_mod_bound(g, s);
        self.lemma_population_divides();
        assert(g <= s * n - 1);
        assert(s * n - 1 == (n - 1) * s + (s - 1)) by (nonlinear_arith);
        vstd::arithmetic::div_mod::lemma_fundamental_div_mod_converse(s * n - 1, s, n - 1, s - 1);
        vstd::arithmetic::div_mod::lemma_div_is_ordered(g, s * n - 1, s);
    }

    /// Splits the weight population into its sections: section `i` is an
    /// exact copy of the contiguous weight vectors at indices
    /// `i * section_size .. (i + 1) * section_size`, in order.
    pub fn partition_sections(&self) -> (sections: Vec<Vec<Vec<u32>>>)
        requires
            self.wf(),
        ensures
            sections@.len() == self.num_sections_spec(),
            forall|i: int|
                0 <= i < sections@.len() ==> (#[trigger] sections@[i])@.len() == self.section_size,
            forall|i: int, k: int|
                0 <= i < sections@.len() && 0 <= k < self.section_size ==> (
                #[trigger] sections@[i]@[k])@ == self.weights@[i * self.section_size + k]@,
    {
        proof {
            self.lemma_population_divides();
        }
        let n = self.num_sections();
        let mut sections: Vec<Vec<Vec<u32>>> = Vec::new();
        let mut i: usize = 0;
        while i < n
            invariant
                self.wf(),
                n == self.num_sections_spec(),
                self.neurons == self.section_size * n,
                i <= n,
                sections@.len() == i,
                forall|j: int|
                    0 <= j < sections@.len() ==> (#[trigger] sections@[j])@.len()
                        == self.section_size,
                forall|j: int, k: int|
                    0 <= j < sections@.len() && 0 <= k < self.section_size ==> (
                    #[trigger] sections@[j]@[k])@ == self.weights@[j * self.section_size + k]@,
            decreases n - i,
        {
            let mut sec: Vec<Vec<u32>> = Vec::new();
            let mut k: usize = 0;
            while k < self.section_size
                invariant
                    self.wf(),
                    self.neurons == self.section_size * n,
                    i < n,
                    k <= self.section_size,
                    sec@.len() == k,
                    forall|k2: int|
                        0 <= k2 < sec@.len() ==> (#[trigger] sec@[k2])@ == self.weights@[i
                            * self.section_size + k2]@,
                decreases self.section_size - k,
            {
                proof {
                    lemma_slot_in_range(
                        self.section_size as int,
                        n as int,
                        i as int,
                        k as int,
                    );
                }
                let idx = i * self.section_size + k;
                sec.push(clone_cells(&self.weights[idx]));
                k = k + 1;
            }
            sections.push(sec);
            i = i + 1;
        }
        sections
    }
}

/// A slot `(section, offset)` addresses a weight index below the population
/// size.
pub proof fn lemma_slot_in_range(s: int, n: int, i: int, k: int)
    requires
        s >= 1,
        0 <= i < n,
        0 <= k < s,
    ensures
        0 <= i * s + k < n * s,
        i * s + k < s * n,
{
    assert(0 <= i * s + k < n * s && i * s + k < s * n) by (nonlinear_arith)
        requires
            s >= 1,
            0 <= i < n,
            0 <= k < s,
    ;
}

} // verus!
