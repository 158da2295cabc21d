//! What a workload names besides its cases: the cores to run on and the
//! formats to write results in.

use vstd::prelude::*;
use vstd::std_specs::iter::IteratorSpec;

verus! {

#[derive(Debug, Clone, Copy, PartialEq, Eq, Structural)]
pub enum OutputFormat {
    XLSX,
    JSON,
}

impl Default for OutputFormat {
    fn default() -> (format: OutputFormat)
        ensures
            format == OutputFormat::XLSX,
    {
        OutputFormat::XLSX
    }
}

/// The cores that a workload runs on, by number, one shard each.
#[derive(Debug, Clone)]
pub struct CPUS(Vec<u64>);

/// The numbers from 0 up to, not including, `count`.
pub open spec fn first_cores(count: nat) -> Seq<u64> {
    Seq::new(count, |i: int| i as u64)
}

impl View for CPUS {
    type V = Seq<u64>;

    closed spec fn view(&self) -> Seq<u64> {
        self.0@
    }
}

impl CPUS {
    /// The given cores.
    pub fn new(cores: Vec<u64>) -> (cpus: CPUS)
        ensures
            cpus@ == cores@,
    {
        CPUS(cores)
    }

    /// The first `count` cores, which is what a workload runs on that names none.
    pub fn first(count: u64) -> (cpus: CPUS)
        ensures
            cpus@ == first_cores(count as nat),
    {
        let mut cores: Vec<u64> = Vec::new();
        let mut i: u64 = 0;
        while i < count
            invariant
                i <= count,
                cores@ == first_cores(i as nat),
            decreases count - i,
        {
            cores.push(i);
            assert(cores@ =~= first_cores((i + 1) as nat));
            i += 1;
        }
        CPUS(cores)
    }

    pub fn iter(&self) -> (iter: std::slice::Iter<'_, u64>)
        ensures
            iter.remaining() == self@.as_ref(),
    {
        self.0.iter()
    }

    pub fn get(&self, idx: usize) -> (core: u64)
        requires
            idx < self@.len(),
        ensures
            core == self@[idx as int],
    {
        self.0[idx]
    }

    pub fn len(&self) -> (len: usize)
        ensures
            len == self@.len(),
    {
        self.0.len()
    }

    /// Whether the machine has every core that is named, given how many
    /// cores it has.
    pub fn all_below(&self, cores: usize) -> (valid: bool)
        ensures
            valid == forall|i: int| 0 <= i < self@.len() ==> (#[trigger] self@[i]) < cores,
    {
        let mut i: usize = 0;
        while i < self.0.len()
            invariant
                i <= self.0.len(),
                forall|j: int| 0 <= j < i ==> (#[trigger] self.0@[j]) < cores,
            decreases self.0.len() - i,
        {
            if self.0[i] >= cores as u64 {
                assert(!(self@[i as int] < cores));
                return false;
            }
            i += 1;
        }
        true
    }
}

} // verus!
