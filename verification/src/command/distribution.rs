//! The distributions that keys and numbers are drawn from.

use crate::command::error::CommandError;
use crate::command::text::chars_of;
use crate::command::text::same_text;
use rand::distributions::Distribution;
use vstd::prelude::*;

verus! {

/// The state of a sequence: it counts up and wraps at `range`.
pub struct SequenceModel {
    pub range: nat,
    /// How many numbers were handed out, counted in a `u64` that wraps.
    pub cursor: nat,
}

/// A distribution over the numbers below a range.
pub enum DistributionModel {
    /// Every number is as likely as any other.
    Uniform(nat),
    /// Low numbers are more likely, by Zipf's law.
    Zipfian(nat),
    /// The numbers in order, over and over.
    Sequence(SequenceModel),
}

impl DistributionModel {
    /// The numbers drawn are below this.
    pub open spec fn range(self) -> nat {
        match self {
            DistributionModel::Uniform(range) => range,
            DistributionModel::Zipfian(range) => range,
            DistributionModel::Sequence(sequence) => sequence.range,
        }
    }

    /// The range holds a number, and a `u64` holds the range.
    pub open spec fn valid(self) -> bool {
        &&& 0 < self.range() <= u64::MAX
        &&& self matches DistributionModel::Sequence(sequence) ==> sequence.cursor <= u64::MAX
    }

    /// Whether `sample` can be the next number drawn: any number below the
    /// range, but for a sequence, whose next number is fixed.
    pub open spec fn yields(self, sample: u64) -> bool {
        match self {
            DistributionModel::Sequence(sequence) => sample == sequence.cursor % sequence.range,
            _ => sample < self.range(),
        }
    }

    /// The distribution after a number was drawn.
    pub open spec fn advanced(self) -> DistributionModel {
        match self {
            DistributionModel::Sequence(sequence) => DistributionModel::Sequence(
                SequenceModel {
                    cursor: if sequence.cursor + 1 <= u64::MAX {
                        sequence.cursor + 1
                    } else {
                        0
                    },
                    ..sequence
                },
            ),
            _ => self,
        }
    }
}

/// The distribution of the given name over `[0, range)`.
pub open spec fn distribution_named(name: Seq<char>, range: u64) -> Result<
    DistributionModel,
    CommandError,
> {
    if name == "uniform"@ {
        if range == 0 {
            Err(CommandError::EmptyRange)
        } else {
            Ok(DistributionModel::Uniform(range as nat))
        }
    } else if name == "zipfian"@ {
        if range == 0 {
            Err(CommandError::EmptyRange)
        } else {
            Ok(DistributionModel::Zipfian(range as nat))
        }
    } else if name == "sequence"@ {
        if range == 0 {
            Err(CommandError::EmptyRange)
        } else {
            Ok(DistributionModel::Sequence(SequenceModel { range: range as nat, cursor: 0 }))
        }
    } else {
        Err(CommandError::UnknownDistribution)
    }
}

/// The number that a rank of Zipf's law stands for: ranks count from one,
/// numbers from zero, and a rank outside `[1, n]` is taken for the nearest
/// inside.
pub open spec fn rank_index(n: u64, rank: u64) -> u64 {
    if rank < 1 {
        0
    } else if rank > n {
        (n - 1) as u64
    } else {
        (rank - 1) as u64
    }
}

/// A number drawn uniformly from `[0, range)`:
/// `rand::distributions::Uniform::new(0, range)`, which does not take an
/// empty range, sampled with `rand::thread_rng()`. Whatever is drawn lies in
/// the range; nothing more is claimed of it.
#[verifier::external_body]
pub(crate) fn uniform_below(range: u64) -> (sample: u64)
    requires
        range > 0,
    ensures
        sample < range,
{
    rand::distributions::Uniform::new(0, range).sample(&mut rand::thread_rng())
}

/// The numbers from zero up, wrapping at the range.
#[derive(Debug)]
pub struct SequenceDistribution {
    range: u64,
    current: u64,
}

impl View for SequenceDistribution {
    type V = SequenceModel;

    closed spec fn view(&self) -> SequenceModel {
        SequenceModel { range: self.range as nat, cursor: self.current as nat }
    }
}

impl SequenceDistribution {
    pub fn new(range: u64) -> (sequence: SequenceDistribution)
        requires
            range > 0,
        ensures
            sequence@ == (SequenceModel { range: range as nat, cursor: 0 }),
    {
        SequenceDistribution { range, current: 0 }
    }

    /// The next number of the sequence.
    pub fn sample(&mut self) -> (sample: u64)
        requires
            old(self)@.range > 0,
        ensures
            DistributionModel::Sequence(old(self)@).yields(sample),
            DistributionModel::Sequence(final(self)@) == DistributionModel::Sequence(
                old(self)@,
            ).advanced(),
            sample < old(self)@.range,
    {
        let ret = self.current;
        self.current = ret.wrapping_add(1);
        ret % self.range
    }
}

#[derive(Debug)]
pub enum DistributionEnum {
    Uniform(u64),
    Zipfian(u64),
    Sequence(SequenceDistribution),
}

impl View for DistributionEnum {
    type V = DistributionModel;

    open spec fn view(&self) -> DistributionModel {
        match self {
            DistributionEnum::Uniform(range) => DistributionModel::Uniform(*range as nat),
            DistributionEnum::Zipfian(range) => DistributionModel::Zipfian(*range as nat),
            DistributionEnum::Sequence(sequence) => DistributionModel::Sequence(sequence@),
        }
    }
}

impl DistributionEnum {
    /// The distribution called `s` over the numbers below `range`, which
    /// must hold a number.
    pub fn new(s: &str, range: u64) -> (made: Result<DistributionEnum, CommandError>)
        ensures
            match distribution_named(s@, range) {
                Ok(model) => made matches Ok(distribution) && distribution@ == model
                    && distribution@.valid(),
                Err(error) => made matches Err(e) && e == error,
            },
    {
        let name = chars_of(s);
        Self::named(&name, range)
    }

    /// As `new`, for a name given by its characters.
    pub fn named(name: &Vec<char>, range: u64) -> (made: Result<DistributionEnum, CommandError>)
        ensures
            match distribution_named(name@, range) {
                Ok(model) => made matches Ok(distribution) && distribution@ == model
                    && distribution@.valid(),
                Err(error) => made matches Err(e) && e == error,
            },
    {
        if same_text(name, "uniform") {
            if range == 0 {
                Err(CommandError::EmptyRange)
            } else {
                Ok(DistributionEnum::Uniform(range))
            }
        } else if same_text(name, "zipfian") {
            if range == 0 {
                Err(CommandError::EmptyRange)
            } else {
                Ok(DistributionEnum::Zipfian(range))
            }
        } else if same_text(name, "sequence") {
            if range == 0 {
                Err(CommandError::EmptyRange)
            } else {
                Ok(DistributionEnum::Sequence(SequenceDistribution::new(range)))
            }
        } else {
            Err(CommandError::UnknownDistribution)
        }
    }

    /// The number that a rank drawn by Zipf's law over `n` elements stands for.
    pub fn index_of_rank(n: u64, rank: u64) -> (index: u64)
        requires
            n > 0,
        ensures
            index == rank_index(n, rank),
            index < n,
    {
        if rank < 1 {
            0
        } else if rank > n {
            n - 1
        } else {
            rank - 1
        }
    }

    /// Draws the next number. A uniform number comes from the generator of
    /// the thread and a number of a sequence from its counter; for Zipf's
    /// law `zipf` is called with the number of elements and returns a rank.
    pub fn sample<F: Fn(u64) -> u64>(&mut self, zipf: &F) -> (sample: u64)
        requires
            old(self)@.valid(),
            forall|n: u64| n > 0 ==> call_requires(*zipf, (n,)),
        ensures
            old(self)@.yields(sample),
            final(self)@ == old(self)@.advanced(),
            final(self)@.valid(),
            sample < old(self)@.range(),
            old(self)@ matches DistributionModel::Zipfian(n) ==> exists|rank: u64|
                call_ensures(*zipf, (n as u64,), rank) && sample == #[trigger] rank_index(n as u64, rank),
    {
        match self {
            DistributionEnum::Uniform(range) => uniform_below(*range),
            DistributionEnum::Zipfian(range) => {
                let n = *range;
                let rank = zipf(n);
                let index = Self::index_of_rank(n, rank);
                assert(call_ensures(*zipf, ((n as nat) as u64,), rank) && index == rank_index(
                    (n as nat) as u64,
                    rank,
                ));
                index
            },
            DistributionEnum::Sequence(sequence) => sequence.sample(),
        }
    }
}

/// Whatever a valid distribution yields lies below its range, and the
/// distribution stays valid.
pub proof fn lemma_yields_in_range(distribution: DistributionModel, sample: u64)
    requires
        distribution.valid(),
        distribution.yields(sample),
    ensures
        sample < distribution.range(),
        distribution.advanced().valid(),
        distribution.advanced().range() == distribution.range(),
{
}

} // verus!
