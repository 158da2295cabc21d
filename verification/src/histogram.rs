//! A latency histogram of 501 buckets whose resolution is finer at low latency.
//!
//! The histogram is a plain value: whoever shares it between threads wraps it
//! in a lock. Its model is the sequence of the bucket counts; the number of
//! samples is their sum.

use vstd::prelude::*;

verus! {

/// Number of buckets.
pub const BUCKETS: usize = 501;

/// Lower edge of the overflow bucket, in microseconds.
pub const MAX_UNIT_US: u64 = 10_000_000;

/// Index of the bucket that a latency of `latency_us` microseconds falls in.
pub open spec fn bucket_of(latency_us: int) -> int {
    if latency_us < 1_000 {
        latency_us / 10
    } else if latency_us < 10_000 {
        100 + latency_us / 100
    } else if latency_us < 100_000 {
        200 + latency_us / 1_000
    } else if latency_us < 1_000_000 {
        300 + latency_us / 10_000
    } else if latency_us < 10_000_000 {
        400 + latency_us / 100_000
    } else {
        500
    }
}

/// Lower edge, in microseconds, of the bucket with the given index.
pub open spec fn bucket_floor(index: int) -> int {
    if index < 100 {
        index * 10
    } else if index < 200 {
        (index - 100) * 100
    } else if index < 300 {
        (index - 200) * 1_000
    } else if index < 400 {
        (index - 300) * 10_000
    } else if index < 500 {
        (index - 400) * 100_000
    } else {
        10_000_000
    }
}

/// The latency that a sample of `latency_us` is counted as: the latency
/// itself cut down to the resolution of its size, and the lower edge of the
/// overflow bucket from there on.
pub open spec fn lower_edge(latency_us: int) -> int {
    if latency_us < 1_000 {
        latency_us - latency_us % 10
    } else if latency_us < 10_000 {
        latency_us - latency_us % 100
    } else if latency_us < 100_000 {
        latency_us - latency_us % 1_000
    } else if latency_us < 1_000_000 {
        latency_us - latency_us % 10_000
    } else if latency_us < 10_000_000 {
        latency_us - latency_us % 100_000
    } else {
        10_000_000
    }
}

/// Whether some latency falls in the bucket: the first ten buckets of each
/// coarser resolution stay empty, their range belongs to the finer one.
pub open spec fn bucket_used(index: int) -> bool {
    ||| 0 <= index < 100
    ||| 110 <= index < 200
    ||| 210 <= index < 300
    ||| 310 <= index < 400
    ||| 410 <= index <= 500
}

/// Sum of the first `n` counts.
pub open spec fn count_upto(counts: Seq<u64>, n: int) -> int
    decreases n,
{
    if n <= 0 {
        0
    } else {
        count_upto(counts, n - 1) + counts[n - 1]
    }
}

/// Sum over the first `n` buckets of count times lower edge.
pub open spec fn weight_upto(counts: Seq<u64>, n: int) -> int
    decreases n,
{
    if n <= 0 {
        0
    } else {
        weight_upto(counts, n - 1) + bucket_floor(n - 1) * counts[n - 1]
    }
}

/// Number of samples held by the bucket counts.
pub open spec fn total_of(counts: Seq<u64>) -> int {
    count_upto(counts, counts.len() as int)
}

/// The biased mean: every sample counts as the lower edge of its bucket.
pub open spec fn avg_of(counts: Seq<u64>) -> int {
    if total_of(counts) == 0 {
        0
    } else {
        weight_upto(counts, counts.len() as int) / total_of(counts)
    }
}

/// Whether the running count at bucket `index` is positive and has reached
/// the fraction `numer / denom` of all samples.
pub open spec fn reaches(counts: Seq<u64>, numer: int, denom: int, index: int) -> bool {
    &&& count_upto(counts, index + 1) > 0
    &&& count_upto(counts, index + 1) * denom >= numer * total_of(counts)
}

/// The first bucket at or after `from` that `reaches` the fraction, or the
/// number of buckets if there is none.
pub open spec fn first_reaching(counts: Seq<u64>, numer: int, denom: int, from: int) -> int
    decreases counts.len() - from,
{
    if from >= counts.len() {
        counts.len() as int
    } else if reaches(counts, numer, denom, from) {
        from
    } else {
        first_reaching(counts, numer, denom, from + 1)
    }
}

/// The latency reported for the fraction `numer / denom`: the lower edge of
/// the first bucket that reaches it, and 0 if no bucket does.
pub open spec fn percentile_of(counts: Seq<u64>, numer: int, denom: int) -> int {
    let index = first_reaching(counts, numer, denom, 0);
    if index < counts.len() {
        bucket_floor(index)
    } else {
        0
    }
}

/// Counts that a histogram can hold: one per bucket, none in a bucket that no
/// latency falls in, and a sum that a `u64` holds.
pub open spec fn valid_counts(counts: Seq<u64>) -> bool {
    &&& counts.len() == BUCKETS
    &&& total_of(counts) <= u64::MAX
    &&& forall|i: int| 0 <= i < BUCKETS && !bucket_used(i) ==> counts[i] == 0
}

/// Bucket counts with no sample.
pub open spec fn empty_counts() -> Seq<u64> {
    Seq::new(BUCKETS as nat, |i: int| 0u64)
}

/// Bucket counts with `n` samples in one bucket and none elsewhere.
pub open spec fn single_bucket(index: int, n: u64) -> Seq<u64> {
    empty_counts().update(index, n)
}

/// Bucket counts after one more sample of `latency_us`.
pub open spec fn recorded(counts: Seq<u64>, latency_us: int) -> Seq<u64> {
    let index = bucket_of(latency_us);
    counts.update(index, (counts[index] + 1) as u64)
}

/// Bucket counts after `n` more samples of `latency_us`.
pub open spec fn recorded_n(counts: Seq<u64>, latency_us: int, n: nat) -> Seq<u64>
    decreases n,
{
    if n == 0 {
        counts
    } else {
        recorded(recorded_n(counts, latency_us, (n - 1) as nat), latency_us)
    }
}

pub struct Histogram {
    cnt: u64,
    buckets: Vec<u64>,
}

impl View for Histogram {
    type V = Seq<u64>;

    /// The count of every bucket, by index.
    closed spec fn view(&self) -> Seq<u64> {
        self.buckets@
    }
}

impl Histogram {
    /// The sample counter agrees with the buckets.
    pub closed spec fn wf(&self) -> bool {
        &&& valid_counts(self.buckets@)
        &&& self.cnt == total_of(self.buckets@)
    }

    /// The counts of a well-formed histogram are valid.
    pub proof fn lemma_wf(&self)
        requires
            self.wf(),
        ensures
            valid_counts(self@),
    {
    }

    pub fn new() -> (histogram: Histogram)
        ensures
            histogram.wf(),
            histogram@ == empty_counts(),
            total_of(histogram@) == 0,
    {
        let mut buckets: Vec<u64> = Vec::with_capacity(BUCKETS);
        let mut i: usize = 0;
        while i < BUCKETS
            invariant
                i <= BUCKETS,
                buckets@.len() == i,
                forall|j: int| 0 <= j < i ==> buckets@[j] == 0,
            decreases BUCKETS - i,
        {
            buckets.push(0);
            i += 1;
        }
        proof {
            assert(buckets@ =~= empty_counts());
            lemma_empty_sums(BUCKETS as int);
        }
        Histogram { cnt: 0, buckets }
    }

    /// Index of the bucket for a latency.
    pub fn bucket_index(latency_us: u64) -> (index: usize)
        ensures
            index == bucket_of(latency_us as int),
            index < BUCKETS,
    {
        let index: u64 = if latency_us < 1_000 {
            latency_us / 10
        } else if latency_us < 10_000 {
            100 + latency_us / 100
        } else if latency_us < 100_000 {
            200 + latency_us / 1_000
        } else if latency_us < 1_000_000 {
            300 + latency_us / 10_000
        } else if latency_us < 10_000_000 {
            400 + latency_us / 100_000
        } else {
            500
        };
        index as usize
    }

    /// Lower edge of a bucket, in microseconds.
    pub fn bucket_unit_us(index: u64) -> (unit: u64)
        ensures
            unit == bucket_floor(index as int),
    {
        if index < 100 {
            index * 10
        } else if index < 200 {
            (index - 100) * 100
        } else if index < 300 {
            (index - 200) * 1_000
        } else if index < 400 {
            (index - 300) * 10_000
        } else if index < 500 {
            (index - 400) * 100_000
        } else {
            10_000_000
        }
    }

    /// Counts one sample: the sample counter and exactly one bucket grow by one.
    pub fn record(&mut self, latency_us: u64)
        requires
            old(self).wf(),
            total_of(old(self)@) < u64::MAX,
        ensures
            final(self).wf(),
            final(self)@ == recorded(old(self)@, latency_us as int),
            total_of(final(self)@) == total_of(old(self)@) + 1,
            percentile_of(final(self)@, 1, 1) >= lower_edge(latency_us as int),
            total_of(old(self)@) == 0 ==> percentile_of(final(self)@, 1, 1) == lower_edge(
                latency_us as int,
            ),
    {
        let index = Self::bucket_index(latency_us);
        proof {
            lemma_record_then_max(self.buckets@, latency_us);
            lemma_bucket_edge(latency_us as int);
            lemma_count_upto_covers(self.buckets@, BUCKETS as int, index as int);
            lemma_update_sums(
                self.buckets@,
                index as int,
                (self.buckets@[index as int] + 1) as u64,
                BUCKETS as int,
            );
        }
        self.cnt = self.cnt + 1;
        let count = self.buckets[index];
        self.buckets.set(index, count + 1);
    }

    /// Forgets every sample.
    pub fn clear(&mut self)
        requires
            old(self).wf(),
        ensures
            final(self).wf(),
            final(self)@ == empty_counts(),
            total_of(final(self)@) == 0,
    {
        self.cnt = 0;
        let mut i: usize = 0;
        while i < BUCKETS
            invariant
                i <= BUCKETS,
                self.buckets@.len() == BUCKETS,
                self.cnt == 0,
                forall|j: int| 0 <= j < i ==> self.buckets@[j] == 0,
            decreases BUCKETS - i,
        {
            self.buckets.set(i, 0);
            i += 1;
        }
        proof {
            assert(self.buckets@ =~= empty_counts());
            lemma_empty_sums(BUCKETS as int);
        }
    }

    /// Takes back one sample that was counted for `latency_us`.
    pub fn un_record(&mut self, latency_us: u64)
        requires
            old(self).wf(),
            old(self)@[bucket_of(latency_us as int)] > 0,
        ensures
            final(self).wf(),
            final(self)@ == old(self)@.update(
                bucket_of(latency_us as int),
                (old(self)@[bucket_of(latency_us as int)] - 1) as u64,
            ),
            total_of(final(self)@) == total_of(old(self)@) - 1,
    {
        let index = Self::bucket_index(latency_us);
        proof {
            lemma_count_upto_covers(self.buckets@, BUCKETS as int, index as int);
            lemma_update_sums(
                self.buckets@,
                index as int,
                (self.buckets@[index as int] - 1) as u64,
                BUCKETS as int,
            );
        }
        self.cnt = self.cnt - 1;
        let count = self.buckets[index];
        self.buckets.set(index, count - 1);
    }

    /// Number of samples.
    pub fn cnt(&self) -> (cnt: u64)
        requires
            self.wf(),
        ensures
            cnt == total_of(self@),
    {
        self.cnt
    }

    /// Number of samples in one bucket.
    pub fn bucket_count(&self, index: usize) -> (count: u64)
        requires
            self.wf(),
            index < BUCKETS,
        ensures
            count == self@[index as int],
    {
        self.buckets[index]
    }

    /// The mean latency in microseconds, every sample taken at the lower edge
    /// of its bucket; 0 for an empty histogram.
    pub fn avg(&self) -> (avg: u64)
        requires
            self.wf(),
        ensures
            avg == avg_of(self@),
            avg <= MAX_UNIT_US,
    {
        if self.cnt == 0 {
            return 0;
        }
        let mut sum: u128 = 0;
        let mut i: usize = 0;
        while i < BUCKETS
            invariant
                i <= BUCKETS,
                self.wf(),
                sum == weight_upto(self.buckets@, i as int),
            decreases BUCKETS - i,
        {
            proof {
                lemma_weight_upto_bounds(self.buckets@, i as int + 1);
                lemma_count_upto_monotonic(self.buckets@, i as int + 1, BUCKETS as int);
                assert(MAX_UNIT_US * count_upto(self.buckets@, i as int + 1) <= MAX_UNIT_US
                    * u64::MAX) by (nonlinear_arith)
                    requires
                        count_upto(self.buckets@, i as int + 1) <= u64::MAX,
                ;
                lemma_bucket_floor_bounds(i as int);
            }
            let unit = Self::bucket_unit_us(i as u64);
            sum = sum + (unit as u128) * (self.buckets[i] as u128);
            i += 1;
        }
        proof {
            lemma_weight_upto_bounds(self.buckets@, BUCKETS as int);
            let w = weight_upto(self.buckets@, BUCKETS as int);
            let t = self.cnt as int;
            assert(w / t <= MAX_UNIT_US) by (nonlinear_arith)
                requires
                    0 <= w <= MAX_UNIT_US * t,
                    t > 0,
            ;
            assert(0 <= w / t) by (nonlinear_arith)
                requires
                    0 <= w,
                    t > 0,
            ;
        }
        (sum / (self.cnt as u128)) as u64
    }
    /// The latency, in microseconds, below which the fraction `numer / denom`
    /// of the samples lies: the lower edge of the first bucket, in index
    /// order, at which the running count is positive and, multiplied by
    /// `denom`, is at least `numer` times the number of samples. 0 where no
    /// bucket gets there, as in an empty histogram.
    pub fn percentile(&self, numer: u64, denom: u64) -> (latency_us: u64)
        requires
            self.wf(),
        ensures
            latency_us == percentile_of(self@, numer as int, denom as int),
    {
        assert(numer * self.cnt <= u128::MAX) by (nonlinear_arith)
            requires
                numer <= u64::MAX,
                self.cnt <= u64::MAX,
        ;
        let target: u128 = (numer as u128) * (self.cnt as u128);
        let mut sum: u64 = 0;
        let mut i: usize = 0;
        while i < BUCKETS
            invariant
                i <= BUCKETS,
                self.wf(),
                target == numer * total_of(self.buckets@),
                sum == count_upto(self.buckets@, i as int),
                first_reaching(self.buckets@, numer as int, denom as int, 0) == first_reaching(
                    self.buckets@,
                    numer as int,
                    denom as int,
                    i as int,
                ),
            decreases BUCKETS - i,
        {
            proof {
                lemma_count_upto_monotonic(self.buckets@, i as int + 1, BUCKETS as int);
            }
            sum = sum + self.buckets[i];
            assert(sum * denom <= u128::MAX) by (nonlinear_arith)
                requires
                    sum <= u64::MAX,
                    denom <= u64::MAX,
            ;
            if sum > 0 && (sum as u128) * (denom as u128) >= target {
                return Self::bucket_unit_us(i as u64);
            }
            i += 1;
        }
        0
    }
}

/// Every latency falls in a bucket, one that is in use, at or above its
/// lower edge.
pub proof fn lemma_bucket_of_in_range(latency_us: int)
    requires
        0 <= latency_us,
    ensures
        0 <= bucket_of(latency_us) < BUCKETS,
        bucket_used(bucket_of(latency_us)),
        bucket_floor(bucket_of(latency_us)) <= latency_us,
{
}

/// No lower edge lies above that of the overflow bucket.
pub proof fn lemma_bucket_floor_bounds(index: int)
    requires
        0 <= index,
    ensures
        0 <= bucket_floor(index) <= MAX_UNIT_US,
{
}

/// A bucket is used exactly if some latency falls in it, its own lower edge
/// for one.
pub proof fn lemma_bucket_used(index: int)
    ensures
        bucket_used(index) <==> exists|latency_us: int|
            0 <= latency_us && #[trigger] bucket_of(latency_us) == index,
        bucket_used(index) ==> bucket_of(bucket_floor(index)) == index,
{
    if bucket_used(index) {
        assert(bucket_of(bucket_floor(index)) == index);
    }
}

/// Over the buckets in use the lower edges grow with the index.
pub proof fn lemma_bucket_floor_monotonic(i: int, j: int)
    requires
        bucket_used(i),
        bucket_used(j),
        i <= j,
    ensures
        bucket_floor(i) <= bucket_floor(j),
{
}

proof fn lemma_count_upto_nonnegative(counts: Seq<u64>, n: int)
    ensures
        0 <= count_upto(counts, n),
    decreases n,
{
    if n > 0 {
        lemma_count_upto_nonnegative(counts, n - 1);
    }
}

/// The running count grows with the number of buckets counted.
pub proof fn lemma_count_upto_monotonic(counts: Seq<u64>, i: int, j: int)
    requires
        i <= j,
    ensures
        count_upto(counts, i) <= count_upto(counts, j),
        0 <= count_upto(counts, i),
    decreases j - i,
{
    if i < j {
        lemma_count_upto_monotonic(counts, i, j - 1);
    } else {
        lemma_count_upto_nonnegative(counts, i);
    }
}

/// No bucket holds more than the first `n` buckets hold together.
pub proof fn lemma_count_upto_covers(counts: Seq<u64>, n: int, index: int)
    requires
        0 <= index < n,
    ensures
        counts[index] <= count_upto(counts, n),
    decreases n,
{
    lemma_count_upto_nonnegative(counts, n - 1);
    if index < n - 1 {
        lemma_count_upto_covers(counts, n - 1, index);
    }
}

proof fn lemma_weight_upto_bounds(counts: Seq<u64>, n: int)
    ensures
        0 <= weight_upto(counts, n) <= MAX_UNIT_US * count_upto(counts, n),
    decreases n,
{
    if n > 0 {
        lemma_weight_upto_bounds(counts, n - 1);
        lemma_bucket_floor_bounds(n - 1);
        let f = bucket_floor(n - 1);
        let c = counts[n - 1] as int;
        assert(0 <= f * c <= MAX_UNIT_US * c) by (nonlinear_arith)
            requires
                0 <= f <= MAX_UNIT_US,
                0 <= c,
        ;
        assert(MAX_UNIT_US * (count_upto(counts, n - 1) + c) == MAX_UNIT_US * count_upto(
            counts,
            n - 1,
        ) + MAX_UNIT_US * c) by (nonlinear_arith);
    }
}

/// How the running sums answer to a change of one bucket.
pub proof fn lemma_update_sums(counts: Seq<u64>, index: int, value: u64, n: int)
    requires
        0 <= index < counts.len(),
        n <= counts.len(),
    ensures
        count_upto(counts.update(index, value), n) == count_upto(counts, n) + (if index < n {
            value - counts[index]
        } else {
            0
        }),
        weight_upto(counts.update(index, value), n) == weight_upto(counts, n) + (if index < n {
            bucket_floor(index) * (value - counts[index])
        } else {
            0
        }),
    decreases n,
{
    if n > 0 {
        lemma_update_sums(counts, index, value, n - 1);
        if index == n - 1 {
            let f = bucket_floor(index);
            let v = value as int;
            let c = counts[index] as int;
            assert(f * v == f * c + f * (v - c)) by (nonlinear_arith);
        }
    }
}

proof fn lemma_empty_sums(n: int)
    requires
        n <= BUCKETS,
    ensures
        count_upto(empty_counts(), n) == 0,
        weight_upto(empty_counts(), n) == 0,
    decreases n,
{
    if n > 0 {
        lemma_empty_sums(n - 1);
        assert(bucket_floor(n - 1) * 0 == 0) by (nonlinear_arith);
    }
}

proof fn lemma_single_bucket_sums(index: int, n: u64, k: int)
    requires
        0 <= index < BUCKETS,
        k <= BUCKETS,
    ensures
        count_upto(single_bucket(index, n), k) == (if index < k {
            n as int
        } else {
            0
        }),
        weight_upto(single_bucket(index, n), k) == (if index < k {
            bucket_floor(index) * n
        } else {
            0
        }),
{
    lemma_empty_sums(k);
    lemma_update_sums(empty_counts(), index, n, k);
}

/// What `first_reaching` finds: the least index from `from` on that reaches
/// the fraction.
pub proof fn lemma_first_reaching(counts: Seq<u64>, numer: int, denom: int, from: int)
    requires
        0 <= from <= counts.len(),
    ensures
        from <= first_reaching(counts, numer, denom, from) <= counts.len(),
        first_reaching(counts, numer, denom, from) < counts.len() ==> reaches(
            counts,
            numer,
            denom,
            first_reaching(counts, numer, denom, from),
        ),
        forall|j: int|
            from <= j < first_reaching(counts, numer, denom, from) ==> !reaches(
                counts,
                numer,
                denom,
                j,
            ),
    decreases counts.len() - from,
{
    if from < counts.len() && !reaches(counts, numer, denom, from) {
        lemma_first_reaching(counts, numer, denom, from + 1);
    }
}

/// Recording one latency `n` times over fills one bucket with `n`.
pub proof fn lemma_recorded_n_single(latency_us: u64, n: nat)
    requires
        n <= u64::MAX,
    ensures
        recorded_n(empty_counts(), latency_us as int, n) == single_bucket(
            bucket_of(latency_us as int),
            n as u64,
        ),
    decreases n,
{
    let b = bucket_of(latency_us as int);
    lemma_bucket_of_in_range(latency_us as int);
    if n == 0 {
        assert(empty_counts() =~= single_bucket(b, 0));
    } else {
        lemma_recorded_n_single(latency_us, (n - 1) as nat);
        assert(recorded(single_bucket(b, (n - 1) as u64), latency_us as int) =~= single_bucket(
            b,
            n as u64,
        ));
    }
}

/// The lower edge of the bucket that a latency falls in is the latency cut
/// down to the resolution of its size.
pub proof fn lemma_bucket_edge(latency_us: int)
    requires
        0 <= latency_us,
    ensures
        bucket_floor(bucket_of(latency_us)) == lower_edge(latency_us),
{
}

/// Valid counts without a sample are the empty counts.
pub proof fn lemma_no_sample(counts: Seq<u64>)
    requires
        valid_counts(counts),
        total_of(counts) == 0,
    ensures
        counts == empty_counts(),
{
    assert forall|i: int| 0 <= i < BUCKETS implies counts[i] == 0 by {
        lemma_count_upto_covers(counts, BUCKETS as int, i);
    }
    assert(counts =~= empty_counts());
}

/// After a sample of `latency_us` is recorded, the full percentile is no
/// lower than the lower edge of that sample's bucket, and it is that edge
/// where the sample is the first.
pub proof fn lemma_record_then_max(counts: Seq<u64>, latency_us: u64)
    requires
        valid_counts(counts),
        total_of(counts) < u64::MAX,
    ensures
        valid_counts(recorded(counts, latency_us as int)),
        percentile_of(recorded(counts, latency_us as int), 1, 1) >= bucket_floor(
            bucket_of(latency_us as int),
        ),
        total_of(counts) == 0 ==> percentile_of(recorded(counts, latency_us as int), 1, 1)
            == bucket_floor(bucket_of(latency_us as int)),
{
    if total_of(counts) == 0 {
        lemma_no_sample(counts);
        lemma_repeated_record(latency_us, 1, 1, 1);
        assert(recorded_n(empty_counts(), latency_us as int, 1) == recorded(
            empty_counts(),
            latency_us as int,
        )) by {
            reveal_with_fuel(recorded_n, 2);
        }
    }
    let b = bucket_of(latency_us as int);
    let after = recorded(counts, latency_us as int);
    lemma_bucket_of_in_range(latency_us as int);
    lemma_count_upto_covers(counts, BUCKETS as int, b);
    lemma_update_sums(counts, b, (counts[b] + 1) as u64, BUCKETS as int);
    let found = first_reaching(after, 1, 1, 0);
    lemma_first_reaching(after, 1, 1, 0);
    assert(reaches(after, 1, 1, BUCKETS as int - 1));
    assert(found >= b) by {
        if found < b {
            lemma_update_sums(counts, b, (counts[b] + 1) as u64, found + 1);
            lemma_count_upto_monotonic(counts, found + 1, b);
            lemma_count_upto_monotonic(counts, b + 1, BUCKETS as int);
        }
    }
    assert(after[found] > 0) by {
        if found > 0 {
            assert(!reaches(after, 1, 1, found - 1));
            lemma_count_upto_monotonic(after, 0, found);
        }
    }
    lemma_bucket_floor_monotonic(b, found);
}

/// A histogram that holds the same latency `n` times, and nothing else,
/// counts `n` samples, and its mean and every percentile between 0 and 1 are
/// the lower edge of that latency's bucket.
pub proof fn lemma_repeated_record(latency_us: u64, n: nat, numer: u64, denom: u64)
    requires
        1 <= n <= u64::MAX,
        numer <= denom,
        denom > 0,
    ensures
        valid_counts(recorded_n(empty_counts(), latency_us as int, n)),
        total_of(recorded_n(empty_counts(), latency_us as int, n)) == n,
        avg_of(recorded_n(empty_counts(), latency_us as int, n)) == bucket_floor(
            bucket_of(latency_us as int),
        ),
        percentile_of(
            recorded_n(empty_counts(), latency_us as int, n),
            numer as int,
            denom as int,
        ) == bucket_floor(bucket_of(latency_us as int)),
{
    let b = bucket_of(latency_us as int);
    let counts = single_bucket(b, n as u64);
    lemma_bucket_of_in_range(latency_us as int);
    lemma_recorded_n_single(latency_us, n);
    lemma_single_bucket_sums(b, n as u64, BUCKETS as int);
    let f = bucket_floor(b);
    assert((f * n) / (n as int) == f) by (nonlinear_arith)
        requires
            n > 0,
    ;
    lemma_first_reaching(counts, numer as int, denom as int, 0);
    let found = first_reaching(counts, numer as int, denom as int, 0);
    assert(reaches(counts, numer as int, denom as int, b)) by {
        lemma_single_bucket_sums(b, n as u64, b + 1);
        assert(n * denom >= numer * n) by (nonlinear_arith)
            requires
                numer <= denom,
                n >= 0,
        ;
    }
    assert(found == b) by {
        if found < b {
            lemma_single_bucket_sums(b, n as u64, found + 1);
        }
    }
}

} // verus!
