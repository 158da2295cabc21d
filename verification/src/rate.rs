//! Throughput as an exact ratio of operations to nanoseconds, and the
//! comparison of two such ratios up to a factor.

use vstd::prelude::*;

verus! {

/// A throughput: `ops` operations in `nanos` nanoseconds.
#[derive(Clone, Copy, Debug)]
pub struct Rate {
    pub ops: u64,
    pub nanos: u64,
}

impl Rate {
    /// Whether this rate is at least `numer / denom` times `base`.
    pub open spec fn at_least(self, base: Rate, numer: int, denom: int) -> bool {
        denom * (self.ops * base.nanos) >= numer * (base.ops * self.nanos)
    }

    /// Whether this rate is more than `numer / denom` times `base`.
    pub open spec fn exceeds(self, base: Rate, numer: int, denom: int) -> bool {
        denom * (self.ops * base.nanos) > numer * (base.ops * self.nanos)
    }

    /// Whether no operation was counted.
    pub open spec fn is_zero(self) -> bool {
        self.ops == 0
    }

    pub fn reaches(&self, base: &Rate, numer: u8, denom: u8) -> (reached: bool)
        requires
            numer > 0,
            denom > 0,
        ensures
            reached == self.at_least(*base, numer as int, denom as int),
    {
        let left = widening_mul(self.ops, base.nanos);
        let right = widening_mul(base.ops, self.nanos);
        !scaled_less(left, denom, right, numer)
    }

    pub fn surpasses(&self, base: &Rate, numer: u8, denom: u8) -> (surpassed: bool)
        requires
            numer > 0,
            denom > 0,
        ensures
            surpassed == self.exceeds(*base, numer as int, denom as int),
    {
        let left = widening_mul(self.ops, base.nanos);
        let right = widening_mul(base.ops, self.nanos);
        scaled_less(right, numer, left, denom)
    }
}

/// The product of two `u64`, which a `u128` always holds.
pub fn widening_mul(a: u64, b: u64) -> (product: u128)
    ensures
        product == a * b,
{
    assert(a * b <= u128::MAX) by (nonlinear_arith)
        requires
            a <= u64::MAX,
            b <= u64::MAX,
    ;
    (a as u128) * (b as u128)
}

/// Whether `k * a < m * b`, decided without forming either product: with
/// `a = m * qa + ra` and `b = k * qb + rb` the quotients decide, and the
/// remainders where the quotients are equal.
pub fn scaled_less(a: u128, k: u8, b: u128, m: u8) -> (less: bool)
    requires
        k > 0,
        m > 0,
    ensures
        less == (k * a < m * b),
{
    let qa = a / (m as u128);
    let ra = a % (m as u128);
    let qb = b / (k as u128);
    let rb = b % (k as u128);
    proof {
        let (ai, bi, ki, mi) = (a as int, b as int, k as int, m as int);
        let (qai, rai, qbi, rbi) = (qa as int, ra as int, qb as int, rb as int);
        assert(ai == mi * qai + rai && 0 <= rai < mi) by (nonlinear_arith)
            requires
                qai == ai / mi,
                rai == ai % mi,
                mi > 0,
        ;
        assert(bi == ki * qbi + rbi && 0 <= rbi < ki) by (nonlinear_arith)
            requires
                qbi == bi / ki,
                rbi == bi % ki,
                ki > 0,
        ;
        assert(ki * ai == ki * mi * qai + ki * rai) by (nonlinear_arith)
            requires
                ai == mi * qai + rai,
        ;
        assert(mi * bi == ki * mi * qbi + mi * rbi) by (nonlinear_arith)
            requires
                bi == ki * qbi + rbi,
        ;
        assert(0 <= ki * rai < ki * mi) by (nonlinear_arith)
            requires
                0 <= rai < mi,
                ki > 0,
        ;
        assert(0 <= mi * rbi < ki * mi) by (nonlinear_arith)
            requires
                0 <= rbi < ki,
                mi > 0,
        ;
        if qai < qbi {
            assert(ki * mi * qai + ki * mi <= ki * mi * qbi) by (nonlinear_arith)
                requires
                    qai + 1 <= qbi,
                    ki > 0,
                    mi > 0,
            ;
        }
        if qbi < qai {
            assert(ki * mi * qbi + ki * mi <= ki * mi * qai) by (nonlinear_arith)
                requires
                    qbi + 1 <= qai,
                    ki > 0,
                    mi > 0,
            ;
        }
        assert(ki * rai < 65536 && mi * rbi < 65536) by (nonlinear_arith)
            requires
                0 <= rai < mi,
                0 <= rbi < ki,
                ki < 256,
                mi < 256,
        ;
    }
    if qa < qb {
        true
    } else if qa > qb {
        false
    } else {
        (k as u128) * ra < (m as u128) * rb
    }
}

} // verus!
