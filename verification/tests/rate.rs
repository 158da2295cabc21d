use resp_benchmark::rate::scaled_less;
use resp_benchmark::rate::widening_mul;
use resp_benchmark::rate::Rate;

#[test]
fn rates_compare_as_ratios() {
    let slow = Rate { ops: 1_000, nanos: 1_000_000_000 };
    let fast = Rate { ops: 6_000, nanos: 3_000_000_000 };
    assert!(fast.reaches(&slow, 2, 1));
    assert!(!fast.surpasses(&slow, 2, 1));
    assert!(fast.surpasses(&slow, 13, 10));
    let edge = Rate { ops: 1_300, nanos: 1_000_000_000 };
    assert!(edge.reaches(&slow, 13, 10));
    assert!(!edge.surpasses(&slow, 13, 10));
    let none = Rate { ops: 0, nanos: 1 };
    assert!(none.reaches(&none, 2, 1));
    assert!(slow.reaches(&none, 2, 1));
}

#[test]
fn rates_compare_without_overflow() {
    let big = Rate { ops: u64::MAX, nanos: u64::MAX };
    let bigger = Rate { ops: u64::MAX, nanos: u64::MAX - 1 };
    assert!(bigger.surpasses(&big, 1, 1));
    assert!(!big.surpasses(&bigger, 1, 1));
    assert!(!big.reaches(&bigger, 13, 10));
    assert!(big.reaches(&big, 1, 1));
    assert!(!big.surpasses(&big, 1, 1));
}

#[test]
fn scaled_less_agrees_with_wide_arithmetic() {
    let values: [u128; 7] = [0, 1, 9, 10, 13, 1 << 64, (1 << 100) + 7];
    for a in values {
        for b in values {
            for k in [1u8, 2, 10, 13, 255] {
                for m in [1u8, 3, 10, 13, 255] {
                    assert_eq!(scaled_less(a, k, b, m), (k as u128) * a < (m as u128) * b);
                }
            }
        }
    }
    assert!(scaled_less(u128::MAX - 1, 255, u128::MAX, 255));
    assert!(!scaled_less(u128::MAX, 255, u128::MAX, 255));
    assert_eq!(widening_mul(u64::MAX, u64::MAX), (u64::MAX as u128) * (u64::MAX as u128));
}
