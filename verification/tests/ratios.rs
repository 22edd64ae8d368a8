use vidwatcher::ratio::{power_of_two, Ratio};

fn ratio(value: f64) -> Ratio {
    Ratio { bits: value.to_bits() }
}

#[test]
fn positive_ratios() {
    for v in [1.0, 0.9, f64::MIN_POSITIVE, 5e-324, f64::MAX, f64::INFINITY] {
        assert!(ratio(v).positive(), "{v}");
    }
    for v in [0.0, -0.0, -1.0, -5e-324, f64::NEG_INFINITY, f64::NAN, -f64::NAN] {
        assert!(!ratio(v).positive(), "{v}");
    }
}

#[test]
fn one_rejects_enlargements_only() {
    let one = ratio(1.0);
    assert!(!one.exceeded(100, 100));
    assert!(one.exceeded(100, 101));
    assert!(!one.exceeded(100, 99));
    assert!(one.exceeded(u64::MAX - 1, u64::MAX));
    assert!(!one.exceeded(u64::MAX, u64::MAX));
    assert!(one.exceeded(0, 1));
    assert!(!one.exceeded(0, 0));
}

#[test]
fn nine_tenths_asks_for_a_saving() {
    let r = ratio(0.9);
    assert!(!r.exceeded(1000, 899));
    assert!(!r.exceeded(1000, 900));
    assert!(r.exceeded(1000, 901));
    assert!(r.exceeded(1000, 1000));
}

#[test]
fn ratios_agree_with_doubles_on_small_sizes() {
    for v in [0.25, 0.5, 0.75, 1.0, 1.5, 2.0, 3.25, 1024.0] {
        for original in 0..40u64 {
            for size in 0..200u64 {
                let expected = size as f64 > original as f64 * v;
                assert_eq!(ratio(v).exceeded(original, size), expected, "{v} {original} {size}");
            }
        }
    }
}

#[test]
fn extreme_ratios() {
    assert!(!ratio(f64::INFINITY).exceeded(0, u64::MAX));
    assert!(!ratio(f64::MAX).exceeded(1, u64::MAX));
    assert!(ratio(f64::MAX).exceeded(0, 1));
    assert!(!ratio(f64::MAX).exceeded(0, 0));
    assert!(ratio(5e-324).exceeded(u64::MAX, 1));
    assert!(!ratio(5e-324).exceeded(u64::MAX, 0));
    // 2 to the power of 64 and of 10.
    assert!(!ratio(18446744073709551616.0).exceeded(1, u64::MAX));
    assert!(ratio(1024.0).exceeded(1, 1025));
    assert!(!ratio(1024.0).exceeded(1, 1024));
}

#[test]
fn powers_of_two() {
    assert_eq!(power_of_two(0), 1);
    assert_eq!(power_of_two(10), 1024);
    assert_eq!(power_of_two(127), 1u128 << 127);
}
