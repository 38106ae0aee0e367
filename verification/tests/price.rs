use inventory_ledger::price::INFINITY_BITS;
use inventory_ledger::Price;

#[test]
fn price_keeps_its_bits() {
    let p = Price::from_bits(2.5f64.to_bits());
    assert_eq!(p.to_bits(), 2.5f64.to_bits());
    assert_eq!(p.bits, 0x4004_0000_0000_0000);
    assert_eq!(f64::from_bits(p.to_bits()), 2.5);
}

#[test]
fn infinity_bits_is_positive_infinity() {
    assert_eq!(INFINITY_BITS, f64::INFINITY.to_bits());
}

#[test]
fn check_positive_agrees_with_the_numbers() {
    let samples = [
        0.0,
        -0.0,
        1.0,
        -1.0,
        2.5,
        0.01,
        1e-320,
        f64::MIN_POSITIVE,
        f64::EPSILON,
        f64::MAX,
        f64::MIN,
        f64::INFINITY,
        f64::NEG_INFINITY,
        f64::NAN,
        -f64::NAN,
    ];
    for amount in samples {
        let expected = amount > 0.0;
        assert_eq!(Price::from_bits(amount.to_bits()).check_positive(), expected, "{}", amount);
    }
}

#[test]
fn check_positive_at_the_edges() {
    assert!(!Price::from_bits(0).check_positive());
    assert!(Price::from_bits(1).check_positive());
    assert!(Price::from_bits(INFINITY_BITS - 1).check_positive());
    assert!(Price::from_bits(INFINITY_BITS).check_positive());
    assert!(!Price::from_bits(INFINITY_BITS + 1).check_positive());
    assert!(!Price::from_bits(0x8000_0000_0000_0000).check_positive());
    assert!(!Price::from_bits(u64::MAX).check_positive());
}
