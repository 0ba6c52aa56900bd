use pineappl::lagrange_subgrid::weight_is_zero;

#[test]
fn zero_of_either_sign_is_zero() {
    assert!(weight_is_zero(0.0_f64.to_bits()));
    assert!(weight_is_zero((-0.0_f64).to_bits()));
    assert!(weight_is_zero(0));
    assert!(weight_is_zero(1 << 63));
}

#[test]
fn anything_else_is_not_zero() {
    assert!(!weight_is_zero(1.0_f64.to_bits()));
    assert!(!weight_is_zero((-1.0_f64).to_bits()));
    assert!(!weight_is_zero(f64::MIN_POSITIVE.to_bits()));
    assert!(!weight_is_zero(1));
    assert!(!weight_is_zero((1 << 63) | 1));
    assert!(!weight_is_zero(f64::NAN.to_bits()));
    assert!(!weight_is_zero(f64::INFINITY.to_bits()));
    assert!(!weight_is_zero(u64::MAX));
}
