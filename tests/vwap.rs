use polymarket_bot::blockchain::{Fill, VwapCalculator};
use polymarket_bot::decimal::Dec;

#[test]
fn vwap_weights_by_maker_amount() {
    let fills = vec![Fill::from_texts("100", "50"), Fill::from_texts("0", "999"), Fill::from_texts("300", "210")];
    assert!(VwapCalculator::fills_fit_exec(&fills));
    assert_eq!(VwapCalculator::calculate_vwap(&fills), Dec::new(65, 2).unwrap());
}

#[test]
fn vwap_without_volume_is_zero() {
    let fills = vec![Fill::from_texts("not a number", "5"), Fill::from_texts("0", "7")];
    assert!(VwapCalculator::fills_fit_exec(&fills));
    assert_eq!(VwapCalculator::calculate_vwap(&fills), Dec::new(0, 0).unwrap());
    assert_eq!(VwapCalculator::calculate_vwap(&[]), Dec::new(0, 0).unwrap());
}

#[test]
fn vwap_rounds_repeating_quotients() {
    let fills = vec![Fill::from_texts("3", "1")];
    let q = VwapCalculator::calculate_vwap(&fills);
    assert_eq!(q.scale, 28);
    assert_eq!(q.mantissa, 3333333333333333333333333333);
}

#[test]
fn vwap_inputs_must_be_whole() {
    assert!(!VwapCalculator::fills_fit_exec(&[Fill::from_texts("1.5", "1")]));
    let big = "79228162514264337593543950335";
    assert!(!VwapCalculator::fills_fit_exec(&[Fill::from_texts(big, "1"), Fill::from_texts("1", "1")]));
}
