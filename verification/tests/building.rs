use multisig_cli::types::CoordinatorError;
use multisig_cli::types::UnspentOutput;
use multisig_cli::builder::plan_outputs;
use multisig_cli::builder::build_outputs;
use multisig_cli::builder::total_bonus;
use multisig_cli::builder::total_value;
use multisig_cli::amount::parse_amount;
use multisig_cli::amount::validate_amount;

fn utxo(txid: &str, output_index: u32, value: u64) -> UnspentOutput {
    UnspentOutput { txid: txid.as_bytes().to_vec(), output_index, value }
}

#[test]
fn change_above_dust_adds_change_output() {
    let dest = b"destination".to_vec();
    let back = b"source".to_vec();
    let outs = plan_outputs(500, 400, 10, 5, &dest, &back).unwrap();
    assert_eq!(outs.len(), 2);
    assert_eq!(outs[0].address, dest);
    assert_eq!(outs[0].value, 400);
    assert_eq!(outs[1].address, back);
    assert_eq!(outs[1].value, 105);
}

#[test]
fn zero_change_omits_change_output() {
    let dest = b"destination".to_vec();
    let back = b"source".to_vec();
    let outs = plan_outputs(500, 495, 0, 5, &dest, &back).unwrap();
    assert_eq!(outs.len(), 1);
    assert_eq!(outs[0].address, dest);
    assert_eq!(outs[0].value, 495);
}

#[test]
fn change_at_dust_threshold_is_forfeited() {
    let dest = b"d".to_vec();
    let back = b"s".to_vec();
    // change is exactly 100: at the threshold, so no change output
    let outs = plan_outputs(600, 500, 0, 0, &dest, &back).unwrap();
    assert_eq!(outs.len(), 1);
    // change of 101 exceeds the threshold
    let outs = plan_outputs(601, 500, 0, 0, &dest, &back).unwrap();
    assert_eq!(outs.len(), 2);
    assert_eq!(outs[1].value, 101);
}

#[test]
fn shortfall_reports_insufficient_selected_value() {
    let dest = b"d".to_vec();
    let back = b"s".to_vec();
    let r = plan_outputs(100, 200, 0, 5, &dest, &back);
    assert_eq!(r.unwrap_err(), CoordinatorError::InsufficientSelectedValue);
}

#[test]
fn oversized_change_reports_overflow() {
    let dest = b"d".to_vec();
    let back = b"s".to_vec();
    let r = plan_outputs(u64::MAX, 0, u64::MAX, 0, &dest, &back);
    assert_eq!(r.unwrap_err(), CoordinatorError::ValueOverflow);
}

#[test]
fn totals_sum_values_and_bonuses() {
    let utxos = vec![utxo("a", 0, 500), utxo("b", 1, 300)];
    assert_eq!(total_value(&utxos).unwrap(), 800);
    let bonuses = vec![Some(5u64), None, Some(7u64)];
    assert_eq!(total_bonus(&bonuses).unwrap(), 12);
}

#[test]
fn total_value_overflow_is_reported() {
    let utxos = vec![utxo("a", 0, u64::MAX), utxo("b", 1, 1)];
    assert_eq!(total_value(&utxos).unwrap_err(), CoordinatorError::ValueOverflow);
    let bonuses = vec![Some(u64::MAX), Some(1u64)];
    assert_eq!(total_bonus(&bonuses).unwrap_err(), CoordinatorError::ValueOverflow);
}

#[test]
fn build_outputs_combines_selection_and_bonuses() {
    let dest = b"destination".to_vec();
    let back = b"source".to_vec();
    let selected = vec![utxo("a", 0, 300), utxo("b", 1, 200)];
    let bonuses = vec![Some(10u64), None];
    let outs = build_outputs(&selected, &bonuses, 400, 5, &dest, &back).unwrap();
    // change = 500 - 400 + 10 - 5 = 105
    assert_eq!(outs.len(), 2);
    assert_eq!(outs[0].value, 400);
    assert_eq!(outs[1].value, 105);
}

#[test]
fn amounts_convert_at_eight_decimals() {
    assert_eq!(parse_amount(&b"1.5".to_vec()), Some(150_000_000));
    assert_eq!(parse_amount(&b"2".to_vec()), Some(200_000_000));
    assert_eq!(parse_amount(&b"0.00000001".to_vec()), Some(1));
    assert_eq!(parse_amount(&b"0".to_vec()), Some(0));
    assert_eq!(parse_amount(&b"12.25".to_vec()), Some(1_225_000_000));
}

#[test]
fn amount_fractions_beyond_eight_digits_truncate() {
    assert_eq!(parse_amount(&b"1.234567891".to_vec()), Some(123_456_789));
    assert_eq!(parse_amount(&b"0.999999999".to_vec()), Some(99_999_999));
}

#[test]
fn malformed_amounts_are_rejected() {
    assert_eq!(parse_amount(&b"".to_vec()), None);
    assert_eq!(parse_amount(&b"1.".to_vec()), None);
    assert_eq!(parse_amount(&b".5".to_vec()), None);
    assert_eq!(parse_amount(&b"1.2.3".to_vec()), None);
    assert_eq!(parse_amount(&b"1x".to_vec()), None);
    assert_eq!(parse_amount(&b"-1".to_vec()), None);
    assert_eq!(parse_amount(&b"999999999999999999999".to_vec()), None);
}

#[test]
fn sub_dust_amounts_are_rejected() {
    assert_eq!(validate_amount(99).unwrap_err(), CoordinatorError::DustAmount);
    assert!(validate_amount(100).is_ok());
    assert!(validate_amount(150_000_000).is_ok());
}
