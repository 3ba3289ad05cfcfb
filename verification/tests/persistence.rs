use multisig_cli::types::CoordinatorError;
use multisig_cli::types::FinalizeOutcome;
use multisig_cli::types::MultiSignatureTransaction;
use multisig_cli::types::PendingTransaction;
use multisig_cli::types::RedeemDescriptor;
use multisig_cli::types::UnspentOutput;
use multisig_cli::codec::decode_msig;
use multisig_cli::codec::encode_msig;
use multisig_cli::coordinator::check_balance;
use multisig_cli::coordinator::handoff_file_name;

fn descriptor(txid: &str, output_index: u32, script: &str, value: u64) -> RedeemDescriptor {
    RedeemDescriptor {
        txid: txid.as_bytes().to_vec(),
        output_index,
        redeem_script: script.as_bytes().to_vec(),
        value,
    }
}

fn sample_state(complete: bool) -> MultiSignatureTransaction {
    MultiSignatureTransaction {
        signed_tx: PendingTransaction {
            hex: b"0400008085202f89".to_vec(),
            complete,
            errors: vec![b"missing signature".to_vec()],
        },
        p2sh: vec![
            descriptor("aa11", 0, "522102aa52ae", 500),
            descriptor("bb22", 3, "522102aa52ae", 300),
        ],
    }
}

fn assert_states_equal(a: &MultiSignatureTransaction, b: &MultiSignatureTransaction) {
    assert_eq!(a.signed_tx.hex, b.signed_tx.hex);
    assert_eq!(a.signed_tx.complete, b.signed_tx.complete);
    assert_eq!(a.signed_tx.errors, b.signed_tx.errors);
    assert_eq!(a.p2sh.len(), b.p2sh.len());
    for (x, y) in a.p2sh.iter().zip(b.p2sh.iter()) {
        assert_eq!(x.txid, y.txid);
        assert_eq!(x.output_index, y.output_index);
        assert_eq!(x.redeem_script, y.redeem_script);
        assert_eq!(x.value, y.value);
    }
}

#[test]
fn minimal_state_encodes_to_expected_json() {
    let state = MultiSignatureTransaction {
        signed_tx: PendingTransaction { hex: b"ab".to_vec(), complete: true, errors: vec![] },
        p2sh: vec![],
    };
    let encoded = encode_msig(&state);
    assert_eq!(
        String::from_utf8(encoded).unwrap(),
        r#"{"signed_tx":{"hex":"ab","complete":true,"errors":[]},"p2sh":[]}"#
    );
}

#[test]
fn full_state_encodes_to_expected_json() {
    let state = sample_state(false);
    let encoded = encode_msig(&state);
    let mut expected = String::new();
    expected.push_str(r#"{"signed_tx":{"hex":"0400008085202f89","complete":false,"#);
    expected.push_str(r#""errors":["missing signature"]},"p2sh":["#);
    expected.push_str(r#"{"txid":"aa11","output_index":0,"redeem_script":"522102aa52ae","value":500},"#);
    expected.push_str(r#"{"txid":"bb22","output_index":3,"redeem_script":"522102aa52ae","value":300}]}"#);
    assert_eq!(String::from_utf8(encoded).unwrap(), expected);
}

#[test]
fn round_trip_reproduces_the_state() {
    let state = sample_state(false);
    let decoded = decode_msig(&encode_msig(&state)).unwrap();
    assert_states_equal(&state, &decoded);
}

#[test]
fn round_trip_survives_escaped_bytes() {
    let mut state = sample_state(true);
    state.signed_tx.errors = vec![br#"a "quoted" \ backslash"#.to_vec()];
    let encoded = encode_msig(&state);
    let decoded = decode_msig(&encoded).unwrap();
    assert_states_equal(&state, &decoded);
}

#[test]
fn round_trip_of_empty_lists_and_extreme_values() {
    let state = MultiSignatureTransaction {
        signed_tx: PendingTransaction { hex: Vec::new(), complete: false, errors: Vec::new() },
        p2sh: vec![descriptor("ff", u32::MAX, "", u64::MAX)],
    };
    let decoded = decode_msig(&encode_msig(&state)).unwrap();
    assert_states_equal(&state, &decoded);
}

#[test]
fn malformed_artifacts_are_rejected() {
    for bad in [
        &b""[..],
        &b"{}"[..],
        &br#"{"signed_tx":{"hex":"ab","complete":true,"errors":[]},"p2sh":[]"#[..],
        &br#"{"signed_tx":{"hex":"ab","complete":maybe,"errors":[]},"p2sh":[]}"#[..],
        &br#"{"signed_tx":{"hex":"ab","complete":true,"errors":[]},"p2sh":[]} "#[..],
        &br#"{"p2sh":[],"signed_tx":{"hex":"ab","complete":true,"errors":[]}}"#[..],
    ] {
        let r = decode_msig(&bad.to_vec());
        assert_eq!(r.unwrap_err(), CoordinatorError::MalformedHandOff);
    }
}

#[test]
fn create_fixes_descriptors_in_input_order() {
    let selected = vec![
        UnspentOutput { txid: b"aa11".to_vec(), output_index: 0, value: 500 },
        UnspentOutput { txid: b"bb22".to_vec(), output_index: 3, value: 300 },
    ];
    let signed = PendingTransaction { hex: b"f00d".to_vec(), complete: false, errors: vec![] };
    let script = b"522102aa52ae".to_vec();
    let state = MultiSignatureTransaction::create(&selected, &script, signed);
    assert_eq!(state.signed_tx.hex, b"f00d".to_vec());
    assert_eq!(state.p2sh.len(), 2);
    assert_eq!(state.p2sh[0].txid, b"aa11".to_vec());
    assert_eq!(state.p2sh[0].output_index, 0);
    assert_eq!(state.p2sh[0].value, 500);
    assert_eq!(state.p2sh[0].redeem_script, script);
    assert_eq!(state.p2sh[1].txid, b"bb22".to_vec());
    assert_eq!(state.p2sh[1].output_index, 3);
    assert_eq!(state.p2sh[1].value, 300);
    assert_eq!(state.p2sh[1].redeem_script, script);
}

#[test]
fn sign_replaces_transaction_and_keeps_descriptors() {
    let mut state = sample_state(false);
    let before: Vec<Vec<u8>> = state.p2sh.iter().map(|d| d.txid.clone()).collect();
    state.sign(PendingTransaction { hex: b"cafe".to_vec(), complete: true, errors: vec![] });
    assert_eq!(state.signed_tx.hex, b"cafe".to_vec());
    assert!(state.signed_tx.complete);
    let after: Vec<Vec<u8>> = state.p2sh.iter().map(|d| d.txid.clone()).collect();
    assert_eq!(before, after);
}

#[test]
fn complete_state_finalizes_to_broadcast() {
    let state = sample_state(true);
    match state.is_signing_completed() {
        FinalizeOutcome::Broadcast { hex } => assert_eq!(hex, state.signed_tx.hex),
        FinalizeOutcome::HandOff { .. } => panic!("a complete state must not be handed off"),
    }
}

#[test]
fn finalize_on_complete_is_idempotent() {
    let state = sample_state(true);
    let first = match state.is_signing_completed() {
        FinalizeOutcome::Broadcast { hex } => hex,
        FinalizeOutcome::HandOff { .. } => panic!("a complete state must not be handed off"),
    };
    let second = match state.is_signing_completed() {
        FinalizeOutcome::Broadcast { hex } => hex,
        FinalizeOutcome::HandOff { .. } => panic!("a complete state must not be handed off"),
    };
    assert_eq!(first, second);
    assert_eq!(first, state.signed_tx.hex);
}

#[test]
fn incomplete_state_finalizes_to_handoff_bytes() {
    let state = sample_state(false);
    match state.is_signing_completed() {
        FinalizeOutcome::Broadcast { .. } => panic!("an incomplete state must be handed off"),
        FinalizeOutcome::HandOff { contents } => {
            assert_eq!(contents, encode_msig(&state));
            let reread = decode_msig(&contents).unwrap();
            assert_states_equal(&state, &reread);
        },
    }
}

#[test]
fn resume_to_completion_then_broadcast() {
    // a persisted, incomplete artifact is loaded, a second signature round
    // reports completion, and finalization emits the broadcast payload
    let persisted = encode_msig(&sample_state(false));
    let mut state = decode_msig(&persisted).unwrap();
    state.sign(PendingTransaction { hex: b"final".to_vec(), complete: true, errors: vec![] });
    match state.is_signing_completed() {
        FinalizeOutcome::Broadcast { hex } => assert_eq!(hex, b"final".to_vec()),
        FinalizeOutcome::HandOff { .. } => panic!("a complete state must not be handed off"),
    }
}

#[test]
fn balance_is_checked_before_anything_else() {
    assert_eq!(check_balance(399, 400).unwrap_err(), CoordinatorError::InsufficientBalance);
    assert!(check_balance(400, 400).is_ok());
    assert!(check_balance(500, 400).is_ok());
}

#[test]
fn handoff_file_names_are_zero_padded_timestamps() {
    let name = handoff_file_name(2020, 3, 7, 9, 5, 30);
    assert_eq!(String::from_utf8(name).unwrap(), "2020_03_07-09:05:30.json");
    let name = handoff_file_name(1999, 12, 31, 23, 59, 59);
    assert_eq!(String::from_utf8(name).unwrap(), "1999_12_31-23:59:59.json");
}
