use multisig_cli::types::UnspentOutput;
use multisig_cli::selector::select_utxos;

fn utxo(txid: &str, output_index: u32, value: u64) -> UnspentOutput {
    UnspentOutput { txid: txid.as_bytes().to_vec(), output_index, value }
}

fn ids(selected: &[UnspentOutput]) -> Vec<String> {
    selected.iter().map(|u| String::from_utf8(u.txid.clone()).unwrap()).collect()
}

#[test]
fn largest_output_alone_covers_target() {
    let utxos = vec![utxo("a", 0, 500), utxo("b", 1, 300), utxo("c", 2, 100)];
    let selected = select_utxos(&utxos, 400);
    assert_eq!(ids(&selected), vec!["a".to_string()]);
    assert_eq!(selected[0].value, 500);
}

#[test]
fn two_outputs_accumulate_past_target() {
    let utxos = vec![utxo("a", 0, 200), utxo("b", 1, 200)];
    let selected = select_utxos(&utxos, 350);
    assert_eq!(ids(&selected), vec!["a".to_string(), "b".to_string()]);
    assert_eq!(selected.iter().map(|u| u.value).sum::<u64>(), 400);
}

#[test]
fn zero_target_selects_nothing() {
    let utxos = vec![utxo("a", 0, 500), utxo("b", 1, 300)];
    let selected = select_utxos(&utxos, 0);
    assert!(selected.is_empty());
}

#[test]
fn insufficient_total_selects_everything() {
    let utxos = vec![utxo("a", 0, 50), utxo("b", 1, 30)];
    let selected = select_utxos(&utxos, 1000);
    assert_eq!(selected.len(), 2);
    assert_eq!(selected.iter().map(|u| u.value).sum::<u64>(), 80);
}

#[test]
fn selection_is_sorted_descending_by_value() {
    let utxos = vec![utxo("small", 0, 10), utxo("big", 1, 400), utxo("mid", 2, 50)];
    let selected = select_utxos(&utxos, 455);
    assert_eq!(
        ids(&selected),
        vec!["big".to_string(), "mid".to_string(), "small".to_string()]
    );
    let selected = select_utxos(&utxos, 430);
    assert_eq!(ids(&selected), vec!["big".to_string(), "mid".to_string()]);
}

#[test]
fn equal_values_keep_their_original_order() {
    let utxos = vec![utxo("first", 0, 200), utxo("second", 1, 200), utxo("third", 2, 200)];
    let selected = select_utxos(&utxos, 500);
    assert_eq!(
        ids(&selected),
        vec!["first".to_string(), "second".to_string(), "third".to_string()]
    );
}

#[test]
fn selection_is_deterministic() {
    let utxos = vec![utxo("a", 0, 123), utxo("b", 1, 456), utxo("c", 2, 123)];
    let once = select_utxos(&utxos, 500);
    let twice = select_utxos(&utxos, 500);
    assert_eq!(ids(&once), ids(&twice));
    let values_once: Vec<u64> = once.iter().map(|u| u.value).collect();
    let values_twice: Vec<u64> = twice.iter().map(|u| u.value).collect();
    assert_eq!(values_once, values_twice);
}

#[test]
fn whenever_total_covers_target_so_does_selection() {
    let utxos = vec![utxo("a", 0, 7), utxo("b", 1, 93), utxo("c", 2, 11), utxo("d", 3, 42)];
    for target in [1u64, 7, 50, 100, 153] {
        let selected = select_utxos(&utxos, target);
        let total: u64 = selected.iter().map(|u| u.value).sum();
        assert!(total >= target, "target {} not covered by {}", target, total);
    }
}
