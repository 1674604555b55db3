use simple_wallet::{
    balance, build_tx, classify_relay, unspent_outputs, Chain, Recipient, RelayOutcome, ScanReport, TxLifecycle,
    TxRecord, TxStage, Utxo, WalletError, WalletState,
};

const UNIT: u64 = 100_000_000;

fn utxo(tag: u8, value: u64, spent: bool) -> Utxo {
    Utxo { txid: [tag; 32], vout: 0, value, chain: Chain::Receive, spent }
}

fn pay(amount: u64) -> Vec<Recipient> {
    vec![Recipient { script: vec![0x00, 0x14, 0xab], amount }]
}

#[test]
fn send_ten_units_then_sign_finalize_broadcast() {
    let snapshot = vec![utxo(1, 15 * UNIT, false)];
    let plan = build_tx(&snapshot, pay(10 * UNIT), 10_000, 546).unwrap();
    assert_eq!(plan.inputs.len(), 1);
    assert_eq!(plan.change, Some(499_990_000));
    assert_eq!(plan.fee, 10_000);
    assert_eq!(plan.recipients[0].amount, 10 * UNIT);

    let mut tx = TxLifecycle::new(plan.inputs.len(), [9; 32]);
    tx.record_signing(&vec![true]).unwrap();
    assert_eq!(tx.stage, TxStage::Signed);
    tx.finalize(&vec![true]).unwrap();
    assert_eq!(tx.stage, TxStage::Finalized);
    assert_eq!(tx.record_broadcast(RelayOutcome::Accepted), Ok([9; 32]));
    assert_eq!(tx.stage, TxStage::Broadcast);
    assert_eq!(tx.record_broadcast(RelayOutcome::AlreadyInMempool), Ok([9; 32]));
    assert_eq!(tx.record_broadcast(RelayOutcome::AlreadyConfirmed), Ok([9; 32]));
    assert_eq!(tx.stage, TxStage::Broadcast);
    tx.record_sync(false);
    assert_eq!(tx.stage, TxStage::Broadcast);
    tx.record_sync(true);
    assert_eq!(tx.stage, TxStage::Confirmed);
}

#[test]
fn insufficient_funds_builds_nothing() {
    let snapshot = vec![utxo(1, UNIT, false)];
    let r = build_tx(&snapshot, pay(10 * UNIT), 10_000, 546);
    assert_eq!(r.err(), Some(WalletError::InsufficientFunds));
    assert_eq!(snapshot.len(), 1);
    assert_eq!(snapshot[0].value, UNIT);
    assert!(!snapshot[0].spent);
}

#[test]
fn spent_outputs_do_not_count() {
    let snapshot = vec![utxo(1, 20 * UNIT, true), utxo(2, UNIT, false)];
    assert_eq!(build_tx(&snapshot, pay(2 * UNIT), 0, 0).err(), Some(WalletError::InsufficientFunds));
    assert_eq!(balance(&snapshot), UNIT as u128);
    assert_eq!(unspent_outputs(&snapshot).len(), 1);
}

#[test]
fn dust_change_goes_to_the_fee() {
    let snapshot = vec![utxo(1, 10_000, false)];
    let plan = build_tx(&snapshot, pay(9_000), 500, 546).unwrap();
    assert_eq!(plan.change, None);
    assert_eq!(plan.fee, 1_000);
}

#[test]
fn change_at_the_dust_threshold_is_kept() {
    let snapshot = vec![utxo(1, 10_046, false)];
    let plan = build_tx(&snapshot, pay(9_000), 500, 546).unwrap();
    assert_eq!(plan.change, Some(546));
    assert_eq!(plan.fee, 500);
}

#[test]
fn exact_amount_needs_no_change() {
    let snapshot = vec![utxo(1, 5_000, false)];
    let plan = build_tx(&snapshot, pay(4_000), 1_000, 0).unwrap();
    assert_eq!(plan.change, None);
    assert_eq!(plan.fee, 1_000);
}

#[test]
fn funds_are_conserved_across_inputs() {
    let snapshot = vec![utxo(1, 3 * UNIT, false), utxo(2, 4 * UNIT, true), utxo(3, 5 * UNIT, false), utxo(4, 7 * UNIT, false)];
    let recipients = vec![
        Recipient { script: vec![1], amount: 2 * UNIT },
        Recipient { script: vec![2], amount: 4 * UNIT },
    ];
    let plan = build_tx(&snapshot, recipients, 25_000, 546).unwrap();
    let txids: Vec<u8> = plan.inputs.iter().map(|u| u.txid[0]).collect();
    assert_eq!(txids, vec![1, 3]);
    let inputs: u128 = plan.inputs.iter().map(|u| u.value as u128).sum();
    let outputs: u128 = plan.recipients.iter().map(|r| r.amount as u128).sum();
    let change = plan.change.unwrap_or(0) as u128;
    assert_eq!(inputs, outputs + change + plan.fee);
    assert_eq!(plan.change, Some(2 * UNIT - 25_000));
}

#[test]
fn paying_nothing_spends_nothing() {
    let snapshot = vec![utxo(1, UNIT, false)];
    let plan = build_tx(&snapshot, Vec::new(), 0, 546).unwrap();
    assert!(plan.inputs.is_empty());
    assert_eq!(plan.change, None);
    assert_eq!(plan.fee, 0);
}

#[test]
fn sync_twice_changes_nothing() {
    let report = ScanReport {
        utxos: vec![utxo(1, UNIT, false), utxo(2, 2 * UNIT, true)],
        history: vec![TxRecord { txid: [1; 32], height: Some(101) }],
    };
    let mut state = WalletState::new();
    state.sync(Some(&report)).unwrap();
    let once: Vec<(u8, u64)> = state.utxos.iter().map(|u| (u.txid[0], u.value)).collect();
    state.sync(Some(&report)).unwrap();
    let twice: Vec<(u8, u64)> = state.utxos.iter().map(|u| (u.txid[0], u.value)).collect();
    assert_eq!(once, vec![(1, UNIT)]);
    assert_eq!(once, twice);
    assert_eq!(state.history.len(), 1);
    assert_eq!(state.history[0].height, Some(101));
}

#[test]
fn sync_drops_outputs_the_node_no_longer_reports() {
    let mut state = WalletState::new();
    let first = ScanReport { utxos: vec![utxo(1, UNIT, false), utxo(2, UNIT, false)], history: Vec::new() };
    state.sync(Some(&first)).unwrap();
    let second = ScanReport { utxos: vec![utxo(2, UNIT, false)], history: Vec::new() };
    state.sync(Some(&second)).unwrap();
    assert_eq!(state.utxos.len(), 1);
    assert_eq!(state.utxos[0].txid[0], 2);
}

#[test]
fn failed_sync_keeps_the_state() {
    let mut state = WalletState::new();
    let report = ScanReport { utxos: vec![utxo(1, UNIT, false)], history: Vec::new() };
    state.sync(Some(&report)).unwrap();
    assert_eq!(state.sync(None), Err(WalletError::Sync));
    assert_eq!(state.utxos.len(), 1);
    assert_eq!(state.utxos[0].value, UNIT);
}

#[test]
fn missing_signature_names_the_input() {
    let mut tx = TxLifecycle::new(3, [3; 32]);
    assert_eq!(tx.record_signing(&vec![true, false, false]), Err(WalletError::Signing { input: 1 }));
    assert_eq!(tx.stage, TxStage::Built);
    assert_eq!(tx.record_signing(&vec![true, true]), Err(WalletError::Signing { input: 2 }));
    tx.record_signing(&vec![true, true, true]).unwrap();
    assert_eq!(tx.stage, TxStage::Signed);
}

#[test]
fn incomplete_finalize_returns_to_built() {
    let mut tx = TxLifecycle::new(2, [2; 32]);
    tx.record_signing(&vec![true, true]).unwrap();
    assert_eq!(tx.finalize(&vec![false, true]), Err(WalletError::IncompleteSignature { input: 0 }));
    assert_eq!(tx.stage, TxStage::Built);
}

#[test]
fn rejected_relay_is_an_error() {
    let mut tx = TxLifecycle::new(1, [1; 32]);
    tx.record_signing(&vec![true]).unwrap();
    tx.finalize(&vec![true]).unwrap();
    assert_eq!(tx.record_broadcast(RelayOutcome::Rejected), Err(WalletError::BroadcastRejected));
    assert_eq!(tx.stage, TxStage::Finalized);
}

#[test]
fn relay_answers_are_sorted() {
    assert_eq!(classify_relay(true, ""), RelayOutcome::Accepted);
    assert_eq!(
        classify_relay(false, "RPC error: txn-already-in-mempool (code -26)"),
        RelayOutcome::AlreadyInMempool
    );
    assert_eq!(classify_relay(false, "transaction already in block chain"), RelayOutcome::AlreadyConfirmed);
    assert_eq!(classify_relay(false, "bad-txns-inputs-missingorspent"), RelayOutcome::Rejected);
    assert_eq!(classify_relay(false, ""), RelayOutcome::Rejected);
}

#[test]
fn confirmation_comes_from_history() {
    let report = ScanReport {
        utxos: Vec::new(),
        history: vec![
            TxRecord { txid: [1; 32], height: None },
            TxRecord { txid: [2; 32], height: Some(7) },
        ],
    };
    let mut state = WalletState::new();
    state.sync(Some(&report)).unwrap();
    assert!(!state.is_confirmed(&[1; 32]));
    assert!(state.is_confirmed(&[2; 32]));
    assert!(!state.is_confirmed(&[3; 32]));
}
