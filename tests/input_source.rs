use zingolib::amount::{Amount, MAX_MONEY};
use zingolib::error::InputSourceError;
use zingolib::store::{ShieldedNote, TransactionRecord, TransactionRecordsById, TransparentOutput};
use zingolib::types::{AccountId, ConfirmationStatus, NoteId, OutPoint, ShieldedProtocol, TransparentAddress, TxId};

fn default_txid() -> TxId {
    TxId { bytes: [0; 32] }
}

fn txid(b: u8) -> TxId {
    TxId { bytes: [b; 32] }
}

fn note(value: u64) -> ShieldedNote {
    ShieldedNote { value, spent: false }
}

fn output(output_index: u32, value: u64) -> TransparentOutput {
    TransparentOutput { output_index, value, script: vec![0x76, 0xa9, 0x14, output_index as u8] }
}

fn record(id: TxId, status: ConfirmationStatus) -> TransactionRecord {
    TransactionRecord {
        txid: id,
        status,
        sapling_notes: Vec::new(),
        orchard_notes: Vec::new(),
        transparent_outputs: Vec::new(),
    }
}

fn store_of(records: Vec<TransactionRecord>) -> TransactionRecordsById {
    let mut store = TransactionRecordsById::new();
    for r in records {
        store.insert_transaction_record(r);
    }
    store
}

fn setup_mock_trbid() -> TransactionRecordsById {
    let mut transaction_record = record(default_txid(), ConfirmationStatus::Confirmed(5));
    transaction_record.sapling_notes.push(note(30_000));
    transaction_record.transparent_outputs.push(output(0, 5_000));
    store_of(vec![transaction_record])
}

fn both_pools() -> Vec<ShieldedProtocol> {
    vec![ShieldedProtocol::Sapling, ShieldedProtocol::Orchard]
}

fn amount(v: u64) -> Amount {
    Amount::from_u64(v).unwrap()
}

fn values(notes: &[zingolib::store::ReceivedNote]) -> Vec<u64> {
    notes.iter().map(|n| n.value).collect()
}

#[test]
fn get_individual_sapling_note() {
    let store = setup_mock_trbid();
    let single_note_wrong_index = store.get_spendable_note(&default_txid(), ShieldedProtocol::Sapling, 1);
    assert!(single_note_wrong_index.is_none());
    let real_single_note = store.get_spendable_note(&default_txid(), ShieldedProtocol::Sapling, 0).unwrap();
    assert_eq!(real_single_note.value, 30_000);
    assert!(real_single_note.note_id.same_as(&NoteId { txid: default_txid(), pool: ShieldedProtocol::Sapling, index: 0 }));
}

#[test]
fn missing_transaction_or_pool_gives_no_note() {
    let store = setup_mock_trbid();
    assert!(store.get_spendable_note(&txid(9), ShieldedProtocol::Sapling, 0).is_none());
    assert!(store.get_spendable_note(&default_txid(), ShieldedProtocol::Orchard, 0).is_none());
}

#[test]
fn sapling_note_is_selected() {
    let store = setup_mock_trbid();
    let spendable = store
        .select_spendable_notes(AccountId::zero(), amount(20000), &both_pools(), 10, &[])
        .unwrap();
    assert_eq!(spendable.sapling.first().unwrap().value, 30_000);
}

#[test]
fn single_sapling_note_covers_target() {
    let store = setup_mock_trbid();
    let spendable = store
        .select_spendable_notes(AccountId::zero(), amount(20_000), &both_pools(), 10, &[])
        .unwrap();
    assert_eq!(values(&spendable.sapling), vec![30_000]);
    assert!(spendable.orchard.is_empty());
}

#[test]
fn insufficient_funds_reports_shortfall() {
    let store = setup_mock_trbid();
    let r = store.select_spendable_notes(AccountId::zero(), amount(40_000), &both_pools(), 10, &[]);
    assert_eq!(r.unwrap_err(), InputSourceError::InsufficientFunds { shortfall: 10_000 });
}

#[test]
fn other_account_is_unsupported() {
    let store = setup_mock_trbid();
    for index in [1u32, 2, u32::MAX] {
        let r = store.select_spendable_notes(AccountId { index }, amount(0), &both_pools(), 10, &[]);
        assert_eq!(r.unwrap_err(), InputSourceError::UnsupportedAccount);
    }
    let empty = TransactionRecordsById::new();
    let r = empty.select_spendable_notes(AccountId { index: 3 }, amount(1), &both_pools(), 10, &[]);
    assert_eq!(r.unwrap_err(), InputSourceError::UnsupportedAccount);
}

#[test]
fn zero_target_selects_nothing() {
    let store = setup_mock_trbid();
    let spendable = store
        .select_spendable_notes(AccountId::zero(), amount(0), &both_pools(), 10, &[])
        .unwrap();
    assert!(spendable.sapling.is_empty());
    assert!(spendable.orchard.is_empty());
}

#[test]
fn excluded_note_is_not_selected() {
    let store = setup_mock_trbid();
    let excluded = NoteId { txid: default_txid(), pool: ShieldedProtocol::Sapling, index: 0 };
    let r = store.select_spendable_notes(AccountId::zero(), amount(20_000), &both_pools(), 10, &[excluded, excluded]);
    assert_eq!(r.unwrap_err(), InputSourceError::InsufficientFunds { shortfall: 20_000 });
}

#[test]
fn note_confirmed_after_anchor_is_not_selected() {
    let store = setup_mock_trbid();
    let r = store.select_spendable_notes(AccountId::zero(), amount(20_000), &both_pools(), 4, &[]);
    assert_eq!(r.unwrap_err(), InputSourceError::InsufficientFunds { shortfall: 20_000 });
    let mut pending = record(txid(2), ConfirmationStatus::Unconfirmed);
    pending.sapling_notes.push(note(50_000));
    let mut conflicted = record(txid(3), ConfirmationStatus::Conflicted);
    conflicted.orchard_notes.push(note(50_000));
    let store = store_of(vec![pending, conflicted]);
    let r = store.select_spendable_notes(AccountId::zero(), amount(1), &both_pools(), 100, &[]);
    assert_eq!(r.unwrap_err(), InputSourceError::InsufficientFunds { shortfall: 1 });
}

#[test]
fn spent_note_is_not_selected() {
    let mut rec = record(txid(1), ConfirmationStatus::Confirmed(1));
    rec.sapling_notes.push(ShieldedNote { value: 900, spent: true });
    rec.sapling_notes.push(note(100));
    let store = store_of(vec![rec]);
    let spendable = store
        .select_spendable_notes(AccountId::zero(), amount(50), &both_pools(), 10, &[])
        .unwrap();
    assert_eq!(values(&spendable.sapling), vec![100]);
    assert_eq!(spendable.sapling[0].note_id.index, 1);
}

#[test]
fn larger_notes_are_taken_first() {
    let mut a = record(txid(1), ConfirmationStatus::Confirmed(1));
    a.sapling_notes.push(note(100));
    a.sapling_notes.push(note(300));
    let mut b = record(txid(2), ConfirmationStatus::Confirmed(2));
    b.sapling_notes.push(note(200));
    b.sapling_notes.push(note(50));
    let store = store_of(vec![a, b]);
    let spendable = store
        .select_spendable_notes(AccountId::zero(), amount(450), &both_pools(), 10, &[])
        .unwrap();
    assert_eq!(values(&spendable.sapling), vec![300, 200]);
    let spendable = store
        .select_spendable_notes(AccountId::zero(), amount(500), &both_pools(), 10, &[])
        .unwrap();
    assert_eq!(values(&spendable.sapling), vec![300, 200]);
    let spendable = store
        .select_spendable_notes(AccountId::zero(), amount(501), &both_pools(), 10, &[])
        .unwrap();
    assert_eq!(values(&spendable.sapling), vec![300, 200, 100]);
}

#[test]
fn equal_values_keep_store_order() {
    let mut a = record(txid(1), ConfirmationStatus::Confirmed(1));
    a.orchard_notes.push(note(70));
    a.orchard_notes.push(note(70));
    let store = store_of(vec![a]);
    let spendable = store
        .select_spendable_notes(AccountId::zero(), amount(10), &both_pools(), 10, &[])
        .unwrap();
    assert_eq!(spendable.orchard.len(), 1);
    assert_eq!(spendable.orchard[0].note_id.index, 0);
    assert!(spendable.orchard[0].note_id.pool == ShieldedProtocol::Orchard);
}

#[test]
fn orchard_continues_after_sapling() {
    let mut a = record(txid(1), ConfirmationStatus::Confirmed(1));
    a.sapling_notes.push(note(400));
    a.orchard_notes.push(note(250));
    a.orchard_notes.push(note(500));
    a.orchard_notes.push(note(80));
    let store = store_of(vec![a]);
    let spendable = store
        .select_spendable_notes(AccountId::zero(), amount(1000), &both_pools(), 10, &[])
        .unwrap();
    assert_eq!(values(&spendable.sapling), vec![400]);
    assert_eq!(values(&spendable.orchard), vec![500, 250]);
    let r = store.select_spendable_notes(AccountId::zero(), amount(1300), &both_pools(), 10, &[]);
    assert_eq!(r.unwrap_err(), InputSourceError::InsufficientFunds { shortfall: 70 });
}

#[test]
fn pool_left_out_of_sources_is_not_scanned() {
    let mut a = record(txid(1), ConfirmationStatus::Confirmed(1));
    a.sapling_notes.push(note(400));
    a.orchard_notes.push(note(250));
    let store = store_of(vec![a]);
    let spendable = store
        .select_spendable_notes(AccountId::zero(), amount(100), &[ShieldedProtocol::Orchard], 10, &[])
        .unwrap();
    assert!(spendable.sapling.is_empty());
    assert_eq!(values(&spendable.orchard), vec![250]);
    let r = store.select_spendable_notes(AccountId::zero(), amount(100), &[], 10, &[]);
    assert_eq!(r.unwrap_err(), InputSourceError::InsufficientFunds { shortfall: 100 });
}

#[test]
fn enough_funds_reach_target() {
    let mut a = record(txid(1), ConfirmationStatus::Confirmed(3));
    a.sapling_notes.push(note(10));
    a.sapling_notes.push(note(25));
    a.orchard_notes.push(note(40));
    let store = store_of(vec![a]);
    for target in 0..=75u64 {
        let s = store
            .select_spendable_notes(AccountId::zero(), amount(target), &both_pools(), 3, &[])
            .unwrap();
        let sum: u64 = values(&s.sapling).iter().sum::<u64>() + values(&s.orchard).iter().sum::<u64>();
        assert!(sum >= target);
    }
    for target in 76..100u64 {
        let r = store.select_spendable_notes(AccountId::zero(), amount(target), &both_pools(), 3, &[]);
        assert_eq!(r.unwrap_err(), InputSourceError::InsufficientFunds { shortfall: target - 75 });
    }
}

#[test]
fn note_value_out_of_range_fails() {
    let mut a = record(txid(1), ConfirmationStatus::Confirmed(3));
    a.sapling_notes.push(note(MAX_MONEY + 1));
    let store = store_of(vec![a]);
    let r = store.select_spendable_notes(AccountId::zero(), amount(5), &both_pools(), 3, &[]);
    assert_eq!(r.unwrap_err(), InputSourceError::AmountRange);
    let spendable = store
        .select_spendable_notes(AccountId::zero(), amount(0), &both_pools(), 3, &[])
        .unwrap();
    assert!(spendable.sapling.is_empty());
}

#[test]
fn get_transparent_output() {
    let store = setup_mock_trbid();
    let rec = &store.records[0];
    let transparent_output = &rec.transparent_outputs[0];
    let record_height = rec.status.get_confirmed_height();
    let wto = store
        .get_unspent_transparent_output(&rec.to_outpoint(&output(0, 5_000)))
        .unwrap()
        .unwrap();
    assert!(wto.outpoint.same_as(&rec.to_outpoint(transparent_output)));
    assert_eq!(wto.value.into_u64(), transparent_output.value);
    assert_eq!(wto.script, transparent_output.script);
    assert_eq!(Some(wto.height), record_height);
}

#[test]
fn select_transparent_outputs() {
    let store = setup_mock_trbid();
    let rec = &store.records[0];
    let transparent_output = &rec.transparent_outputs[0];
    let record_height = rec.status.get_confirmed_height();
    let selected_outputs = store
        .get_unspent_transparent_outputs(&TransparentAddress::ScriptHash([0; 20]), 10, &[])
        .unwrap();
    let first = selected_outputs.first().unwrap();
    assert!(first.outpoint.same_as(&rec.to_outpoint(transparent_output)));
    assert_eq!(first.value.into_u64(), transparent_output.value);
    assert_eq!(first.script, transparent_output.script);
    assert_eq!(Some(first.height), record_height);
}

#[test]
fn transparent_output_excluded_by_outpoint() {
    let mut rec = record(txid(4), ConfirmationStatus::Confirmed(7));
    rec.transparent_outputs.push(output(2, 5_000));
    let store = store_of(vec![rec]);
    let addr = TransparentAddress::PublicKeyHash([1; 20]);
    let outs = store.get_unspent_transparent_outputs(&addr, 10, &[]).unwrap();
    assert_eq!(outs.len(), 1);
    assert_eq!(outs[0].height, 7);
    assert_eq!(outs[0].value.into_u64(), 5_000);
    let op = OutPoint { txid: txid(4), n: 2 };
    assert!(outs[0].outpoint.same_as(&op));
    let outs = store.get_unspent_transparent_outputs(&addr, 10, &[op]).unwrap();
    assert!(outs.is_empty());
    let outs = store.get_unspent_transparent_outputs(&addr, 6, &[]).unwrap();
    assert!(outs.is_empty());
}

#[test]
fn unconfirmed_transparent_output_is_not_found() {
    let mut rec = record(txid(4), ConfirmationStatus::Unconfirmed);
    rec.transparent_outputs.push(output(0, 5_000));
    let store = store_of(vec![rec]);
    let op = OutPoint { txid: txid(4), n: 0 };
    assert!(store.get_unspent_transparent_output(&op).unwrap().is_none());
    let outs = store
        .get_unspent_transparent_outputs(&TransparentAddress::ScriptHash([0; 20]), u32::MAX, &[])
        .unwrap();
    assert!(outs.is_empty());
    assert!(store.get_unspent_transparent_output(&OutPoint { txid: txid(5), n: 0 }).unwrap().is_none());
}

#[test]
fn transparent_value_out_of_range_fails() {
    let mut rec = record(txid(4), ConfirmationStatus::Confirmed(1));
    rec.transparent_outputs.push(output(0, 5_000));
    rec.transparent_outputs.push(output(1, MAX_MONEY + 1));
    let store = store_of(vec![rec]);
    let addr = TransparentAddress::ScriptHash([0; 20]);
    assert_eq!(store.get_unspent_transparent_outputs(&addr, 1, &[]).unwrap_err(), InputSourceError::AmountRange);
    let bad = OutPoint { txid: txid(4), n: 1 };
    assert_eq!(store.get_unspent_transparent_output(&bad).unwrap_err(), InputSourceError::AmountRange);
    let outs = store.get_unspent_transparent_outputs(&addr, 1, &[bad]).unwrap();
    assert_eq!(outs.len(), 1);
}

#[test]
fn bulk_outputs_found_again_one_by_one() {
    let mut a = record(txid(1), ConfirmationStatus::Confirmed(3));
    a.transparent_outputs.push(output(5, 1_000));
    a.transparent_outputs.push(output(1, 2_000));
    let mut b = record(txid(2), ConfirmationStatus::Confirmed(8));
    b.transparent_outputs.push(output(0, 3_000));
    let mut c = record(txid(3), ConfirmationStatus::Confirmed(20));
    c.transparent_outputs.push(output(0, 4_000));
    let store = store_of(vec![a, b, c]);
    let outs = store
        .get_unspent_transparent_outputs(&TransparentAddress::ScriptHash([0; 20]), 10, &[])
        .unwrap();
    assert_eq!(outs.len(), 3);
    for w in &outs {
        let single = store.get_unspent_transparent_output(&w.outpoint).unwrap().unwrap();
        assert!(single.outpoint.same_as(&w.outpoint));
        assert_eq!(single.value.into_u64(), w.value.into_u64());
        assert_eq!(single.script, w.script);
        assert_eq!(single.height, w.height);
    }
}

#[test]
fn amount_range_and_subtraction() {
    assert!(Amount::from_u64(MAX_MONEY).is_some());
    assert!(Amount::from_u64(MAX_MONEY + 1).is_none());
    assert_eq!(Amount::zero().into_u64(), 0);
    assert_eq!(amount(30).checked_sub(&amount(12)).unwrap().into_u64(), 18);
    assert!(amount(12).checked_sub(&amount(30)).is_none());
}

#[test]
fn inserting_same_transaction_replaces_record() {
    let mut first = record(txid(1), ConfirmationStatus::Confirmed(1));
    first.sapling_notes.push(note(10));
    let mut second = record(txid(1), ConfirmationStatus::Confirmed(2));
    second.sapling_notes.push(note(20));
    let store = store_of(vec![first, second, record(txid(2), ConfirmationStatus::Unconfirmed)]);
    assert_eq!(store.records.len(), 2);
    assert_eq!(store.get_spendable_note(&txid(1), ShieldedProtocol::Sapling, 0).unwrap().value, 20);
}
