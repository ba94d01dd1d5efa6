use hydrant::db::Db;
use hydrant::db::DbError;
use hydrant::point::Point;
use hydrant::script::Era;
use hydrant::tx::Block;
use hydrant::tx::Tx;
use hydrant::tx::TxOutput;
use hydrant::tx::TxOutputPointer;
use hydrant::utxo::UtxoIndexer;
use hydrant::utxo::UtxoIndexerBuilder;

fn h32(byte: u8) -> hydrant::hash::Hash<32> {
    hydrant::hash::Hash::<32>::from_bytes(vec![byte; 32]).unwrap()
}

fn h28(byte: u8) -> hydrant::hash::Hash<28> {
    hydrant::hash::Hash::<28>::from_bytes(vec![byte; 28]).unwrap()
}

fn simple_output(addr: u8, lovelace: u64) -> TxOutput {
    TxOutput {
        address: vec![addr; 8],
        lovelace,
        assets: Vec::new(),
        datum_hash: None,
    }
}

fn simple_tx(hash_byte: u8, outputs: Vec<TxOutput>) -> Tx {
    Tx {
        hash: h32(hash_byte),
        inputs: Vec::new(),
        outputs,
        collateral: Vec::new(),
        collateral_return: None,
        reference_inputs: Vec::new(),
        mints: Vec::new(),
        scripts: Vec::new(),
        native_scripts: Vec::new(),
        valid: true,
    }
}

fn block_of(slot: u64, hash_byte: u8, number: u64, txs: Vec<Tx>) -> Block {
    Block {
        era: Era::Conway,
        hash: h32(hash_byte),
        number,
        slot,
        size: 0,
        txs,
        datums: Vec::new(),
    }
}

fn fresh_indexers() -> Vec<UtxoIndexer> {
    vec![UtxoIndexerBuilder::new().build()]
}

#[test]
fn db_test_max_rollback_blocks() {}

#[test]
fn mod_test_max_rollback_blocks() {}

#[test]
fn fresh_start_origin() {
    let mut db = Db::new(3);
    let mut ixs = fresh_indexers();
    assert!(db.tip() == Point::Origin);

    let t1 = simple_tx(0x11, vec![simple_output(0x01, 5)]);
    let t1_hash = t1.hash.clone();
    let block_a = block_of(10, 0xAA, 1, vec![t1]);
    db.roll_forward(&mut ixs, &block_a).unwrap();

    assert!(db.tip() == Point::Specific(10, h32(0xAA)));
    let body = db.get_volatile_block(&h32(0xAA)).expect("block body");
    assert_eq!(body.slot, 10);
    assert_eq!(body.number, 1);
    assert_eq!(body.txs.len(), 1);
    assert!(body.txs[0] == t1_hash);
    let stored = db.get_volatile_tx(&t1_hash).expect("kept tx");
    assert!(stored.hash == t1_hash);
    assert_eq!(stored.outputs.len(), 1);
    assert_eq!(stored.outputs[0].lovelace, 5);
}

#[test]
fn two_block_roll_back() {
    let mut db = Db::new(3);
    let mut ixs = fresh_indexers();
    let t1 = simple_tx(0x11, vec![simple_output(0x01, 5)]);
    let block_a = block_of(10, 0xAA, 1, vec![t1]);
    db.roll_forward(&mut ixs, &block_a).unwrap();

    let t2 = simple_tx(0x22, vec![simple_output(0x02, 7)]);
    let t2_hash = t2.hash.clone();
    let block_b = block_of(11, 0xBB, 2, vec![t2]);
    db.roll_forward(&mut ixs, &block_b).unwrap();
    assert!(db.tip() == Point::Specific(11, h32(0xBB)));

    db.roll_backward(&mut ixs, &Point::Specific(10, h32(0xAA))).unwrap();
    assert!(db.tip() == Point::Specific(10, h32(0xAA)));
    assert_eq!(db.slot_entries().len(), 1);
    assert_eq!(db.slot_entries()[0].0, 10);
    assert!(db.slot_entries()[0].1 == h32(0xAA));
    assert!(db.get_volatile_block(&h32(0xBB)).is_none());
    assert!(db.get_volatile_tx(&t2_hash).is_none());
    assert!(db.get_volatile_block(&h32(0xAA)).is_some());
}

#[test]
fn invalid_tx_spends_collateral() {
    let mut db = Db::new(8);
    let mut ixs = fresh_indexers();

    // Block 1 produces two outputs that later serve as input I and
    // collateral C.
    let t1 = simple_tx(0x11, vec![simple_output(0x01, 5), simple_output(0x02, 7)]);
    let t1_hash = t1.hash.clone();
    let block_a = block_of(10, 0xAA, 1, vec![t1]);
    db.roll_forward(&mut ixs, &block_a).unwrap();
    assert_eq!(ixs[0].utxos().len(), 2);

    // Block 2 carries T3 with valid = false: inputs [I], collateral [C],
    // and a collateral return O'.
    let t3 = Tx {
        hash: h32(0x33),
        inputs: vec![TxOutputPointer::new(t1_hash.clone(), 0)],
        outputs: vec![simple_output(0x03, 100)],
        collateral: vec![TxOutputPointer::new(t1_hash.clone(), 1)],
        collateral_return: Some(simple_output(0x04, 6)),
        reference_inputs: Vec::new(),
        mints: Vec::new(),
        scripts: Vec::new(),
        native_scripts: Vec::new(),
        valid: false,
    };
    let block_c = block_of(11, 0xCC, 2, vec![t3]);
    db.roll_forward(&mut ixs, &block_c).unwrap();

    // I (index 0 of T1) stays; C (index 1 of T1) was consumed; the
    // declared outputs of the invalid transaction were not produced,
    // but its collateral return O' was.
    let mut held: Vec<(u64, u64)> = ixs[0]
        .utxos()
        .iter()
        .map(|(p, o)| (p.index, o.lovelace))
        .collect();
    held.sort();
    assert_eq!(held, vec![(0, 5), (0, 6)]);
    let returned = ixs[0]
        .utxo(&TxOutputPointer::new(h32(0x33), 0))
        .expect("collateral return held");
    assert_eq!(returned.lovelace, 6);

    // Rolling back restores C and leaves I untouched.
    db.roll_backward(&mut ixs, &Point::Specific(10, h32(0xAA))).unwrap();
    let mut held: Vec<(u64, u64)> = ixs[0]
        .utxos()
        .iter()
        .map(|(p, o)| (p.index, o.lovelace))
        .collect();
    held.sort();
    assert_eq!(held, vec![(0, 5), (1, 7)]);
}

#[test]
fn trim_past_retention() {
    let mut db = Db::new(3);
    let mut ixs = fresh_indexers();
    for slot in 1u64..=5 {
        let t = simple_tx(0x10 + slot as u8, vec![simple_output(slot as u8, slot)]);
        let block = block_of(slot, 0xA0 + slot as u8, slot, vec![t]);
        db.roll_forward(&mut ixs, &block).unwrap();
    }
    db.trim_volatile();

    assert_eq!(db.slot_entries().len(), 5);
    for slot in 1u64..=5 {
        let present = db.get_volatile_block(&h32(0xA0 + slot as u8)).is_some();
        assert_eq!(present, slot >= 3, "slot {slot}");
        let tx_present = db.get_volatile_tx(&h32(0x10 + slot as u8)).is_some();
        assert_eq!(tx_present, slot >= 3, "tx of slot {slot}");
    }
    assert!(db.tip() == Point::Specific(5, h32(0xA5)));
}

#[test]
fn indexer_set_change_rejected() {
    let mut db = Db::new(3);
    let mut ixs = fresh_indexers();
    let block_a = block_of(10, 0xAA, 1, vec![simple_tx(0x11, vec![simple_output(1, 1)])]);
    db.roll_forward(&mut ixs, &block_a).unwrap();

    // Reopening with a different recorded list: the next operation must
    // fail with the identity mismatch.
    db.indexer_ids = Some(vec!["different".to_string()]);
    let block_b = block_of(11, 0xBB, 2, vec![simple_tx(0x22, vec![simple_output(2, 2)])]);
    let err = db.roll_forward(&mut ixs, &block_b).unwrap_err();
    assert_eq!(
        err,
        DbError::IndexerIdsMismatch(vec!["different".to_string()], vec!["utxo".to_string()])
    );
    let err = db
        .roll_backward(&mut ixs, &Point::Specific(10, h32(0xAA)))
        .unwrap_err();
    assert_eq!(
        err,
        DbError::IndexerIdsMismatch(vec!["different".to_string()], vec!["utxo".to_string()])
    );
}

#[test]
fn rollback_past_tip_is_no_op() {
    let mut db = Db::new(3);
    let mut ixs = fresh_indexers();
    let block_a = block_of(10, 0xAA, 1, vec![simple_tx(0x11, vec![simple_output(1, 1)])]);
    db.roll_forward(&mut ixs, &block_a).unwrap();

    db.roll_backward(&mut ixs, &Point::Specific(10, h32(0xAA))).unwrap();
    assert!(db.tip() == Point::Specific(10, h32(0xAA)));
    db.roll_backward(&mut ixs, &Point::Specific(12, h32(0xDD))).unwrap();
    assert!(db.tip() == Point::Specific(10, h32(0xAA)));
    assert!(db.get_volatile_block(&h32(0xAA)).is_some());
}

#[test]
fn double_roll_forward_fails_deterministically() {
    let mut db = Db::new(3);
    let mut ixs = fresh_indexers();
    let block_a = block_of(10, 0xAA, 1, vec![simple_tx(0x11, vec![simple_output(1, 1)])]);
    db.roll_forward(&mut ixs, &block_a).unwrap();

    // The same block again: its slot no longer extends the chronology.
    let again = block_of(10, 0xAA, 1, vec![simple_tx(0x11, vec![simple_output(1, 1)])]);
    assert_eq!(db.roll_forward(&mut ixs, &again).unwrap_err(), DbError::NonMonotonicBlock);
    // And a deterministic repeat of the error:
    assert_eq!(db.roll_forward(&mut ixs, &again).unwrap_err(), DbError::NonMonotonicBlock);
    // A fresh slot with an already-seen hash is refused too.
    let reused_hash = block_of(12, 0xAA, 2, vec![simple_tx(0x22, vec![simple_output(2, 2)])]);
    assert_eq!(db.roll_forward(&mut ixs, &reused_hash).unwrap_err(), DbError::DuplicateBlock);
}

#[test]
fn rollback_to_origin_equals_clear() {
    let build = || {
        let mut db = Db::new(3);
        let mut ixs = fresh_indexers();
        for slot in 1u64..=3 {
            let t = simple_tx(0x10 + slot as u8, vec![simple_output(slot as u8, slot)]);
            let block = block_of(slot, 0xA0 + slot as u8, slot, vec![t]);
            db.roll_forward(&mut ixs, &block).unwrap();
        }
        (db, ixs)
    };
    let (mut db1, mut ixs1) = build();
    let (mut db2, mut ixs2) = build();

    db1.roll_backward(&mut ixs1, &Point::Origin).unwrap();
    db2.clear(&mut ixs2);

    assert!(db1.tip() == Point::Origin);
    assert!(db2.tip() == Point::Origin);
    assert_eq!(db1.slot_entries().len(), 0);
    assert_eq!(db2.slot_entries().len(), 0);
    assert!(db1.indexer_ids.is_none());
    assert!(db2.indexer_ids.is_none());
    assert_eq!(ixs1[0].utxos().len(), 0);
    assert_eq!(ixs2[0].utxos().len(), 0);
}

#[test]
fn rollback_past_retention_fails() {
    let mut db = Db::new(1);
    let mut ixs = fresh_indexers();
    for slot in 1u64..=3 {
        let t = simple_tx(0x10 + slot as u8, vec![simple_output(slot as u8, slot)]);
        let block = block_of(slot, 0xA0 + slot as u8, slot, vec![t]);
        db.roll_forward(&mut ixs, &block).unwrap();
    }
    db.trim_volatile();
    // Bodies of slots 1 and 2 are gone; rolling back to slot 1 needs
    // the body of slot 2.
    let err = db
        .roll_backward(&mut ixs, &Point::Specific(1, h32(0xA1)))
        .unwrap_err();
    assert_eq!(err, DbError::RolledBackTooFar(vec![0xA2; 32]));
}

#[test]
fn address_filter_skips_listed_address() {
    let mut db = Db::new(3);
    let mut ixs = vec![UtxoIndexerBuilder::new().address(vec![0x01; 8]).build()];
    let t1 = simple_tx(0x11, vec![simple_output(0x01, 5), simple_output(0x02, 7)]);
    let block_a = block_of(10, 0xAA, 1, vec![t1]);
    db.roll_forward(&mut ixs, &block_a).unwrap();
    let held: Vec<u64> = ixs[0].utxos().iter().map(|(_, o)| o.lovelace).collect();
    assert_eq!(held, vec![7]);
}

#[test]
fn asset_filter_keeps_matching_outputs_only() {
    let mut db = Db::new(3);
    let wanted = hydrant::asset::AssetId::new(h28(0x77), None);
    let mut ixs = vec![UtxoIndexerBuilder::new().asset(wanted).build()];

    let with_asset = TxOutput {
        address: vec![0x01; 8],
        lovelace: 5,
        assets: vec![hydrant::asset::Asset { policy: h28(0x77), name: vec![1, 2], quantity: 9 }],
        datum_hash: None,
    };
    let without_asset = simple_output(0x02, 7);
    let t1 = simple_tx(0x11, vec![with_asset, without_asset]);
    let block_a = block_of(10, 0xAA, 1, vec![t1]);
    db.roll_forward(&mut ixs, &block_a).unwrap();
    let held: Vec<u64> = ixs[0].utxos().iter().map(|(_, o)| o.lovelace).collect();
    assert_eq!(held, vec![5]);
}

#[test]
fn resize_crossing_threshold_plans_growth() {
    const GIB: u64 = 1073741824;
    // Plenty of free room: no resize.
    assert_eq!(hydrant::env::resize_plan(2 * GIB, 1000, 4096), None);
    // Free space under one gibibyte: grow by one gibibyte, page-aligned.
    let used_pages = (2 * GIB - GIB / 2) / 4096;
    let plan = hydrant::env::resize_plan(2 * GIB, used_pages, 4096).unwrap();
    assert!(plan >= 3 * GIB);
    assert_eq!(plan % 4096, 0);
    // A degenerate page size asks for nothing.
    assert_eq!(hydrant::env::resize_plan(2 * GIB, 0, 0), None);
}

#[test]
fn pipeline_flushes_at_bound_and_tip() {
    let mut p = hydrant::sync::Pipeline::new();
    assert!(p.flush().is_none());

    // Buffer two headers, then a header at the remote tip forces a
    // flush of all three in order.
    assert!(p.on_roll_forward(5, h32(0x01), false).is_none());
    assert!(p.on_roll_forward(6, h32(0x02), false).is_none());
    let req = p.on_roll_forward(7, h32(0x03), true).expect("flush at tip");
    assert_eq!(req.start_slot, 5);
    assert_eq!(req.end_slot, 7);
    assert_eq!(req.expected, 3);
    assert!(req.start_hash == h32(0x01));
    assert!(req.end_hash == h32(0x03));

    // A rollback flushes whatever is pending.
    assert!(p.on_roll_backward().is_none());
    assert!(p.on_roll_forward(8, h32(0x04), false).is_none());
    let req = p.on_roll_backward().expect("flush before rollback");
    assert_eq!(req.expected, 1);

    // The fetched length must match what was asked.
    assert!(hydrant::sync::check_fetched_len(3, 3));
    assert!(!hydrant::sync::check_fetched_len(3, 2));
}

#[test]
fn writer_persist_decision() {
    // Near the tip: persist.
    assert!(hydrant::sync::writer_should_persist(1000, 500, 1));
    // Far from the tip, block number not round: no persist.
    assert!(!hydrant::sync::writer_should_persist(1000000, 500, 1));
    // Every ten-thousandth block persists wherever the tip is.
    assert!(hydrant::sync::writer_should_persist(1000000, 500, 20000));
}

#[test]
fn hex_rendering() {
    let h = h32(0xAB);
    assert_eq!(h.to_hex(), "ab".repeat(32));
    let h = hydrant::hash::Hash::<28>::from_bytes(vec![0x0F; 28]).unwrap();
    assert_eq!(h.to_hex(), "0f".repeat(28));
}

#[test]
fn pointer_range_sweeps_one_tx() {
    let (lo, hi) = TxOutputPointer::range(&h32(0x42));
    assert_eq!(lo.index, 0);
    assert_eq!(hi.index, u64::MAX);
    assert!(lo.hash == h32(0x42));
    assert!(hi.hash == h32(0x42));
}

#[test]
fn spent_and_unspent_switch_on_validity() {
    let mut tx = Tx {
        hash: h32(0x33),
        inputs: vec![TxOutputPointer::new(h32(0x11), 0)],
        outputs: vec![simple_output(0x03, 100)],
        collateral: vec![TxOutputPointer::new(h32(0x11), 1)],
        collateral_return: None,
        reference_inputs: Vec::new(),
        mints: Vec::new(),
        scripts: Vec::new(),
        native_scripts: Vec::new(),
        valid: true,
    };
    assert_eq!(tx.spent()[0].index, 0);
    assert_eq!(tx.unspent().len(), 1);
    assert_eq!(tx.unspent()[0].lovelace, 100);
    tx.valid = false;
    assert_eq!(tx.spent()[0].index, 1);
    assert_eq!(tx.unspent().len(), 0);
    tx.collateral_return = Some(simple_output(0x04, 6));
    assert_eq!(tx.unspent().len(), 1);
    assert_eq!(tx.unspent()[0].lovelace, 6);
}

#[test]
fn duplicate_tx_hash_rejected() {
    let mut db = Db::new(3);
    let mut ixs = fresh_indexers();
    let block_a = block_of(10, 0xAA, 1, vec![simple_tx(0x11, vec![simple_output(1, 1)])]);
    db.roll_forward(&mut ixs, &block_a).unwrap();

    // A later block carrying an already-kept transaction hash.
    let block_b = block_of(11, 0xBB, 2, vec![simple_tx(0x11, vec![simple_output(2, 2)])]);
    assert_eq!(db.roll_forward(&mut ixs, &block_b).unwrap_err(), DbError::DuplicateTx);

    // A block repeating a transaction hash within itself.
    let block_c = block_of(
        12,
        0xCC,
        3,
        vec![
            simple_tx(0x33, vec![simple_output(3, 3)]),
            simple_tx(0x33, vec![simple_output(4, 4)]),
        ],
    );
    assert_eq!(db.roll_forward(&mut ixs, &block_c).unwrap_err(), DbError::DuplicateTx);
}

#[test]
fn unresolvable_spend_corrupts_rollback() {
    let mut db = Db::new(8);
    let mut ixs = fresh_indexers();
    // The transaction spends a pointer the volatile store never held.
    let spender = Tx {
        hash: h32(0x55),
        inputs: vec![TxOutputPointer::new(h32(0x99), 0)],
        outputs: vec![simple_output(0x05, 50)],
        collateral: Vec::new(),
        collateral_return: None,
        reference_inputs: Vec::new(),
        mints: Vec::new(),
        scripts: Vec::new(),
        native_scripts: Vec::new(),
        valid: true,
    };
    let block_a = block_of(10, 0xAA, 1, vec![spender]);
    db.roll_forward(&mut ixs, &block_a).unwrap();

    // Undoing it cannot restore what was spent: the store has no record
    // of the pointer's transaction.
    let err = db
        .roll_backward(&mut ixs, &Point::Specific(5, h32(0x01)))
        .unwrap_err();
    assert_eq!(err, DbError::Corruption(vec![0x55; 32]));
}

#[test]
fn restore_reopens_at_persisted_tip() {
    // A run builds some chronology, is persisted as its spine, and a
    // restart restores the same tip with all bodies trimmed away.
    let mut db = Db::new(3);
    let mut ixs = fresh_indexers();
    for slot in 1u64..=3 {
        let t = simple_tx(0x10 + slot as u8, vec![simple_output(slot as u8, slot)]);
        let block = block_of(slot, 0xA0 + slot as u8, slot, vec![t]);
        db.roll_forward(&mut ixs, &block).unwrap();
    }
    let entries = db.slot_entries().clone();
    let ids = db.indexer_ids.clone();

    let reopened = Db::restore(3, entries, ids).unwrap();
    assert!(reopened.tip() == db.tip());
    assert_eq!(reopened.slot_entries().len(), 3);
    assert!(reopened.get_volatile_block(&h32(0xA3)).is_none());
    assert!(reopened.indexer_ids.is_some());

    // An unsorted or duplicated spine is refused as corruption.
    let bad = vec![(2u64, h32(0x01)), (1u64, h32(0x02))];
    assert!(matches!(Db::restore(3, bad, None), Err(DbError::Corruption(_))));
    let dup = vec![(1u64, h32(0x01)), (2u64, h32(0x01))];
    assert!(matches!(Db::restore(3, dup, None), Err(DbError::Corruption(_))));
}

#[test]
fn volatile_output_lookup_distinguishes_corruption() {
    let mut db = Db::new(3);
    let mut ixs = fresh_indexers();
    let t1 = simple_tx(0x11, vec![simple_output(0x01, 5)]);
    let block_a = block_of(10, 0xAA, 1, vec![t1]);
    db.roll_forward(&mut ixs, &block_a).unwrap();

    // Kept and in range: the output.
    let held = db
        .get_volatile_tx_output(&TxOutputPointer::new(h32(0x11), 0))
        .unwrap()
        .expect("output held");
    assert_eq!(held.lovelace, 5);
    // Unknown transaction: plain absence.
    assert!(db
        .get_volatile_tx_output(&TxOutputPointer::new(h32(0x99), 0))
        .unwrap()
        .is_none());
    // Kept transaction, index past its outputs: corruption, with the
    // pointer's transaction hash.
    let err = db
        .get_volatile_tx_output(&TxOutputPointer::new(h32(0x11), 7))
        .unwrap_err();
    assert_eq!(err, DbError::Corruption(vec![0x11; 32]));
}
