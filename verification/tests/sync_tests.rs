use wallet_index::history::HistoryEntry;
use wallet_index::status::TxStatus;
use wallet_index::store::MemoryStore;
use wallet_index::sync::{PageOutcome, Retries, SyncCursor, TxDetail, TxRecord, TxReport};
use wallet_index::types::{Address, BlockHash, Hash256, KeyOrigin, ScriptHash, Txid};

fn tip(n: u128) -> BlockHash {
    BlockHash(Hash256 { hi: 0, lo: n })
}

fn row(n: u128, name: &str, confirmations: i64) -> TxRecord {
    TxRecord {
        txid: Txid(Hash256 { hi: 0, lo: n }),
        address: Address::new(String::from(name), name.as_bytes().to_vec()),
        origin: KeyOrigin::Standalone,
        eligible: true,
        confirmations,
        vout: 0,
        amount: 1000,
    }
}

fn rows(from: u128, count: u128) -> Vec<TxRecord> {
    (from..from + count).map(|n| row(n, "A1", 1)).collect()
}

fn applied(outcome: PageOutcome) -> (Vec<u128>, bool) {
    match outcome {
        PageOutcome::Apply { rows, more } => (rows.iter().map(|r| r.txid.0.lo).collect(), more),
        PageOutcome::Restart => panic!("the walk started over"),
    }
}

#[test]
fn first_page_is_asked_from_the_start() {
    let cursor = SyncCursor::start(25, 0, 100, tip(1));
    assert_eq!(cursor.per_page(), 25);
    assert_eq!(cursor.start_index(), 0);
    assert_eq!(cursor.tip_height(), 100);
    assert!(cursor.can_grow());
}

#[test]
fn short_first_page_ends_the_walk() {
    let mut cursor = SyncCursor::start(25, 0, 100, tip(1));
    let (ids, more) = applied(cursor.on_page(rows(0, 10), &tip(1)));
    assert_eq!(ids, (0..10).collect::<Vec<u128>>());
    assert!(!more);
    assert_eq!(cursor.per_page(), 25);
    assert_eq!(cursor.start_index(), 0);
}

#[test]
fn empty_first_page_ends_the_walk() {
    let mut cursor = SyncCursor::start(25, 0, 100, tip(1));
    let (ids, more) = applied(cursor.on_page(vec![], &tip(1)));
    assert!(ids.is_empty());
    assert!(!more);
}

#[test]
fn full_page_doubles_the_size_and_overlaps_by_one_row() {
    let mut cursor = SyncCursor::start(25, 0, 100, tip(1));
    let (ids, more) = applied(cursor.on_page(rows(0, 25), &tip(1)));
    assert_eq!(ids.len(), 25);
    assert!(more);
    assert_eq!(cursor.per_page(), 50);
    assert_eq!(cursor.start_index(), 24);
    // The next page ends with the row that the last one ended with.
    let mut page = rows(100, 49);
    page.push(row(24, "A1", 1));
    let (ids, more) = applied(cursor.on_page(page, &tip(1)));
    assert_eq!(ids, (100..149).collect::<Vec<u128>>());
    assert!(more);
    assert_eq!(cursor.per_page(), 100);
    assert_eq!(cursor.start_index(), 73);
    let mut page = rows(200, 30);
    page.push(row(148, "A1", 1));
    let (ids, more) = applied(cursor.on_page(page, &tip(1)));
    assert_eq!(ids, (200..230).collect::<Vec<u128>>());
    assert!(!more);
    assert_eq!(cursor.per_page(), 100);
    assert_eq!(cursor.start_index(), 73);
}

#[test]
fn moved_tip_before_the_second_page_starts_the_walk_over() {
    let mut store = MemoryStore::new();
    let mut cursor = SyncCursor::start(25, 0, 100, tip(1));
    let page1 = rows(0, 25);
    let outcome = cursor.on_page(page1, &tip(1));
    let first = match outcome {
        PageOutcome::Apply { rows, more } => {
            assert!(more);
            rows
        }
        PageOutcome::Restart => panic!("the tip did not move"),
    };
    store.process_chunk(&first, cursor.tip_height());
    let after_first = store.get_history_since(0);
    assert_eq!(after_first.len(), 25);
    let mut page2 = rows(100, 49);
    page2.push(row(24, "A1", 1));
    assert!(matches!(cursor.on_page(page2, &tip(2)), PageOutcome::Restart));
    // Nothing of the second page was applied, and the walk stands where it
    // stood; the new walk asks for as many rows as this one had come to.
    assert_eq!(store.get_history_since(0), after_first);
    assert_eq!(cursor.per_page(), 50);
    assert_eq!(cursor.start_index(), 24);
    let mut again = SyncCursor::start(cursor.per_page(), 0, 101, tip(2));
    assert_eq!(again.start_index(), 0);
    // Under the new tip the same rows stand one block higher: applying
    // them again moves each entry and adds none.
    let (ids, more) = applied(again.on_page(rows(0, 25), &tip(2)));
    assert_eq!(ids.len(), 25);
    assert!(!more);
    store.process_chunk(&rows(0, 25), again.tip_height());
    let history = store.get_history_since(0);
    assert_eq!(history.len(), 25);
    assert!(history.iter().all(|e| e.status == TxStatus::Confirmed(101)));
    assert_eq!(store.stats().transaction_count, 25);
}

#[test]
fn moved_tip_on_the_first_page_starts_over_at_once() {
    let mut cursor = SyncCursor::start(25, 0, 100, tip(1));
    assert!(matches!(cursor.on_page(rows(0, 25), &tip(9)), PageOutcome::Restart));
    assert_eq!(cursor.per_page(), 25);
    assert_eq!(cursor.start_index(), 0);
}

#[test]
fn broken_overlap_starts_the_walk_over() {
    let mut cursor = SyncCursor::start(2, 0, 100, tip(1));
    applied(cursor.on_page(rows(0, 2), &tip(1)));
    let mut other_txid = rows(10, 3);
    other_txid.push(row(5, "A1", 1));
    assert!(matches!(cursor.on_page(other_txid, &tip(1)), PageOutcome::Restart));
    let mut other_address = rows(10, 3);
    other_address.push(row(1, "A2", 1));
    assert!(matches!(cursor.on_page(other_address, &tip(1)), PageOutcome::Restart));
    assert!(matches!(cursor.on_page(vec![], &tip(1)), PageOutcome::Restart));
    assert_eq!(cursor.per_page(), 4);
    assert_eq!(cursor.start_index(), 1);
    let mut good = rows(10, 3);
    good.push(row(1, "A1", 1));
    let (ids, more) = applied(cursor.on_page(good, &tip(1)));
    assert_eq!(ids, vec![10, 11, 12]);
    assert!(more);
}

#[test]
fn page_of_the_repeated_row_alone_applies_nothing() {
    let mut cursor = SyncCursor::start(2, 0, 100, tip(1));
    applied(cursor.on_page(rows(0, 2), &tip(1)));
    let (ids, more) = applied(cursor.on_page(vec![row(1, "A1", 1)], &tip(1)));
    assert!(ids.is_empty());
    assert!(!more);
}

#[test]
fn row_below_the_floor_ends_the_walk() {
    // Tip 100, floor 90: eleven confirmations stand for height 90, twelve
    // for height 89.
    let mut cursor = SyncCursor::start(2, 90, 100, tip(1));
    let (_, more) = applied(cursor.on_page(vec![row(0, "A1", 3), row(1, "A1", 11)], &tip(1)));
    assert!(more);
    let mut cursor = SyncCursor::start(2, 90, 100, tip(1));
    let (ids, more) = applied(cursor.on_page(vec![row(0, "A1", 3), row(1, "A1", 12)], &tip(1)));
    assert_eq!(ids, vec![0, 1]);
    assert!(!more);
    // Only the last row to apply counts, and the mempool is never below.
    let mut cursor = SyncCursor::start(2, 90, 100, tip(1));
    let (_, more) = applied(cursor.on_page(vec![row(0, "A1", 50), row(1, "A1", 0)], &tip(1)));
    assert!(more);
}

#[test]
fn can_grow_stops_at_half_the_range() {
    assert!(SyncCursor::start(usize::MAX / 2, 0, 1, tip(1)).can_grow());
    assert!(!SyncCursor::start(usize::MAX / 2 + 1, 0, 1, tip(1)).can_grow());
}

#[test]
fn process_ltx_indexes_a_viable_row() {
    let mut store = MemoryStore::new();
    let r = row(1, "A1", 0);
    let sh = ScriptHash::from_script(b"A1");
    assert!(store.process_ltx(&r, 100));
    assert_eq!(store.get_tx_status(&r.txid), Some(TxStatus::Unconfirmed));
    assert_eq!(
        store.get_history(&sh),
        Some(vec![HistoryEntry::new(r.txid, TxStatus::Unconfirmed)])
    );
    assert_eq!(store.get_script_info(&sh).unwrap().address.text, "A1");
    // A second row to the same address is no first use.
    assert!(!store.process_ltx(&row(2, "A1", 3), 100));
    assert_eq!(store.get_tx_status(&row(2, "A1", 3).txid), Some(TxStatus::Confirmed(98)));
    assert_eq!(store.get_tx_count(&sh), 2);
}

#[test]
fn process_ltx_skips_rows_that_are_not_eligible() {
    let mut store = MemoryStore::new();
    let mut r = row(1, "A1", 0);
    r.eligible = false;
    assert!(!store.process_ltx(&r, 100));
    assert_eq!(store.stats().transaction_count, 0);
    assert_eq!(store.stats().scripthash_count, 0);
    // Not even a conflict is acted upon.
    store.process_ltx(&row(1, "A1", 0), 100);
    let mut conflict = row(1, "A1", -1);
    conflict.eligible = false;
    store.process_ltx(&conflict, 100);
    assert_eq!(store.get_tx_status(&r.txid), Some(TxStatus::Unconfirmed));
}

#[test]
fn process_ltx_purges_on_conflict() {
    let mut store = MemoryStore::new();
    let sh = ScriptHash::from_script(b"A1");
    store.process_ltx(&row(1, "A1", 0), 100);
    assert!(!store.process_ltx(&row(1, "A1", -1), 100));
    assert_eq!(store.get_tx_status(&row(1, "A1", 0).txid), None);
    assert_eq!(store.get_history(&sh), None);
    // A conflict of an unknown transaction changes nothing.
    assert!(!store.process_ltx(&row(7, "A1", -2), 100));
    assert_eq!(store.stats().transaction_count, 0);
}

#[test]
fn applying_a_row_twice_is_applying_it_once() {
    let mut once = MemoryStore::new();
    let mut twice = MemoryStore::new();
    for r in [row(1, "A1", 0), row(2, "A2", 4), row(1, "A1", -1), row(3, "A1", 1)] {
        once.process_ltx(&r, 100);
        twice.process_ltx(&r, 100);
        twice.process_ltx(&r, 100);
        assert_eq!(once.get_history_since(0), twice.get_history_since(0));
        assert_eq!(once.stats(), twice.stats());
    }
}

#[test]
fn process_chunk_reports_first_uses_in_feed_order() {
    let mut store = MemoryStore::new();
    let chunk = vec![
        row(1, "A1", 2),
        row(2, "A2", 0),
        row(3, "A1", 1),
        row(2, "A2", -1),
        row(4, "A2", 5),
    ];
    let first_uses = store.process_chunk(&chunk, 50);
    // The conflict emptied the history of A2, so that its next row is a
    // first use again.
    assert_eq!(first_uses, vec![true, true, false, false, true]);
    assert_eq!(store.stats().transaction_count, 3);
    assert_eq!(
        store.get_history(&ScriptHash::from_script(b"A1")),
        Some(vec![
            HistoryEntry::new(chunk[0].txid, TxStatus::Confirmed(49)),
            HistoryEntry::new(chunk[2].txid, TxStatus::Confirmed(50)),
        ])
    );
    assert_eq!(
        store.get_history(&ScriptHash::from_script(b"A2")),
        Some(vec![HistoryEntry::new(chunk[4].txid, TxStatus::Confirmed(46))])
    );
    assert_eq!(store.process_chunk(&vec![], 50), vec![]);
}

fn detail(name: &str, eligible: bool, vout: u32) -> TxDetail {
    TxDetail {
        address: Address::new(String::from(name), name.as_bytes().to_vec()),
        origin: KeyOrigin::Derived(1, vout),
        eligible,
        vout,
        amount: 10,
    }
}

#[test]
fn process_gtx_indexes_each_eligible_detail() {
    let mut store = MemoryStore::new();
    let txid = Txid(Hash256 { hi: 0, lo: 1 });
    let report = TxReport {
        txid,
        confirmations: 2,
        details: vec![
            detail("A1", true, 0),
            detail("A2", false, 1),
            detail("A3", true, 2),
            detail("A1", true, 3),
        ],
    };
    assert_eq!(store.process_gtx(&report, 10), vec![true, false, true, false]);
    assert_eq!(store.get_tx_status(&txid), Some(TxStatus::Confirmed(9)));
    assert!(store.has_history(&ScriptHash::from_script(b"A1")));
    assert!(!store.has_history(&ScriptHash::from_script(b"A2")));
    assert!(store.has_history(&ScriptHash::from_script(b"A3")));
    assert_eq!(store.get_tx_entry(&txid).unwrap().funding.len(), 3);
    assert_eq!(
        store.get_script_info(&ScriptHash::from_script(b"A3")).unwrap().origin,
        KeyOrigin::Derived(1, 2)
    );
    // Told again one block later, the transaction moves and nothing is new.
    assert_eq!(store.process_gtx(&report, 11), vec![false, false, false, false]);
    assert_eq!(store.get_tx_status(&txid), Some(TxStatus::Confirmed(10)));
}

#[test]
fn process_gtx_purges_on_conflict() {
    let mut store = MemoryStore::new();
    let txid = Txid(Hash256 { hi: 0, lo: 1 });
    let seen = TxReport { txid, confirmations: 0, details: vec![detail("A1", true, 0)] };
    store.process_gtx(&seen, 10);
    assert_eq!(store.get_tx_status(&txid), Some(TxStatus::Unconfirmed));
    let gone = TxReport { txid, confirmations: -1, details: vec![detail("A1", true, 0)] };
    assert_eq!(store.process_gtx(&gone, 10), vec![]);
    assert_eq!(store.get_tx_status(&txid), None);
    assert!(!store.has_history(&ScriptHash::from_script(b"A1")));
}

#[test]
fn retries_are_granted_up_to_the_limit() {
    let mut retries = Retries::new(2);
    assert!(retries.take());
    assert!(retries.take());
    assert!(!retries.take());
    assert!(!retries.take());
    assert!(!Retries::new(0).take());
}

#[test]
fn index_address_history_watches_the_script_on_the_way() {
    let mut store = MemoryStore::default();
    let txid = Txid(Hash256 { hi: 0, lo: 1 });
    let a1 = Address::new(String::from("A1"), b"A1".to_vec());
    let sh = ScriptHash::from_address(&a1);
    store.upsert_tx(&txid, TxStatus::Confirmed(4));
    assert!(store.index_address_history(&txid, &a1, &KeyOrigin::Derived(5, 0), 0, 700));
    assert!(!store.index_address_history(&txid, &a1, &KeyOrigin::Standalone, 1, 800));
    assert_eq!(
        store.get_history(&sh),
        Some(vec![HistoryEntry::new(txid, TxStatus::Confirmed(4))])
    );
    // The script keeps the origin that it was first seen with.
    assert_eq!(store.get_script_info(&sh).unwrap().origin, KeyOrigin::Derived(5, 0));
    let funding = &store.get_tx_entry(&txid).unwrap().funding;
    assert_eq!(funding.len(), 2);
    assert_eq!(funding.get(&0).unwrap().1, 700);
    assert_eq!(funding.get(&1).unwrap().1, 800);
}
