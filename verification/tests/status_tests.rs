use wallet_index::history::HistoryEntry;
use wallet_index::status::TxStatus;
use wallet_index::types::{Hash256, Txid};

fn status_txid(n: u128) -> Txid {
    Txid(Hash256 { hi: 0, lo: n })
}

#[test]
fn classify_positive_count_gives_block_height() {
    assert_eq!(TxStatus::new(1, 100), TxStatus::Confirmed(100));
    assert_eq!(TxStatus::new(6, 100), TxStatus::Confirmed(95));
    assert_eq!(TxStatus::new(101, 100), TxStatus::Confirmed(0));
    assert_eq!(TxStatus::new(1, 0), TxStatus::Confirmed(0));
    assert_eq!(TxStatus::new(1, u32::MAX), TxStatus::Confirmed(u32::MAX));
}

#[test]
fn classify_zero_is_unconfirmed_and_negative_is_conflicted() {
    assert_eq!(TxStatus::new(0, 100), TxStatus::Unconfirmed);
    assert_eq!(TxStatus::new(-1, 100), TxStatus::Conflicted);
    assert_eq!(TxStatus::new(i64::MIN, 0), TxStatus::Conflicted);
}

#[test]
fn classify_round_trip_on_sample_heights() {
    for tip in [0u32, 1, 7, 100, 699_999] {
        for count in 1..=(tip as i64 + 1).min(50) {
            match TxStatus::new(count, tip) {
                TxStatus::Confirmed(height) => {
                    assert_eq!(tip as i64 - height as i64 + 1, count)
                }
                other => panic!("unexpected status {:?}", other),
            }
        }
    }
}

#[test]
fn checked_new_refuses_counts_beyond_the_chain() {
    assert_eq!(TxStatus::checked_new(102, 100), None);
    assert_eq!(TxStatus::checked_new(5, 2), None);
    assert_eq!(TxStatus::checked_new(101, 100), Some(TxStatus::Confirmed(0)));
    assert_eq!(TxStatus::checked_new(0, 100), Some(TxStatus::Unconfirmed));
    assert_eq!(TxStatus::checked_new(-3, 100), Some(TxStatus::Conflicted));
}

#[test]
fn electrum_height_of_viable_statuses() {
    assert_eq!(TxStatus::Confirmed(42).electrum_height(), 42);
    assert_eq!(TxStatus::Confirmed(0).electrum_height(), 0);
    assert_eq!(TxStatus::Unconfirmed.electrum_height(), 0);
}

#[test]
fn status_predicates() {
    assert!(TxStatus::Confirmed(1).is_viable());
    assert!(TxStatus::Unconfirmed.is_viable());
    assert!(!TxStatus::Conflicted.is_viable());
    assert!(TxStatus::Confirmed(1).is_confirmed());
    assert!(!TxStatus::Unconfirmed.is_confirmed());
    assert!(!TxStatus::Conflicted.is_confirmed());
    assert!(TxStatus::Unconfirmed.is_unconfirmed());
    assert!(!TxStatus::Confirmed(1).is_unconfirmed());
    assert!(!TxStatus::Conflicted.is_unconfirmed());
}

#[test]
fn status_rank_values() {
    assert_eq!(TxStatus::Conflicted.rank(), 0);
    assert_eq!(TxStatus::Unconfirmed.rank(), 1);
    assert_eq!(TxStatus::Confirmed(0).rank(), 2);
    assert_eq!(TxStatus::Confirmed(u32::MAX).rank(), 0x1_0000_0001);
}

#[test]
fn status_order_is_conflicted_unconfirmed_confirmed_by_height() {
    assert!(TxStatus::Conflicted < TxStatus::Unconfirmed);
    assert!(TxStatus::Unconfirmed < TxStatus::Confirmed(0));
    assert!(TxStatus::Confirmed(5) < TxStatus::Confirmed(10));
    assert!(TxStatus::Confirmed(10) > TxStatus::Unconfirmed);
    assert!(TxStatus::Conflicted < TxStatus::Confirmed(0));
    assert!(!(TxStatus::Confirmed(5) < TxStatus::Confirmed(5)));
    assert_eq!(
        TxStatus::Confirmed(5).partial_cmp(&TxStatus::Confirmed(5)),
        Some(std::cmp::Ordering::Equal)
    );
    assert_eq!(
        TxStatus::Unconfirmed.cmp(&TxStatus::Confirmed(3)),
        std::cmp::Ordering::Less
    );
    let mut all = vec![
        TxStatus::Confirmed(10),
        TxStatus::Unconfirmed,
        TxStatus::Conflicted,
        TxStatus::Confirmed(5),
    ];
    all.sort();
    assert_eq!(
        all,
        vec![
            TxStatus::Conflicted,
            TxStatus::Unconfirmed,
            TxStatus::Confirmed(5),
            TxStatus::Confirmed(10),
        ]
    );
}

#[test]
fn entries_order_by_status_then_txid() {
    let a = HistoryEntry::new(status_txid(9), TxStatus::Unconfirmed);
    let b = HistoryEntry::new(status_txid(1), TxStatus::Confirmed(5));
    let c = HistoryEntry::new(status_txid(2), TxStatus::Confirmed(5));
    let d = HistoryEntry::new(Txid(Hash256 { hi: 1, lo: 0 }), TxStatus::Confirmed(5));
    assert!(a < b);
    assert!(b < c);
    assert!(c < d);
    assert!(a < d);
    assert!(!(b < b));
    assert_eq!(b.partial_cmp(&b), Some(std::cmp::Ordering::Equal));
    assert_eq!(c.partial_cmp(&b), Some(std::cmp::Ordering::Greater));
    assert_eq!(b.cmp(&c), std::cmp::Ordering::Less);
    assert_eq!(d.cmp(&a), std::cmp::Ordering::Greater);
}

#[test]
fn entry_key_round_trip() {
    let entries = [
        HistoryEntry::new(status_txid(3), TxStatus::Unconfirmed),
        HistoryEntry::new(status_txid(4), TxStatus::Confirmed(0)),
        HistoryEntry::new(
            Txid(Hash256 { hi: u128::MAX, lo: 77 }),
            TxStatus::Confirmed(u32::MAX),
        ),
        HistoryEntry::new(status_txid(5), TxStatus::Conflicted),
    ];
    for entry in entries {
        assert_eq!(HistoryEntry::from_key(entry.key()), entry);
    }
    assert_eq!(
        HistoryEntry::new(status_txid(3), TxStatus::Confirmed(7)).key(),
        (9, (0, 3))
    );
}
