use wallet_index::query::{
    checked_balance, get_balance, list_unspent, Unspent, UnspentOutcome, Utxo,
};
use wallet_index::status::TxStatus;
use wallet_index::types::{BlockHash, Hash256, Txid};

fn block(n: u128) -> BlockHash {
    BlockHash(Hash256 { hi: 0, lo: n })
}

fn unspent(n: u128, confirmations: i64, amount: u64) -> Unspent {
    Unspent { txid: Txid(Hash256 { hi: 0, lo: n }), vout: n as u32, confirmations, amount }
}

fn utxo(n: u128, status: TxStatus, value: u64) -> Utxo {
    Utxo { status, txid: Txid(Hash256 { hi: 0, lo: n }), vout: n as u32, value }
}

#[test]
fn utxo_from_unspent_classifies_under_the_tip() {
    assert_eq!(
        Utxo::from_unspent(unspent(3, 6, 700), 100),
        utxo(3, TxStatus::Confirmed(95), 700)
    );
    assert_eq!(Utxo::from_unspent(unspent(4, 0, 1), 100), utxo(4, TxStatus::Unconfirmed, 1));
    assert_eq!(Utxo::from_unspent(unspent(5, -1, 1), 100), utxo(5, TxStatus::Conflicted, 1));
}

#[test]
fn list_unspent_asks_again_when_the_tip_moved() {
    let listed = vec![unspent(1, 1, 10)];
    assert!(matches!(
        list_unspent(&listed, 100, &block(1), &block(2)),
        UnspentOutcome::Retry
    ));
}

#[test]
fn list_unspent_leaves_out_conflicts_and_keeps_the_order() {
    let listed = vec![
        unspent(1, 3, 10),
        unspent(2, -1, 20),
        unspent(3, 0, 30),
        unspent(4, 101, 40),
        unspent(5, -7, 50),
    ];
    match list_unspent(&listed, 100, &block(1), &block(1)) {
        UnspentOutcome::Done(utxos) => assert_eq!(
            utxos,
            vec![
                utxo(1, TxStatus::Confirmed(98), 10),
                utxo(3, TxStatus::Unconfirmed, 30),
                utxo(4, TxStatus::Confirmed(0), 40),
            ]
        ),
        UnspentOutcome::Retry => panic!("the tip did not move"),
    }
    match list_unspent(&vec![], 100, &block(1), &block(1)) {
        UnspentOutcome::Done(utxos) => assert!(utxos.is_empty()),
        UnspentOutcome::Retry => panic!("the tip did not move"),
    }
}

#[test]
fn balance_sums_confirmed_and_unconfirmed_apart() {
    let utxos = vec![
        utxo(1, TxStatus::Confirmed(5), 5000),
        utxo(2, TxStatus::Unconfirmed, 300),
        utxo(3, TxStatus::Confirmed(9), 1),
        utxo(4, TxStatus::Conflicted, 77_000),
        utxo(5, TxStatus::Unconfirmed, 20),
    ];
    assert_eq!(get_balance(&utxos), (5001, 320));
    assert_eq!(checked_balance(&utxos), Some((5001, 320)));
    assert_eq!(get_balance(&vec![]), (0, 0));
}

#[test]
fn checked_balance_refuses_a_sum_beyond_64_bits() {
    let confirmed = vec![
        utxo(1, TxStatus::Confirmed(5), u64::MAX),
        utxo(2, TxStatus::Confirmed(6), 1),
    ];
    assert_eq!(checked_balance(&confirmed), None);
    let unconfirmed = vec![
        utxo(1, TxStatus::Unconfirmed, u64::MAX),
        utxo(2, TxStatus::Unconfirmed, 1),
    ];
    assert_eq!(checked_balance(&unconfirmed), None);
    let apart = vec![
        utxo(1, TxStatus::Confirmed(5), u64::MAX),
        utxo(2, TxStatus::Unconfirmed, u64::MAX),
        utxo(3, TxStatus::Conflicted, u64::MAX),
    ];
    assert_eq!(checked_balance(&apart), Some((u64::MAX, u64::MAX)));
}
