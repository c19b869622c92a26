//! Answers that are computed from what the node lists as unspent.

use crate::status::{classify, TxStatus};
use crate::types::{BlockHash, Txid};
use vstd::prelude::*;

verus! {

/// One output that the node lists as unspent.
#[derive(Clone, Copy, Debug, PartialEq, Eq, Structural)]
pub struct Unspent {
    pub txid: Txid,
    pub vout: u32,
    /// As the node counts them: zero in the mempool, negative in conflict.
    pub confirmations: i64,
    /// In satoshis.
    pub amount: u64,
}

/// An unspent output of the wallet.
#[derive(Clone, Copy, Debug, PartialEq, Eq, Structural)]
pub struct Utxo {
    pub status: TxStatus,
    pub txid: Txid,
    pub vout: u32,
    pub value: u64,
}

impl Utxo {
    /// The output that a listing at tip height `tip_height` stands for.
    pub open spec fn of_unspent(unspent: Unspent, tip_height: u32) -> Utxo {
        Utxo {
            status: classify(unspent.confirmations as int, tip_height as int),
            txid: unspent.txid,
            vout: unspent.vout,
            value: unspent.amount,
        }
    }

    /// Classifies a listed output under the tip height captured with it.
    pub fn from_unspent(unspent: Unspent, tip_height: u32) -> (utxo: Utxo)
        requires
            unspent.confirmations <= tip_height + 1,
        ensures
            utxo == Self::of_unspent(unspent, tip_height),
    {
        Utxo {
            status: TxStatus::new(unspent.confirmations, tip_height),
            txid: unspent.txid,
            vout: unspent.vout,
            value: unspent.amount,
        }
    }
}

/// The viable ones of the listed outputs, in the order of the listing.
pub open spec fn viable_utxos(unspents: Seq<Unspent>, tip_height: u32) -> Seq<Utxo>
    decreases unspents.len(),
{
    if unspents.len() == 0 {
        Seq::empty()
    } else {
        let before = viable_utxos(unspents.drop_last(), tip_height);
        let utxo = Utxo::of_unspent(unspents.last(), tip_height);
        if utxo.status.is_viable() {
            before.push(utxo)
        } else {
            before
        }
    }
}

/// What a listing of unspent outputs leads to.
#[derive(Debug)]
pub enum UnspentOutcome {
    /// The tip moved while the node answered: ask again.
    Retry,
    /// The unspent outputs of the script.
    Done(Vec<Utxo>),
}

/// Turns what the node listed as unspent into the wallet's unspent outputs.
///
/// `tip_height` and `tip_hash` were captured before the node was asked,
/// `best_block` after it answered. If the two blocks differ, the heights
/// that the confirmation counts stand for are unknown, and the listing is
/// to be asked for again. If not, each listed output is classified under
/// `tip_height`, and those in conflict are left out.
pub fn list_unspent(
    unspents: &Vec<Unspent>,
    tip_height: u32,
    tip_hash: &BlockHash,
    best_block: &BlockHash,
) -> (outcome: UnspentOutcome)
    requires
        forall|i: int| 0 <= i < unspents@.len() ==> (#[trigger] unspents@[i]).confirmations
            <= tip_height + 1,
    ensures
        *tip_hash != *best_block ==> outcome is Retry,
        *tip_hash == *best_block ==> (outcome matches UnspentOutcome::Done(utxos) && utxos@
            == viable_utxos(unspents@, tip_height)),
{
    if *tip_hash != *best_block {
        return UnspentOutcome::Retry;
    }
    let mut utxos: Vec<Utxo> = Vec::new();
    let mut i: usize = 0;
    proof {
        assert(unspents@.take(0) =~= Seq::<Unspent>::empty());
    }
    while i < unspents.len()
        invariant
            i <= unspents.len(),
            forall|k: int| 0 <= k < unspents@.len() ==> (#[trigger] unspents@[k]).confirmations
                <= tip_height + 1,
            utxos@ == viable_utxos(unspents@.take(i as int), tip_height),
        decreases unspents.len() - i,
    {
        let utxo = Utxo::from_unspent(unspents[i], tip_height);
        proof {
            assert(unspents@.take(i + 1).drop_last() =~= unspents@.take(i as int));
            assert(unspents@.take(i + 1).last() == unspents@[i as int]);
        }
        if utxo.status.is_viable() {
            utxos.push(utxo);
        }
        i += 1;
    }
    proof {
        assert(unspents@.take(unspents@.len() as int) =~= unspents@);
    }
    UnspentOutcome::Done(utxos)
}

/// Sum of the values of the confirmed outputs.
pub open spec fn confirmed_sum(utxos: Seq<Utxo>) -> nat
    decreases utxos.len(),
{
    if utxos.len() == 0 {
        0
    } else {
        confirmed_sum(utxos.drop_last()) + if utxos.last().status is Confirmed {
            utxos.last().value as nat
        } else {
            0
        }
    }
}

/// Sum of the values of the outputs that wait in the mempool.
pub open spec fn unconfirmed_sum(utxos: Seq<Utxo>) -> nat
    decreases utxos.len(),
{
    if utxos.len() == 0 {
        0
    } else {
        unconfirmed_sum(utxos.drop_last()) + if utxos.last().status is Unconfirmed {
            utxos.last().value as nat
        } else {
            0
        }
    }
}

/// The balance as a pair of confirmed and unconfirmed satoshis, where both
/// sums fit in 64 bits, and `None` where one does not. Outputs in conflict
/// count for neither.
pub fn checked_balance(utxos: &Vec<Utxo>) -> (balance: Option<(u64, u64)>)
    ensures
        balance == (if confirmed_sum(utxos@) <= u64::MAX && unconfirmed_sum(utxos@) <= u64::MAX {
            Some((confirmed_sum(utxos@) as u64, unconfirmed_sum(utxos@) as u64))
        } else {
            None
        }),
{
    let mut confirmed: u128 = 0;
    let mut unconfirmed: u128 = 0;
    let mut i: usize = 0;
    proof {
        assert(utxos@.take(0) =~= Seq::<Utxo>::empty());
    }
    while i < utxos.len()
        invariant
            i <= utxos.len(),
            confirmed == confirmed_sum(utxos@.take(i as int)),
            unconfirmed == unconfirmed_sum(utxos@.take(i as int)),
            confirmed <= i * u64::MAX,
            unconfirmed <= i * u64::MAX,
        decreases utxos.len() - i,
    {
        let utxo = &utxos[i];
        proof {
            assert(utxos@.take(i + 1).drop_last() =~= utxos@.take(i as int));
            assert(utxos@.take(i + 1).last() == utxos@[i as int]);
            assert(i * u64::MAX + u64::MAX == (i + 1) * u64::MAX) by (nonlinear_arith);
            assert(i * u64::MAX <= usize::MAX * u64::MAX) by (nonlinear_arith)
                requires
                    i <= usize::MAX,
            ;
            assert(usize::MAX * u64::MAX <= u64::MAX * u64::MAX) by (nonlinear_arith)
                requires
                    usize::MAX <= u64::MAX,
            ;
        }
        if utxo.status.is_confirmed() {
            confirmed = confirmed + utxo.value as u128;
        } else if utxo.status.is_unconfirmed() {
            unconfirmed = unconfirmed + utxo.value as u128;
        }
        i += 1;
    }
    proof {
        assert(utxos@.take(utxos@.len() as int) =~= utxos@);
    }
    if confirmed <= u64::MAX as u128 && unconfirmed <= u64::MAX as u128 {
        Some((confirmed as u64, unconfirmed as u64))
    } else {
        None
    }
}

/// The balance as a pair: satoshis in confirmed outputs, satoshis in
/// outputs that wait in the mempool. Outputs in conflict count for neither.
pub fn get_balance(utxos: &Vec<Utxo>) -> (balance: (u64, u64))
    requires
        confirmed_sum(utxos@) <= u64::MAX,
        unconfirmed_sum(utxos@) <= u64::MAX,
    ensures
        balance.0 == confirmed_sum(utxos@),
        balance.1 == unconfirmed_sum(utxos@),
{
    checked_balance(utxos).unwrap()
}

} // verus!
