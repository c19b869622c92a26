//! What holds of the index whatever is done with it, stated over its
//! mathematical value.

use crate::history::{ascending, HistoryEntry};
use crate::model::{lemma_purge_tx_consistent, lemma_upsert_tx_consistent, StoreView};
use crate::status::{classify, TxStatus};
use crate::sync::{lemma_index_address_history_consistent, TxDetail, TxRecord, TxReport};
use crate::types::{ScriptHash, Txid};
use vstd::prelude::*;

verus! {

/// The index after a run of `upsert_tx` calls on one transaction.
pub open spec fn upsert_all(v: StoreView, txid: Txid, statuses: Seq<TxStatus>) -> StoreView
    decreases statuses.len(),
{
    if statuses.len() == 0 {
        v
    } else {
        upsert_all(v, txid, statuses.drop_last()).upsert_tx(txid, statuses.last())
    }
}

/// After a run of `upsert_tx` calls on one transaction the index is
/// consistent and holds the transaction at the last status of the run.
pub proof fn lemma_upsert_all(v: StoreView, txid: Txid, statuses: Seq<TxStatus>)
    requires
        v.consistent(),
        forall|i: int| 0 <= i < statuses.len() ==> (#[trigger] statuses[i]).is_viable(),
    ensures
        upsert_all(v, txid, statuses).consistent(),
        statuses.len() > 0 ==> upsert_all(v, txid, statuses).transactions.contains_key(txid)
            && upsert_all(v, txid, statuses).transactions[txid].status == statuses.last(),
    decreases statuses.len(),
{
    if statuses.len() > 0 {
        lemma_upsert_all(v, txid, statuses.drop_last());
        lemma_upsert_tx_consistent(
            upsert_all(v, txid, statuses.drop_last()),
            txid,
            statuses.last(),
        );
    }
}

/// In any run of `upsert_tx` calls on one transaction, a call changes the
/// index exactly when its status differs from the status of the call
/// before it (for the first call: when the transaction is new or stored at
/// another status), and after every call the transaction is in the mempool
/// exactly when the status of that call is `Unconfirmed`.
pub proof fn law_upsert_run(v: StoreView, txid: Txid, statuses: Seq<TxStatus>, i: int)
    requires
        v.consistent(),
        forall|k: int| 0 <= k < statuses.len() ==> (#[trigger] statuses[k]).is_viable(),
        0 <= i < statuses.len(),
    ensures
        ({
            let before = upsert_all(v, txid, statuses.take(i));
            let after = upsert_all(v, txid, statuses.take(i + 1));
            &&& after == before.upsert_tx(txid, statuses[i])
            &&& after.consistent()
            &&& i > 0 ==> before.upsert_changes(txid, statuses[i]) == (statuses[i] != statuses[i
                - 1])
            &&& i == 0 ==> before.upsert_changes(txid, statuses[i]) == (
            !v.transactions.contains_key(txid) || v.transactions[txid].status != statuses[i])
            &&& !before.upsert_changes(txid, statuses[i]) ==> after == before
            &&& after.transactions.contains_key(txid)
            &&& after.transactions[txid].status == statuses[i]
            &&& after.mempool.contains_key(txid) == (statuses[i] is Unconfirmed)
        }),
{
    let head = statuses.take(i);
    let run = statuses.take(i + 1);
    assert(run.drop_last() =~= head);
    assert(run.last() == statuses[i]);
    lemma_upsert_all(v, txid, head);
    lemma_upsert_all(v, txid, run);
    if i > 0 {
        assert(head.last() == statuses[i - 1]);
    }
    let before = upsert_all(v, txid, head);
    let after = before.upsert_tx(txid, statuses[i]);
    assert(after.mempool.contains_key(txid) == (statuses[i] is Unconfirmed));
}

/// When a known transaction moves from one status to another, every
/// script that it touches has the entry at the old status replaced by the
/// entry at the new status, and no other script gains or loses anything.
pub proof fn law_status_transition(v: StoreView, txid: Txid, status: TxStatus)
    requires
        v.consistent(),
        v.transactions.contains_key(txid),
        status.is_viable(),
        v.transactions[txid].status != status,
    ensures
        ({
            let w = v.upsert_tx(txid, status);
            let from = v.entry_of(txid);
            let to = HistoryEntry { txid, status };
            &&& w.scripts.dom() == v.scripts.dom()
            &&& forall|sh: ScriptHash| #[trigger]
                v.transactions[txid].touches(sh) ==> {
                    &&& w.scripts.contains_key(sh)
                    &&& v.scripts[sh].history.contains(from)
                    &&& w.scripts[sh].history == v.scripts[sh].history.remove(from).insert(to)
                    &&& w.scripts[sh].history.contains(to)
                    &&& !w.scripts[sh].history.contains(from)
                }
            &&& forall|sh: ScriptHash|
                v.scripts.contains_key(sh) && !(#[trigger] v.transactions[txid].touches(sh)) ==> {
                    &&& w.scripts[sh] == v.scripts[sh]
                    &&& !w.scripts[sh].history.contains(to)
                }
        }),
{
    let w = v.upsert_tx(txid, status);
    let from = v.entry_of(txid);
    let to = HistoryEntry { txid, status };
    let tx = v.transactions[txid];
    assert(w.scripts.dom() =~= v.scripts.dom());
    assert forall|sh: ScriptHash| #[trigger] tx.touches(sh) implies {
        &&& w.scripts.contains_key(sh)
        &&& v.scripts[sh].history.contains(from)
        &&& w.scripts[sh].history == v.scripts[sh].history.remove(from).insert(to)
        &&& w.scripts[sh].history.contains(to)
        &&& !w.scripts[sh].history.contains(from)
    } by {
        assert(tx.scripthashes().contains(sh));
    }
    assert forall|sh: ScriptHash|
        v.scripts.contains_key(sh) && !(#[trigger] tx.touches(sh)) implies {
        &&& w.scripts[sh] == v.scripts[sh]
        &&& !w.scripts[sh].history.contains(to)
    } by {
        assert(!tx.scripthashes().contains(sh));
        if v.scripts[sh].history.contains(to) {
            assert(v.transactions[to.txid].status == to.status);
        }
    }
}

/// Purging is idempotent: a second purge of the same transaction finds
/// nothing and changes nothing. After a purge no history holds an entry of
/// the transaction, and no script that the transaction touched is still
/// watched with an empty history.
pub proof fn law_purge(v: StoreView, txid: Txid)
    requires
        v.consistent(),
    ensures
        ({
            let w = v.purge_tx(txid);
            &&& w.consistent()
            &&& !w.transactions.contains_key(txid)
            &&& w.purge_tx(txid) == w
            &&& !w.mempool.contains_key(txid)
            &&& forall|sh: ScriptHash, e: HistoryEntry|
                w.scripts.contains_key(sh) && #[trigger] w.scripts[sh].history.contains(e)
                    ==> e.txid != txid
            &&& forall|sh: ScriptHash|
                v.transactions.contains_key(txid) && #[trigger] v.transactions[txid].touches(sh)
                    && w.scripts.contains_key(sh) ==> exists|e: HistoryEntry| #[trigger]
                    w.scripts[sh].history.contains(e)
        }),
{
    let w = v.purge_tx(txid);
    lemma_purge_tx_consistent(v, txid);
    if v.transactions.contains_key(txid) {
        let tx = v.transactions[txid];
        let gone = v.entry_of(txid);
        assert forall|sh: ScriptHash|
            #[trigger] tx.touches(sh) && w.scripts.contains_key(sh) implies exists|
            e: HistoryEntry,
        | #[trigger] w.scripts[sh].history.contains(e) by {
            assert(tx.scripthashes().contains(sh));
            let other = choose|other: HistoryEntry| #[trigger]
                v.scripts[sh].history.contains(other) && other != gone;
            assert(w.scripts[sh].history.contains(other));
        }
    }
}

/// No history of a consistent index holds a conflicted entry.
pub proof fn law_histories_viable(v: StoreView, sh: ScriptHash, entry: HistoryEntry)
    requires
        v.consistent(),
        v.scripts.contains_key(sh),
        v.scripts[sh].history.contains(entry),
    ensures
        entry.status.is_viable(),
        v.transactions.contains_key(entry.txid),
        v.transactions[entry.txid].status == entry.status,
{
}

/// In a history read in ascending order, the entries of the mempool come
/// before the confirmed ones, and the confirmed ones come by ascending
/// height.
pub proof fn law_ascending_by_status(entries: Seq<HistoryEntry>, i: int, j: int)
    requires
        ascending(entries),
        0 <= i < j < entries.len(),
    ensures
        entries[i] != entries[j],
        entries[j].status is Unconfirmed ==> !(entries[i].status is Confirmed),
        entries[i].status matches TxStatus::Confirmed(a) ==> (entries[j].status matches
            TxStatus::Confirmed(b) && a <= b),
{
    assert(entries[i].precedes(&entries[j]));
}

/// A row of the feed keeps the index consistent.
pub proof fn lemma_process_ltx_consistent(v: StoreView, ltx: TxRecord, tip_height: u32)
    requires
        v.consistent(),
    ensures
        v.process_ltx(ltx, tip_height).consistent(),
{
    let status = classify(ltx.confirmations as int, tip_height as int);
    if !ltx.eligible {
    } else if !status.is_viable() {
        lemma_purge_tx_consistent(v, ltx.txid);
    } else {
        lemma_upsert_tx_consistent(v, ltx.txid, status);
        lemma_index_address_history_consistent(
            v.upsert_tx(ltx.txid, status),
            ltx.txid,
            ltx.address,
            ltx.origin,
            ltx.vout,
            ltx.amount,
        );
    }
}

/// A run of rows of the feed keeps the index consistent.
pub proof fn lemma_process_chunk_consistent(v: StoreView, rows: Seq<TxRecord>, tip_height: u32)
    requires
        v.consistent(),
    ensures
        v.process_chunk(rows, tip_height).consistent(),
    decreases rows.len(),
{
    if rows.len() > 0 {
        lemma_process_chunk_consistent(v, rows.drop_last(), tip_height);
        lemma_process_ltx_consistent(
            v.process_chunk(rows.drop_last(), tip_height),
            rows.last(),
            tip_height,
        );
    }
}

/// A run of details of a known transaction keeps the index consistent.
pub proof fn lemma_process_details_consistent(v: StoreView, txid: Txid, details: Seq<TxDetail>)
    requires
        v.consistent(),
        v.transactions.contains_key(txid),
    ensures
        v.process_details(txid, details).consistent(),
        v.process_details(txid, details).transactions.contains_key(txid),
    decreases details.len(),
{
    if details.len() > 0 {
        lemma_process_details_consistent(v, txid, details.drop_last());
        let detail = details.last();
        if detail.eligible {
            lemma_index_address_history_consistent(
                v.process_details(txid, details.drop_last()),
                txid,
                detail.address,
                detail.origin,
                detail.vout,
                detail.amount,
            );
        }
    }
}

/// What the node tells of one transaction keeps the index consistent.
pub proof fn lemma_process_gtx_consistent(v: StoreView, gtx: TxReport, tip_height: u32)
    requires
        v.consistent(),
    ensures
        v.process_gtx(gtx, tip_height).consistent(),
{
    let status = classify(gtx.confirmations as int, tip_height as int);
    if !status.is_viable() {
        lemma_purge_tx_consistent(v, gtx.txid);
    } else {
        lemma_upsert_tx_consistent(v, gtx.txid, status);
        lemma_process_details_consistent(v.upsert_tx(gtx.txid, status), gtx.txid, gtx.details@);
    }
}

/// Applying a row of the feed twice leaves the index as applying it once
/// does, so that a walk that starts over may apply again what it applied.
pub proof fn law_process_ltx_idempotent(v: StoreView, ltx: TxRecord, tip_height: u32)
    requires
        v.consistent(),
    ensures
        v.process_ltx(ltx, tip_height).process_ltx(ltx, tip_height) == v.process_ltx(
            ltx,
            tip_height,
        ),
{
    let status = classify(ltx.confirmations as int, tip_height as int);
    let w = v.process_ltx(ltx, tip_height);
    if ltx.eligible && status.is_viable() {
        let up = v.upsert_tx(ltx.txid, status);
        lemma_upsert_tx_consistent(v, ltx.txid, status);
        let sh = StoreView::script_of(ltx.address);
        let watched = up.index_scripthash(sh, ltx.origin, ltx.address@);
        assert(w.transactions.contains_key(ltx.txid));
        assert(w.transactions[ltx.txid].status == status);
        assert(w.upsert_tx(ltx.txid, status) == w);
        assert(w.scripts.contains_key(sh));
        assert(w.index_scripthash(sh, ltx.origin, ltx.address@) == w);
        assert(w.transactions[ltx.txid].funding.contains_key(ltx.vout));
    } else if ltx.eligible {
        law_purge(v, ltx.txid);
    }
}

} // verus!
