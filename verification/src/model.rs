//! The index as a mathematical value, and each of its operations as a
//! function from one such value to the next.

use crate::history::HistoryEntry;
use crate::status::TxStatus;
use crate::types::{AddressView, InPoint, KeyOrigin, MempoolEntry, OutPoint, ScriptHash, Txid};
use vstd::prelude::*;

verus! {

/// An output that the wallet owns: the script it pays to and its value.
#[derive(Clone, Copy, Debug, PartialEq, Eq, Structural)]
pub struct FundingInfo(pub ScriptHash, pub u64);

/// An input that spends one of the wallet's outputs: the script of the
/// spent output, the spent output, and its value.
#[derive(Clone, Copy, Debug, PartialEq, Eq, Structural)]
pub struct SpendingInfo(pub ScriptHash, pub OutPoint, pub u64);

/// What the index knows of one transaction.
pub struct TxEntryView {
    pub status: TxStatus,
    /// Owned outputs, by output index.
    pub funding: Map<u32, FundingInfo>,
    /// Inputs that spend owned outputs, by input index.
    pub spending: Map<u32, SpendingInfo>,
}

impl TxEntryView {
    /// A transaction seen for the first time.
    pub open spec fn fresh(status: TxStatus) -> TxEntryView {
        TxEntryView { status, funding: Map::empty(), spending: Map::empty() }
    }

    /// Whether one of the transaction's outputs pays to `sh`.
    pub open spec fn funds(self, sh: ScriptHash) -> bool {
        exists|vout: u32| #[trigger] self.funding.contains_key(vout) && self.funding[vout].0 == sh
    }

    /// Whether one of the transaction's inputs spends from `sh`.
    pub open spec fn spends(self, sh: ScriptHash) -> bool {
        exists|vin: u32| #[trigger] self.spending.contains_key(vin) && self.spending[vin].0 == sh
    }

    /// Whether the transaction pays to `sh` or spends from it.
    pub open spec fn touches(self, sh: ScriptHash) -> bool {
        self.funds(sh) || self.spends(sh)
    }

    /// Every script that the transaction pays to or spends from.
    pub open spec fn scripthashes(self) -> Set<ScriptHash> {
        Set::new(|sh: ScriptHash| self.touches(sh))
    }

    /// Whether one of the transaction's inputs spends `outpoint`.
    pub open spec fn spends_prevout(self, outpoint: OutPoint) -> bool {
        exists|vin: u32| #[trigger]
            self.spending.contains_key(vin) && self.spending[vin].1 == outpoint
    }

    /// Every output that one of the transaction's inputs spends.
    pub open spec fn prevouts(self) -> Set<OutPoint> {
        Set::new(|o: OutPoint| self.spends_prevout(o))
    }
}

/// What the index knows of one watched script.
pub struct ScriptEntryView {
    pub address: AddressView,
    pub origin: KeyOrigin,
    pub history: Set<HistoryEntry>,
}

impl ScriptEntryView {
    pub open spec fn with_history(self, history: Set<HistoryEntry>) -> ScriptEntryView {
        ScriptEntryView { history, ..self }
    }
}

/// Whether `history` holds nothing but, at most, `entry`.
pub open spec fn only_holds(history: Set<HistoryEntry>, entry: HistoryEntry) -> bool {
    forall|other: HistoryEntry| #[trigger] history.contains(other) ==> other == entry
}

/// The whole index.
pub struct StoreView {
    /// Watched scripts.
    pub scripts: Map<ScriptHash, ScriptEntryView>,
    /// Known transactions.
    pub transactions: Map<Txid, TxEntryView>,
    /// Transactions in the mempool, with what the node told of each.
    pub mempool: Map<Txid, Option<MempoolEntry>>,
    /// For each spent output, the input that spends it.
    pub txo_spends: Map<OutPoint, InPoint>,
}

impl StoreView {
    pub open spec fn empty() -> StoreView {
        StoreView {
            scripts: Map::empty(),
            transactions: Map::empty(),
            mempool: Map::empty(),
            txo_spends: Map::empty(),
        }
    }

    /// The history entry that transaction `txid` has at its current status.
    pub open spec fn entry_of(self, txid: Txid) -> HistoryEntry {
        HistoryEntry { txid, status: self.transactions[txid].status }
    }

    /// No stored transaction is conflicted.
    pub open spec fn statuses_viable(self) -> bool {
        forall|t: Txid| #[trigger]
            self.transactions.contains_key(t) ==> self.transactions[t].status.is_viable()
    }

    /// The mempool holds exactly the unconfirmed transactions.
    pub open spec fn mempool_matches(self) -> bool {
        &&& forall|t: Txid| #[trigger]
            self.mempool.contains_key(t) ==> self.transactions.contains_key(t)
                && self.transactions[t].status is Unconfirmed
        &&& forall|t: Txid| #[trigger]
            self.transactions.contains_key(t) && self.transactions[t].status is Unconfirmed
                ==> self.mempool.contains_key(t)
    }

    /// Every script that a transaction touches is watched and has the
    /// transaction in its history, at the transaction's current status.
    pub open spec fn histories_cover(self) -> bool {
        forall|t: Txid, sh: ScriptHash|
            self.transactions.contains_key(t) && #[trigger] self.transactions[t].touches(sh)
                ==> self.scripts.contains_key(sh) && self.scripts[sh].history.contains(
                self.entry_of(t),
            )
    }

    /// Every history entry belongs to a known transaction that touches the
    /// script, and carries that transaction's current status.
    pub open spec fn histories_exact(self) -> bool {
        forall|sh: ScriptHash, e: HistoryEntry|
            self.scripts.contains_key(sh) && #[trigger] self.scripts[sh].history.contains(e)
                ==> self.transactions.contains_key(e.txid) && self.transactions[e.txid].status
                == e.status && self.transactions[e.txid].touches(sh)
    }

    /// What holds of the index between any two operations.
    pub open spec fn consistent(self) -> bool {
        &&& self.statuses_viable()
        &&& self.mempool_matches()
        &&& self.histories_cover()
        &&& self.histories_exact()
    }

    /// Whether some watched script has `entry` in its history.
    pub open spec fn in_some_history(self, entry: HistoryEntry) -> bool {
        exists|sh: ScriptHash| #[trigger]
            self.scripts.contains_key(sh) && self.scripts[sh].history.contains(entry)
    }

    /// Every history entry, of whatever script, that is unconfirmed or
    /// confirmed at `min_block_height` or above.
    pub open spec fn history_since(self, min_block_height: u32) -> Set<HistoryEntry> {
        Set::new(
            |entry: HistoryEntry|
                self.in_some_history(entry) && entry.status.is_since(min_block_height),
        )
    }

    /// Histories after `entry` was added to that of every script in `shs`.
    pub open spec fn stamp(self, shs: Set<ScriptHash>, entry: HistoryEntry) -> Map<
        ScriptHash,
        ScriptEntryView,
    > {
        Map::new(
            |sh: ScriptHash| self.scripts.contains_key(sh),
            |sh: ScriptHash|
                if shs.contains(sh) {
                    self.scripts[sh].with_history(self.scripts[sh].history.insert(entry))
                } else {
                    self.scripts[sh]
                },
        )
    }

    /// Histories after `from` gave way to `to` in that of every script in
    /// `shs`.
    pub open spec fn restamp(self, shs: Set<ScriptHash>, from: HistoryEntry, to: HistoryEntry)
        -> Map<ScriptHash, ScriptEntryView> {
        Map::new(
            |sh: ScriptHash| self.scripts.contains_key(sh),
            |sh: ScriptHash|
                if shs.contains(sh) {
                    self.scripts[sh].with_history(
                        self.scripts[sh].history.remove(from).insert(to),
                    )
                } else {
                    self.scripts[sh]
                },
        )
    }

    /// Histories after `entry` left that of every script in `shs`, and
    /// every such script whose history was thereby emptied left the index.
    pub open spec fn unstamp(self, shs: Set<ScriptHash>, entry: HistoryEntry) -> Map<
        ScriptHash,
        ScriptEntryView,
    > {
        Map::new(
            |sh: ScriptHash|
                self.scripts.contains_key(sh) && !(shs.contains(sh) && only_holds(
                    self.scripts[sh].history,
                    entry,
                )),
            |sh: ScriptHash|
                if shs.contains(sh) {
                    self.scripts[sh].with_history(self.scripts[sh].history.remove(entry))
                } else {
                    self.scripts[sh]
                },
        )
    }

    /// Spend edges after those of the outputs in `prevouts` that still name
    /// `txid` as the spender were removed.
    pub open spec fn unspend(self, txid: Txid, prevouts: Set<OutPoint>) -> Map<OutPoint, InPoint> {
        Map::new(
            |o: OutPoint|
                self.txo_spends.contains_key(o) && !(prevouts.contains(o)
                    && self.txo_spends[o].txid == txid),
            |o: OutPoint| self.txo_spends[o],
        )
    }

    /// Starts to watch a script, unless it is watched already.
    pub open spec fn index_scripthash(
        self,
        sh: ScriptHash,
        origin: KeyOrigin,
        address: AddressView,
    ) -> StoreView {
        if self.scripts.contains_key(sh) {
            self
        } else {
            StoreView {
                scripts: self.scripts.insert(
                    sh,
                    ScriptEntryView { address, origin, history: Set::empty() },
                ),
                ..self
            }
        }
    }

    /// Whether `upsert_tx` has anything to change.
    pub open spec fn upsert_changes(self, txid: Txid, status: TxStatus) -> bool {
        !self.transactions.contains_key(txid) || self.transactions[txid].status != status
    }

    /// Records a transaction at a status: a new transaction is added, a
    /// known one at another status moves to the new status in every history
    /// that holds it, and the mempool follows.
    pub open spec fn upsert_tx(self, txid: Txid, status: TxStatus) -> StoreView {
        if !self.transactions.contains_key(txid) {
            StoreView {
                transactions: self.transactions.insert(txid, TxEntryView::fresh(status)),
                mempool: if status is Unconfirmed {
                    self.mempool.insert(txid, None)
                } else {
                    self.mempool
                },
                ..self
            }
        } else if self.transactions[txid].status == status {
            self
        } else {
            let tx = self.transactions[txid];
            StoreView {
                transactions: self.transactions.insert(txid, TxEntryView { status, ..tx }),
                scripts: self.restamp(
                    tx.scripthashes(),
                    self.entry_of(txid),
                    HistoryEntry { txid, status },
                ),
                mempool: if tx.status is Unconfirmed {
                    self.mempool.remove(txid)
                } else if status is Unconfirmed {
                    self.mempool.insert(txid, None)
                } else {
                    self.mempool
                },
                ..self
            }
        }
    }

    /// Records one owned output of a known transaction, unless that output
    /// index is recorded already.
    pub open spec fn index_tx_output_funding(self, txid: Txid, vout: u32, info: FundingInfo)
        -> StoreView {
        let tx = self.transactions[txid];
        if tx.funding.contains_key(vout) {
            self
        } else {
            StoreView {
                transactions: self.transactions.insert(
                    txid,
                    TxEntryView { funding: tx.funding.insert(vout, info), ..tx },
                ),
                scripts: self.stamp(set![info.0], self.entry_of(txid)),
                ..self
            }
        }
    }

    /// Records the whole set of inputs of a known transaction that spend
    /// owned outputs.
    pub open spec fn index_tx_inputs_spending(self, txid: Txid, spending: Map<u32, SpendingInfo>)
        -> StoreView {
        let tx = TxEntryView { spending, ..self.transactions[txid] };
        StoreView {
            transactions: self.transactions.insert(txid, tx),
            scripts: self.stamp(tx.scripthashes(), self.entry_of(txid)),
            ..self
        }
    }

    /// Records that `inpoint` spends `outpoint`; the last writer wins.
    pub open spec fn index_txo_spend(self, outpoint: OutPoint, inpoint: InPoint) -> StoreView {
        StoreView { txo_spends: self.txo_spends.insert(outpoint, inpoint), ..self }
    }

    /// Forgets a transaction and everything that hangs on it.
    pub open spec fn purge_tx(self, txid: Txid) -> StoreView {
        if !self.transactions.contains_key(txid) {
            self
        } else {
            let tx = self.transactions[txid];
            StoreView {
                transactions: self.transactions.remove(txid),
                mempool: if tx.status is Unconfirmed {
                    self.mempool.remove(txid)
                } else {
                    self.mempool
                },
                scripts: self.unstamp(tx.scripthashes(), self.entry_of(txid)),
                txo_spends: self.unspend(txid, tx.prevouts()),
            }
        }
    }

    /// Whether a call of `index_tx_inputs_spending` may replace what is
    /// recorded: either the caller allows it or nothing is recorded, every
    /// spent script is watched, and no script that the transaction touched
    /// before is left untouched.
    pub open spec fn spending_fits(
        self,
        txid: Txid,
        spending: Map<u32, SpendingInfo>,
        allow_overwrite: bool,
    ) -> bool {
        let old_tx = self.transactions[txid];
        let new_tx = TxEntryView { spending, ..old_tx };
        &&& self.transactions.contains_key(txid)
        &&& allow_overwrite || old_tx.spending.dom() =~= Set::<u32>::empty()
        &&& forall|vin: u32| #[trigger]
            spending.contains_key(vin) ==> self.scripts.contains_key(spending[vin].0)
        &&& forall|sh: ScriptHash| #[trigger] old_tx.touches(sh) ==> new_tx.touches(sh)
    }
}

/// Which scripts a transaction touches does not depend on its status.
pub proof fn lemma_touches_ignores_status(a: TxEntryView, b: TxEntryView)
    requires
        a.funding == b.funding,
        a.spending == b.spending,
    ensures
        forall|sh: ScriptHash| #[trigger] a.touches(sh) == b.touches(sh),
        a.scripthashes() == b.scripthashes(),
{
    assert forall|sh: ScriptHash| #[trigger] a.touches(sh) == b.touches(sh) by {
        assert(a.funds(sh) == b.funds(sh));
        assert(a.spends(sh) == b.spends(sh));
    }
    assert(a.scripthashes() =~= b.scripthashes());
}

/// Watching one more script keeps the index consistent.
pub proof fn lemma_index_scripthash_consistent(
    v: StoreView,
    sh: ScriptHash,
    origin: KeyOrigin,
    address: AddressView,
)
    requires
        v.consistent(),
    ensures
        v.index_scripthash(sh, origin, address).consistent(),
{
    let w = v.index_scripthash(sh, origin, address);
    if !v.scripts.contains_key(sh) {
        assert forall|t: Txid, s: ScriptHash|
            w.transactions.contains_key(t) && #[trigger] w.transactions[t].touches(s) implies (
        w.scripts.contains_key(s) && w.scripts[s].history.contains(w.entry_of(t))) by {
            assert(v.transactions[t].touches(s));
        }
    }
}

/// Recording a status keeps the index consistent.
pub proof fn lemma_upsert_tx_consistent(v: StoreView, txid: Txid, status: TxStatus)
    requires
        v.consistent(),
        status.is_viable(),
    ensures
        v.upsert_tx(txid, status).consistent(),
{
    let w = v.upsert_tx(txid, status);
    if !v.transactions.contains_key(txid) {
        assert(!v.mempool.contains_key(txid));
        assert forall|t: Txid, sh: ScriptHash|
            w.transactions.contains_key(t) && #[trigger] w.transactions[t].touches(sh) implies (
        w.scripts.contains_key(sh) && w.scripts[sh].history.contains(w.entry_of(t))) by {
            if t == txid {
                assert(!w.transactions[t].funds(sh));
                assert(!w.transactions[t].spends(sh));
            } else {
                assert(v.transactions[t].touches(sh));
            }
        }
        assert forall|sh: ScriptHash, e: HistoryEntry|
            w.scripts.contains_key(sh) && #[trigger] w.scripts[sh].history.contains(e) implies (
        w.transactions.contains_key(e.txid) && w.transactions[e.txid].status == e.status
            && w.transactions[e.txid].touches(sh)) by {
            assert(v.scripts[sh].history.contains(e));
            assert(e.txid != txid);
        }
    } else if v.transactions[txid].status != status {
        let tx = v.transactions[txid];
        let from = v.entry_of(txid);
        let to = HistoryEntry { txid, status };
        lemma_touches_ignores_status(tx, w.transactions[txid]);
        assert forall|t: Txid, sh: ScriptHash|
            w.transactions.contains_key(t) && #[trigger] w.transactions[t].touches(sh) implies (
        w.scripts.contains_key(sh) && w.scripts[sh].history.contains(w.entry_of(t))) by {
            if t == txid {
                assert(tx.touches(sh));
                assert(tx.scripthashes().contains(sh));
            } else {
                assert(v.transactions[t].touches(sh));
                assert(v.scripts[sh].history.contains(v.entry_of(t)));
            }
        }
        assert forall|sh: ScriptHash, e: HistoryEntry|
            w.scripts.contains_key(sh) && #[trigger] w.scripts[sh].history.contains(e) implies (
        w.transactions.contains_key(e.txid) && w.transactions[e.txid].status == e.status
            && w.transactions[e.txid].touches(sh)) by {
            if tx.scripthashes().contains(sh) {
                if e != to {
                    assert(v.scripts[sh].history.contains(e));
                    assert(e.txid != txid);
                } else {
                    assert(tx.touches(sh));
                    assert(w.transactions[txid].touches(sh));
                }
            } else {
                assert(v.scripts[sh].history.contains(e));
                assert(e.txid != txid);
            }
        }
    }
}

/// Recording an owned output keeps the index consistent, where the
/// transaction is known and the script is watched.
pub proof fn lemma_index_tx_output_funding_consistent(
    v: StoreView,
    txid: Txid,
    vout: u32,
    info: FundingInfo,
)
    requires
        v.consistent(),
        v.transactions.contains_key(txid),
        v.scripts.contains_key(info.0),
    ensures
        v.index_tx_output_funding(txid, vout, info).consistent(),
{
    let w = v.index_tx_output_funding(txid, vout, info);
    let tx = v.transactions[txid];
    if !tx.funding.contains_key(vout) {
        let new_tx = w.transactions[txid];
        assert(new_tx.funding.contains_key(vout) && new_tx.funding[vout].0 == info.0);
        assert(new_tx.funds(info.0));
        assert forall|sh: ScriptHash| #[trigger] tx.touches(sh) implies new_tx.touches(sh) by {
            if tx.funds(sh) {
                let o = choose|o: u32| #[trigger]
                    tx.funding.contains_key(o) && tx.funding[o].0 == sh;
                assert(new_tx.funding.contains_key(o) && new_tx.funding[o].0 == sh);
            } else {
                let i = choose|i: u32| #[trigger]
                    tx.spending.contains_key(i) && tx.spending[i].0 == sh;
                assert(new_tx.spending.contains_key(i) && new_tx.spending[i].0 == sh);
            }
        }
        assert forall|sh: ScriptHash| #[trigger] new_tx.touches(sh) implies tx.touches(sh) || sh
            == info.0 by {
            if new_tx.funds(sh) {
                let o = choose|o: u32| #[trigger]
                    new_tx.funding.contains_key(o) && new_tx.funding[o].0 == sh;
                if o != vout {
                    assert(tx.funding.contains_key(o) && tx.funding[o].0 == sh);
                }
            } else {
                let i = choose|i: u32| #[trigger]
                    new_tx.spending.contains_key(i) && new_tx.spending[i].0 == sh;
                assert(tx.spending.contains_key(i) && tx.spending[i].0 == sh);
            }
        }
        assert forall|t: Txid, sh: ScriptHash|
            w.transactions.contains_key(t) && #[trigger] w.transactions[t].touches(sh) implies (
        w.scripts.contains_key(sh) && w.scripts[sh].history.contains(w.entry_of(t))) by {
            if t == txid {
                if sh != info.0 {
                    assert(tx.touches(sh));
                }
            } else {
                assert(v.transactions[t].touches(sh));
            }
        }
        assert forall|sh: ScriptHash, e: HistoryEntry|
            w.scripts.contains_key(sh) && #[trigger] w.scripts[sh].history.contains(e) implies (
        w.transactions.contains_key(e.txid) && w.transactions[e.txid].status == e.status
            && w.transactions[e.txid].touches(sh)) by {
            if sh == info.0 && e == v.entry_of(txid) {
            } else {
                assert(v.scripts[sh].history.contains(e));
                if e.txid == txid {
                    assert(tx.touches(sh));
                }
            }
        }
    }
}

/// Recording the spending inputs keeps the index consistent, where the
/// new set fits.
pub proof fn lemma_index_tx_inputs_spending_consistent(
    v: StoreView,
    txid: Txid,
    spending: Map<u32, SpendingInfo>,
    allow_overwrite: bool,
)
    requires
        v.consistent(),
        v.spending_fits(txid, spending, allow_overwrite),
    ensures
        v.index_tx_inputs_spending(txid, spending).consistent(),
{
    let w = v.index_tx_inputs_spending(txid, spending);
    let tx = v.transactions[txid];
    let new_tx = w.transactions[txid];
    assert forall|sh: ScriptHash| #[trigger] new_tx.touches(sh) implies v.scripts.contains_key(
        sh,
    ) by {
        if new_tx.funds(sh) {
            assert(tx.funds(sh));
            assert(tx.touches(sh));
        } else {
            let i = choose|i: u32| #[trigger]
                spending.contains_key(i) && spending[i].0 == sh;
            assert(v.scripts.contains_key(spending[i].0));
        }
    }
    assert forall|t: Txid, sh: ScriptHash|
        w.transactions.contains_key(t) && #[trigger] w.transactions[t].touches(sh) implies (
    w.scripts.contains_key(sh) && w.scripts[sh].history.contains(w.entry_of(t))) by {
        if t == txid {
            assert(new_tx.scripthashes().contains(sh));
        } else {
            assert(v.transactions[t].touches(sh));
        }
    }
    assert forall|sh: ScriptHash, e: HistoryEntry|
        w.scripts.contains_key(sh) && #[trigger] w.scripts[sh].history.contains(e) implies (
    w.transactions.contains_key(e.txid) && w.transactions[e.txid].status == e.status
        && w.transactions[e.txid].touches(sh)) by {
        if new_tx.scripthashes().contains(sh) && e == v.entry_of(txid) {
        } else {
            assert(v.scripts[sh].history.contains(e));
            if e.txid == txid {
                assert(tx.touches(sh));
            }
        }
    }
}

/// Forgetting a transaction keeps the index consistent.
pub proof fn lemma_purge_tx_consistent(v: StoreView, txid: Txid)
    requires
        v.consistent(),
    ensures
        v.purge_tx(txid).consistent(),
{
    let w = v.purge_tx(txid);
    if v.transactions.contains_key(txid) {
        let tx = v.transactions[txid];
        let gone = v.entry_of(txid);
        assert forall|t: Txid, sh: ScriptHash|
            w.transactions.contains_key(t) && #[trigger] w.transactions[t].touches(sh) implies (
        w.scripts.contains_key(sh) && w.scripts[sh].history.contains(w.entry_of(t))) by {
            assert(v.transactions[t].touches(sh));
            assert(v.scripts[sh].history.contains(v.entry_of(t)));
            assert(v.entry_of(t) != gone);
        }
        assert forall|sh: ScriptHash, e: HistoryEntry|
            w.scripts.contains_key(sh) && #[trigger] w.scripts[sh].history.contains(e) implies (
        w.transactions.contains_key(e.txid) && w.transactions[e.txid].status == e.status
            && w.transactions[e.txid].touches(sh)) by {
            assert(v.scripts[sh].history.contains(e));
            if e.txid == txid {
                assert(e == gone);
                assert(tx.touches(sh));
                assert(tx.scripthashes().contains(sh));
            }
        }
    }
}

/// Spend edges play no part in consistency.
pub proof fn lemma_index_txo_spend_consistent(v: StoreView, outpoint: OutPoint, inpoint: InPoint)
    requires
        v.consistent(),
    ensures
        v.index_txo_spend(outpoint, inpoint).consistent(),
{
    let w = v.index_txo_spend(outpoint, inpoint);
    assert forall|t: Txid, sh: ScriptHash|
        w.transactions.contains_key(t) && #[trigger] w.transactions[t].touches(sh) implies (
    w.scripts.contains_key(sh) && w.scripts[sh].history.contains(w.entry_of(t))) by {
        assert(v.transactions[t].touches(sh));
    }
}

/// What the mempool tells of its transactions plays no part in
/// consistency, as long as it holds the same transactions.
pub proof fn lemma_mempool_data_consistent(v: StoreView, mempool: Map<Txid, Option<MempoolEntry>>)
    requires
        v.consistent(),
        mempool.dom() == v.mempool.dom(),
    ensures
        (StoreView { mempool, ..v }).consistent(),
{
    let w = StoreView { mempool, ..v };
    assert forall|t: Txid| #[trigger] w.mempool.contains_key(t) implies w.transactions.contains_key(
        t,
    ) && w.transactions[t].status is Unconfirmed by {
        assert(v.mempool.dom().contains(t));
    }
    assert forall|t: Txid| #[trigger]
        w.transactions.contains_key(t) && w.transactions[t].status is Unconfirmed implies
        w.mempool.contains_key(t) by {
        assert(v.mempool.dom().contains(t));
    }
    assert forall|t: Txid, sh: ScriptHash|
        w.transactions.contains_key(t) && #[trigger] w.transactions[t].touches(sh) implies (
    w.scripts.contains_key(sh) && w.scripts[sh].history.contains(w.entry_of(t))) by {
        assert(v.transactions[t].touches(sh));
    }
}

} // verus!
