//! The index proper: watched scripts with their histories, transactions
//! with what they fund and spend, the mempool, and spend edges.

use crate::history::{
    ascending, key_precedes, lemma_key_round_trip, lemma_of_key_round_trip, HistoryEntry,
};
use crate::model::{
    lemma_index_scripthash_consistent, lemma_index_tx_inputs_spending_consistent,
    lemma_index_tx_output_funding_consistent, lemma_index_txo_spend_consistent,
    lemma_mempool_data_consistent, lemma_purge_tx_consistent, lemma_touches_ignores_status,
    lemma_upsert_tx_consistent, FundingInfo, ScriptEntryView, SpendingInfo, StoreView,
    TxEntryView,
};
use crate::status::TxStatus;
use crate::types::{
    Address, Bip32Origin, InPoint, KeyOrigin, MempoolEntry, OutPoint, ScriptHash, Txid,
};
use std::collections::{BTreeMap, BTreeSet, HashMap};
use vstd::prelude::*;
use vstd::laws_cmp::obeys_cmp;
use vstd::std_specs::btree::increasing_seq;
use vstd::std_specs::cmp::OrdSpec;
use vstd::std_specs::iter::IteratorSpec;

verus! {

/// Key of a 32-byte hash in an ordered map.
pub type HashKey = (u128, u128);

/// Key of a history entry in an ordered set.
pub type EntryKey = (u64, (u128, u128));

/// What the index keeps of one transaction.
#[derive(Debug)]
pub struct TxEntry {
    pub status: TxStatus,
    /// Owned outputs, by output index.
    pub funding: HashMap<u32, FundingInfo>,
    /// Inputs that spend owned outputs, by input index.
    pub spending: HashMap<u32, SpendingInfo>,
}

impl View for TxEntry {
    type V = TxEntryView;

    open spec fn view(&self) -> TxEntryView {
        TxEntryView { status: self.status, funding: self.funding@, spending: self.spending@ }
    }
}

impl Clone for TxEntry {
    fn clone(&self) -> (copy: TxEntry)
        ensures
            copy@ == self@,
    {
        TxEntry {
            status: self.status,
            funding: self.funding.clone(),
            spending: self.spending.clone(),
        }
    }
}

/// A transaction of a script's history, with what the index keeps of it.
#[derive(Clone, Debug)]
pub struct Tx {
    pub txid: Txid,
    pub entry: TxEntry,
}

impl Tx {
    /// The history entry that the transaction stands for.
    pub open spec fn history_entry(self) -> HistoryEntry {
        HistoryEntry { txid: self.txid, status: self.entry.status }
    }
}

/// The history entries that a list of transactions stands for.
pub open spec fn tx_entries(txs: Seq<Tx>) -> Seq<HistoryEntry> {
    txs.map_values(|tx: Tx| tx.history_entry())
}

impl TxEntry {
    pub fn new(status: TxStatus) -> (entry: TxEntry)
        ensures
            entry@ == TxEntryView::fresh(status),
    {
        TxEntry { status, funding: HashMap::new(), spending: HashMap::new() }
    }

    /// Every script that the transaction pays to or spends from, each once.
    pub fn scripthashes(&self) -> (shs: Vec<ScriptHash>)
        ensures
            shs@.no_duplicates(),
            shs@.to_set() == self@.scripthashes(),
    {
        let mut keys: BTreeSet<HashKey> = BTreeSet::new();
        for info in it: self.funding.values()
            invariant
                it.seq() == self.funding.values().remaining(),
                forall|j: int|
                    0 <= j < it.index() ==> keys@.contains(#[trigger] it.seq()[j].0.key()),
                forall|k: HashKey| #[trigger]
                    keys@.contains(k) ==> self@.touches(ScriptHash::of_key(k)),
        {
            proof {
                let seq = it.seq().unref();
                assert(seq[it.index()] == *info);
                assert(seq.to_set().contains(*info));
                assert(self.funding@.values().contains(*info));
                let vout = choose|vout: u32| #[trigger]
                    self.funding@.contains_key(vout) && self.funding@[vout] == *info;
                assert(self@.funding.contains_key(vout) && self@.funding[vout].0 == info.0);
                assert(self@.funds(info.0));
            }
            keys.insert(info.0.key());
        }
        proof {
            let seq = self.funding.values().remaining().unref();
            assert forall|sh: ScriptHash| self@.funds(sh) implies keys@.contains(sh.key()) by {
                let vout = choose|vout: u32| #[trigger]
                    self@.funding.contains_key(vout) && self@.funding[vout].0 == sh;
                assert(self.funding@.values().contains(self.funding@[vout]));
                assert(seq.to_set().contains(self.funding@[vout]));
                let j = choose|j: int| 0 <= j < seq.len() && seq[j] == self.funding@[vout];
                assert(keys@.contains(self.funding.values().remaining()[j].0.key()));
            }
        }
        for info in it: self.spending.values()
            invariant
                it.seq() == self.spending.values().remaining(),
                forall|j: int|
                    0 <= j < it.index() ==> keys@.contains(#[trigger] it.seq()[j].0.key()),
                forall|k: HashKey| #[trigger]
                    keys@.contains(k) ==> self@.touches(ScriptHash::of_key(k)),
                forall|sh: ScriptHash| self@.funds(sh) ==> keys@.contains(sh.key()),
        {
            proof {
                let seq = it.seq().unref();
                assert(seq[it.index()] == *info);
                assert(seq.to_set().contains(*info));
                assert(self.spending@.values().contains(*info));
                let vin = choose|vin: u32| #[trigger]
                    self.spending@.contains_key(vin) && self.spending@[vin] == *info;
                assert(self@.spending.contains_key(vin) && self@.spending[vin].0 == info.0);
                assert(self@.spends(info.0));
            }
            keys.insert(info.0.key());
        }
        proof {
            let seq = self.spending.values().remaining().unref();
            assert forall|sh: ScriptHash| self@.spends(sh) implies keys@.contains(sh.key()) by {
                let vin = choose|vin: u32| #[trigger]
                    self@.spending.contains_key(vin) && self@.spending[vin].0 == sh;
                assert(self.spending@.values().contains(self.spending@[vin]));
                assert(seq.to_set().contains(self.spending@[vin]));
                let j = choose|j: int| 0 <= j < seq.len() && seq[j] == self.spending@[vin];
                assert(keys@.contains(self.spending.values().remaining()[j].0.key()));
            }
        }
        let mut shs: Vec<ScriptHash> = Vec::new();
        for k in it: keys.iter()
            invariant
                it.seq() == keys.iter().remaining(),
                shs@.len() == it.index(),
                forall|j: int| 0 <= j < it.index() ==> (#[trigger] shs@[j]).key() == *it.seq()[j],
        {
            shs.push(ScriptHash(crate::types::Hash256 { hi: k.0, lo: k.1 }));
        }
        proof {
            let seq = keys.iter().remaining();
            assert(seq.unref().to_set() == keys@);
            assert forall|i: int, j: int| 0 <= i < shs@.len() && 0 <= j < shs@.len() && i != j
                implies shs@[i] != shs@[j] by {
                assert(seq[i] != seq[j]);
                assert(shs@[i].key() == *seq[i]);
                assert(shs@[j].key() == *seq[j]);
            }
            assert forall|sh: ScriptHash| shs@.to_set().contains(sh) == self@.scripthashes().contains(
                sh,
            ) by {
                if shs@.to_set().contains(sh) {
                    let j = choose|j: int| 0 <= j < shs@.len() && shs@[j] == sh;
                    assert(shs@[j].key() == *seq[j]);
                    assert(seq.unref()[j] == sh.key());
                    assert(seq.unref().to_set().contains(sh.key()));
                    assert(self@.touches(ScriptHash::of_key(sh.key())));
                }
                if self@.scripthashes().contains(sh) {
                    assert(keys@.contains(sh.key()));
                    assert(seq.unref().to_set().contains(sh.key()));
                    let j = choose|j: int| 0 <= j < seq.unref().len() && seq.unref()[j] == sh.key();
                    assert(shs@[j].key() == *seq[j]);
                    assert(shs@[j] == sh);
                }
            }
            assert(shs@.to_set() =~= self@.scripthashes());
        }
        shs
    }
}

/// What the index keeps of one watched script.
#[derive(Debug)]
struct ScriptEntry {
    address: Address,
    origin: KeyOrigin,
    history: BTreeSet<EntryKey>,
}

/// A watched script as callers see it.
#[derive(Clone, Debug)]
pub struct ScriptInfo {
    pub address: Address,
    pub scripthash: ScriptHash,
    pub origin: KeyOrigin,
    /// Descriptor that the script was derived from, where one is known.
    pub desc: Option<String>,
    /// Key origins of the descriptor's keys, where they are known.
    pub bip32_origins: Option<Vec<Bip32Origin>>,
}

/// How much the index holds.
#[derive(Clone, Copy, Debug, PartialEq, Eq, Structural)]
pub struct StoreStats {
    pub transaction_count: usize,
    pub scripthash_count: usize,
}

/// The entries whose keys are in `keys`.
spec fn history_view(keys: Set<EntryKey>) -> Set<HistoryEntry> {
    Set::new(|e: HistoryEntry| keys.contains(e.key()))
}

spec fn script_view(entry: ScriptEntry) -> ScriptEntryView {
    ScriptEntryView {
        address: entry.address@,
        origin: entry.origin,
        history: history_view(entry.history@),
    }
}

spec fn scripts_view(m: Map<HashKey, ScriptEntry>) -> Map<ScriptHash, ScriptEntryView> {
    Map::new(|sh: ScriptHash| m.contains_key(sh.key()), |sh: ScriptHash| script_view(m[sh.key()]))
}

spec fn transactions_view(m: Map<HashKey, TxEntry>) -> Map<Txid, TxEntryView> {
    Map::new(|t: Txid| m.contains_key(t.key()), |t: Txid| m[t.key()]@)
}

/// The mempool by transaction identifier, from the mempool by key.
pub open spec fn mempool_view(m: Map<HashKey, Option<MempoolEntry>>) -> Map<
    Txid,
    Option<MempoolEntry>,
> {
    Map::new(|t: Txid| m.contains_key(t.key()), |t: Txid| m[t.key()])
}

spec fn spends_view(m: Map<(HashKey, u32), InPoint>) -> Map<OutPoint, InPoint> {
    Map::new(|o: OutPoint| m.contains_key(o.key()), |o: OutPoint| m[o.key()])
}

proof fn lemma_history_view_insert(keys: Set<EntryKey>, entry: HistoryEntry)
    ensures
        history_view(keys.insert(entry.key())) == history_view(keys).insert(entry),
{
    assert(history_view(keys.insert(entry.key())) =~= history_view(keys).insert(entry));
}

proof fn lemma_history_view_remove(keys: Set<EntryKey>, entry: HistoryEntry)
    ensures
        history_view(keys.remove(entry.key())) == history_view(keys).remove(entry),
{
    assert(history_view(keys.remove(entry.key())) =~= history_view(keys).remove(entry));
}

proof fn lemma_history_view_empty()
    ensures
        history_view(Set::<EntryKey>::empty()) == Set::<HistoryEntry>::empty(),
{
    assert(history_view(Set::<EntryKey>::empty()) =~= Set::<HistoryEntry>::empty());
}

/// Keys that an ordered set hands out come in the order of entries.
proof fn lemma_keys_ascending(keys: Seq<&EntryKey>)
    requires
        increasing_seq(keys),
    ensures
        forall|i: int, j: int| 0 <= i < j < keys.len() ==> key_precedes(*keys[i], *keys[j]),
{
    assert(obeys_cmp::<EntryKey>());
    assert(obeys_cmp::<&EntryKey>());
    assert forall|i: int, j: int| 0 <= i < j < keys.len() implies key_precedes(
        *keys[i],
        *keys[j],
    ) by {
        assert(OrdSpec::cmp_spec(&keys[i], &keys[j]) is Less);
    }
}

/// A set of keys and the entries that it stands for are of one size.
proof fn lemma_history_view_len(keys: Set<EntryKey>)
    requires
        keys.finite(),
        forall|h: EntryKey| #[trigger] keys.contains(h) ==> HistoryEntry::is_key(h),
    ensures
        history_view(keys).finite(),
        history_view(keys).len() == keys.len(),
{
    let f = |h: EntryKey| HistoryEntry::of_key(h);
    assert forall|a: EntryKey, b: EntryKey|
        keys.contains(a) && keys.contains(b) && #[trigger] f(a) == #[trigger] f(b) implies a
        == b by {
        lemma_of_key_round_trip(a);
        lemma_of_key_round_trip(b);
    }
    assert forall|e: HistoryEntry| keys.map(f).contains(e) == history_view(keys).contains(e) by {
        if keys.map(f).contains(e) {
            let h = choose|h: EntryKey| keys.contains(h) && f(h) == e;
            lemma_of_key_round_trip(h);
        }
        if history_view(keys).contains(e) {
            lemma_key_round_trip(e);
            assert(keys.contains(e.key()) && f(e.key()) == e);
        }
    }
    assert(keys.map(f) =~= history_view(keys));
    vstd::set_lib::lemma_map_size(keys, history_view(keys), f);
}

/// The entries that a set of keys stands for, in ascending order.
fn entries_of(keys: &BTreeSet<EntryKey>) -> (entries: Vec<HistoryEntry>)
    requires
        forall|h: EntryKey| #[trigger] keys@.contains(h) ==> HistoryEntry::is_key(h),
    ensures
        ascending(entries@),
        entries@.to_set() == history_view(keys@),
        entries@.len() == history_view(keys@).len(),
        history_view(keys@).finite(),
{
    let mut entries: Vec<HistoryEntry> = Vec::new();
    for key in it: keys.iter()
        invariant
            it.seq() == keys.iter().remaining(),
            forall|h: EntryKey| #[trigger] keys@.contains(h) ==> HistoryEntry::is_key(h),
            entries@.len() == it.index(),
            forall|j: int| 0 <= j < it.index() ==> (#[trigger] entries@[j]).key() == *it.seq()[j],
    {
        proof {
            let seq = it.seq().unref();
            assert(seq[it.index()] == *key);
            assert(seq.to_set().contains(*key));
        }
        entries.push(HistoryEntry::from_key(*key));
    }
    proof {
        let seq = keys.iter().remaining();
        lemma_keys_ascending(seq);
        assert forall|i: int, j: int| 0 <= i < j < entries@.len() implies entries@[i].precedes(
            &entries@[j],
        ) by {
            assert(entries@[i].key() == *seq[i]);
            assert(entries@[j].key() == *seq[j]);
        }
        assert forall|e: HistoryEntry| entries@.to_set().contains(e) == history_view(
            keys@,
        ).contains(e) by {
            if entries@.to_set().contains(e) {
                let j = choose|j: int| 0 <= j < entries@.len() && entries@[j] == e;
                assert(entries@[j].key() == *seq[j]);
                assert(seq.unref()[j] == e.key());
                assert(seq.unref().to_set().contains(e.key()));
            }
            if history_view(keys@).contains(e) {
                assert(seq.unref().to_set().contains(e.key()));
                let j = choose|j: int| 0 <= j < seq.unref().len() && seq.unref()[j] == e.key();
                assert(entries@[j].key() == *seq[j]);
                lemma_key_round_trip(e);
                lemma_key_round_trip(entries@[j]);
                assert(entries@[j] == e);
            }
        }
        assert(entries@.to_set() =~= history_view(keys@));
        vstd::seq_lib::seq_to_set_is_finite(seq.unref());
        lemma_history_view_len(keys@);
    }
    entries
}

/// The first `i + 1` items of a sequence are its first `i` items and the
/// one at `i`.
proof fn lemma_take_next_to_set<T>(s: Seq<T>, i: int)
    requires
        0 <= i < s.len(),
    ensures
        s.take(i + 1).to_set() == s.take(i).to_set().insert(s[i]),
        s.no_duplicates() ==> !s.take(i).to_set().contains(s[i]),
        s.to_set().contains(s[i]),
{
    let a = s.take(i + 1);
    let b = s.take(i);
    assert forall|x: T| a.to_set().contains(x) == b.to_set().insert(s[i]).contains(x) by {
        if a.to_set().contains(x) {
            let j = choose|j: int| 0 <= j < a.len() && a[j] == x;
            if j < i {
                assert(b[j] == x);
            }
        }
        if b.to_set().contains(x) {
            let j = choose|j: int| 0 <= j < b.len() && b[j] == x;
            assert(a[j] == x);
        }
        if x == s[i] {
            assert(a[i] == x);
        }
    }
    assert(a.to_set() =~= b.to_set().insert(s[i]));
    if s.no_duplicates() && b.to_set().contains(s[i]) {
        let j = choose|j: int| 0 <= j < b.len() && b[j] == s[i];
        assert(s[j] == s[i]);
    }
}

/// The index.
#[derive(Debug)]
pub struct MemoryStore {
    scripthashes: BTreeMap<HashKey, ScriptEntry>,
    transactions: BTreeMap<HashKey, TxEntry>,
    mempool: BTreeMap<HashKey, Option<MempoolEntry>>,
    txo_spends: BTreeMap<(HashKey, u32), InPoint>,
}

impl View for MemoryStore {
    type V = StoreView;

    closed spec fn view(&self) -> StoreView {
        StoreView {
            scripts: scripts_view(self.scripthashes@),
            transactions: transactions_view(self.transactions@),
            mempool: mempool_view(self.mempool@),
            txo_spends: spends_view(self.txo_spends@),
        }
    }
}

impl Default for MemoryStore {
    fn default() -> (store: MemoryStore)
        ensures
            store.wf(),
            store@ == StoreView::empty(),
    {
        MemoryStore::new()
    }
}

impl MemoryStore {
    /// Every stored key is the key of some history entry.
    pub closed spec fn repr_ok(&self) -> bool {
        forall|k: HashKey, h: EntryKey|
            self.scripthashes@.contains_key(k) && #[trigger] self.scripthashes@[k].history@.contains(
                h,
            ) ==> HistoryEntry::is_key(h)
    }

    /// The index is well formed: it stands for a consistent value.
    pub open spec fn wf(&self) -> bool {
        self.repr_ok() && self@.consistent()
    }

    /// An index that holds nothing.
    pub fn new() -> (store: MemoryStore)
        ensures
            store.wf(),
            store@ == StoreView::empty(),
    {
        let store = MemoryStore {
            scripthashes: BTreeMap::new(),
            transactions: BTreeMap::new(),
            mempool: BTreeMap::new(),
            txo_spends: BTreeMap::new(),
        };
        proof {
            assert(store@.scripts =~= Map::<ScriptHash, ScriptEntryView>::empty());
            assert(store@.transactions =~= Map::<Txid, TxEntryView>::empty());
            assert(store@.mempool =~= Map::<Txid, Option<MempoolEntry>>::empty());
            assert(store@.txo_spends =~= Map::<OutPoint, InPoint>::empty());
        }
        store
    }

    /// Starts to watch a script. The first call for a script records its
    /// address and origin with an empty history; a later call changes
    /// nothing. The origin of a watched script never changes, so a later
    /// call has to name the origin that was recorded.
    pub fn index_scripthash(
        &mut self,
        scripthash: &ScriptHash,
        origin: &KeyOrigin,
        address: &Address,
    ) -> (is_new: bool)
        requires
            old(self).wf(),
            old(self)@.scripts.contains_key(*scripthash) ==> old(self)@.scripts[*scripthash].origin
                == *origin,
        ensures
            final(self).wf(),
            final(self)@ == old(self)@.index_scripthash(*scripthash, *origin, address@),
            is_new == !old(self)@.scripts.contains_key(*scripthash),
    {
        let k = scripthash.key();
        if self.scripthashes.contains_key(&k) {
            false
        } else {
            let entry = ScriptEntry {
                address: address.clone(),
                origin: *origin,
                history: BTreeSet::new(),
            };
            self.scripthashes.insert(k, entry);
            proof {
                lemma_history_view_empty();
                assert(final(self)@.scripts =~= old(self)@.scripts.insert(
                    *scripthash,
                    ScriptEntryView { address: address@, origin: *origin, history: Set::empty() },
                ));
                lemma_index_scripthash_consistent(old(self)@, *scripthash, *origin, address@);
            }
            true
        }
    }

    /// Adds an entry to the history of a watched script.
    fn index_history_entry(&mut self, scripthash: &ScriptHash, txhist: HistoryEntry) -> (added:
        bool)
        requires
            old(self).repr_ok(),
            old(self)@.scripts.contains_key(*scripthash),
        ensures
            final(self).repr_ok(),
            final(self)@ == (StoreView {
                scripts: old(self)@.stamp(set![*scripthash], txhist),
                ..old(self)@
            }),
            added == !old(self)@.scripts[*scripthash].history.contains(txhist),
    {
        let k = scripthash.key();
        let mut entry = self.scripthashes.remove(&k).unwrap();
        let added = entry.history.insert(txhist.key());
        self.scripthashes.insert(k, entry);
        proof {
            lemma_history_view_insert(old(self).scripthashes@[k].history@, txhist);
            crate::history::lemma_key_round_trip(txhist);
            assert(final(self)@.scripts =~= old(self)@.stamp(set![*scripthash], txhist));
        }
        added
    }

    /// Replaces one entry by another in the history of a watched script.
    fn replace_history_entry(
        &mut self,
        scripthash: &ScriptHash,
        from: HistoryEntry,
        to: HistoryEntry,
    )
        requires
            old(self).repr_ok(),
            old(self)@.scripts.contains_key(*scripthash),
        ensures
            final(self).repr_ok(),
            final(self)@ == (StoreView {
                scripts: old(self)@.restamp(set![*scripthash], from, to),
                ..old(self)@
            }),
    {
        let k = scripthash.key();
        let mut entry = self.scripthashes.remove(&k).unwrap();
        let from_key = from.key();
        entry.history.remove(&from_key);
        entry.history.insert(to.key());
        self.scripthashes.insert(k, entry);
        proof {
            let before = old(self).scripthashes@[k].history@;
            lemma_history_view_remove(before, from);
            lemma_history_view_insert(before.remove(from.key()), to);
            crate::history::lemma_key_round_trip(to);
            assert(final(self)@.scripts =~= old(self)@.restamp(set![*scripthash], from, to));
        }
    }

    /// Takes an entry out of the history of a watched script, and stops
    /// watching the script if that leaves its history empty.
    fn remove_history_entry(&mut self, scripthash: &ScriptHash, txhist: HistoryEntry)
        requires
            old(self).repr_ok(),
            old(self)@.scripts.contains_key(*scripthash),
        ensures
            final(self).repr_ok(),
            final(self)@ == (StoreView {
                scripts: old(self)@.unstamp(set![*scripthash], txhist),
                ..old(self)@
            }),
    {
        let k = scripthash.key();
        let mut entry = self.scripthashes.remove(&k).unwrap();
        let key = txhist.key();
        entry.history.remove(&key);
        let ghost before = old(self).scripthashes@[k].history@;
        proof {
            lemma_history_view_remove(before, txhist);
            if entry.history@.is_empty() {
                assert forall|other: HistoryEntry| #[trigger]
                    history_view(before).contains(other) implies other == txhist by {
                    if other != txhist {
                        assert(entry.history@.contains(other.key()));
                    }
                }
            } else {
                let h = choose|h: EntryKey| entry.history@.contains(h);
                assert(before.contains(h));
                assert(HistoryEntry::is_key(h));
                crate::history::lemma_of_key_round_trip(h);
                assert(history_view(before).contains(HistoryEntry::of_key(h)));
                assert(HistoryEntry::of_key(h) != txhist);
            }
        }
        if !entry.history.is_empty() {
            self.scripthashes.insert(k, entry);
        }
        proof {
            assert(final(self)@.scripts =~= old(self)@.unstamp(set![*scripthash], txhist));
        }
    }

    /// Moves a transaction from one status to another in the history of
    /// every script that it touches, and lets the mempool follow.
    fn update_tx_status(&mut self, txid: &Txid, old_status: TxStatus, new_status: TxStatus)
        requires
            old(self).repr_ok(),
            old(self)@.transactions.contains_key(*txid),
            forall|sh: ScriptHash| #[trigger]
                old(self)@.transactions[*txid].touches(sh) ==> old(self)@.scripts.contains_key(sh),
        ensures
            final(self).repr_ok(),
            final(self)@ == (StoreView {
                scripts: old(self)@.restamp(
                    old(self)@.transactions[*txid].scripthashes(),
                    HistoryEntry { txid: *txid, status: old_status },
                    HistoryEntry { txid: *txid, status: new_status },
                ),
                mempool: if old_status is Unconfirmed {
                    old(self)@.mempool.remove(*txid)
                } else if new_status is Unconfirmed {
                    old(self)@.mempool.insert(*txid, None)
                } else {
                    old(self)@.mempool
                },
                ..old(self)@
            }),
    {
        let k = txid.key();
        let shs = self.transactions.get(&k).unwrap().scripthashes();
        let old_txhist = HistoryEntry::new(*txid, old_status);
        let new_txhist = HistoryEntry::new(*txid, new_status);
        let ghost before = self@;
        let ghost touched = before.transactions[*txid].scripthashes();
        let mut i: usize = 0;
        proof {
            assert(shs@.take(0).to_set() =~= Set::<ScriptHash>::empty());
            assert(before.scripts =~= before.restamp(
                Set::<ScriptHash>::empty(),
                old_txhist,
                new_txhist,
            ));
        }
        while i < shs.len()
            invariant
                i <= shs.len(),
                shs@.no_duplicates(),
                shs@.to_set() == touched,
                forall|sh: ScriptHash| #[trigger]
                    touched.contains(sh) ==> before.scripts.contains_key(sh),
                self.repr_ok(),
                self@ == (StoreView {
                    scripts: before.restamp(shs@.take(i as int).to_set(), old_txhist, new_txhist),
                    ..before
                }),
            decreases shs.len() - i,
        {
            let sh = shs[i];
            proof {
                lemma_take_next_to_set(shs@, i as int);
                assert(touched.contains(sh));
            }
            self.replace_history_entry(&sh, old_txhist, new_txhist);
            proof {
                assert(self@.scripts =~= before.restamp(
                    shs@.take(i + 1).to_set(),
                    old_txhist,
                    new_txhist,
                ));
            }
            i += 1;
        }
        proof {
            assert(shs@.take(shs.len() as int) =~= shs@);
        }
        if old_status.is_unconfirmed() {
            self.mempool.remove(&k);
            proof {
                assert(self@.mempool =~= before.mempool.remove(*txid));
            }
        } else if new_status.is_unconfirmed() {
            self.mempool.insert(k, None);
            proof {
                assert(self@.mempool =~= before.mempool.insert(*txid, None));
            }
        }
    }

    /// Records a transaction at a status.
    ///
    /// A transaction seen for the first time is added, and joins the
    /// mempool if it is unconfirmed. A known transaction whose status
    /// differs moves to the new status in the history of every script that
    /// it touches; it leaves the mempool when it was unconfirmed and joins
    /// it when it becomes unconfirmed. A conflicted transaction is never
    /// recorded: it is purged.
    pub fn upsert_tx(&mut self, txid: &Txid, status: TxStatus) -> (changed: bool)
        requires
            old(self).wf(),
            status.is_viable(),
        ensures
            final(self).wf(),
            final(self)@ == old(self)@.upsert_tx(*txid, status),
            changed == old(self)@.upsert_changes(*txid, status),
            final(self)@.transactions.contains_key(*txid),
            final(self)@.transactions[*txid].status == status,
            final(self)@.mempool.contains_key(*txid) == (status is Unconfirmed),
    {
        let k = txid.key();
        let current = self.get_tx_status(txid);
        proof {
            lemma_upsert_tx_consistent(old(self)@, *txid, status);
        }
        match current {
            None => {
                self.transactions.insert(k, TxEntry::new(status));
                proof {
                    assert(self@.transactions =~= old(self)@.transactions.insert(
                        *txid,
                        TxEntryView::fresh(status),
                    ));
                }
                if status.is_unconfirmed() {
                    self.mempool.insert(k, None);
                    proof {
                        assert(self@.mempool =~= old(self)@.mempool.insert(*txid, None));
                    }
                }
                true
            },
            Some(old_status) => {
                if old_status == status {
                    false
                } else {
                    let mut entry = self.transactions.remove(&k).unwrap();
                    let ghost tx = entry@;
                    entry.status = status;
                    self.transactions.insert(k, entry);
                    proof {
                        assert(self@.transactions =~= old(self)@.transactions.insert(
                            *txid,
                            TxEntryView { status, ..tx },
                        ));
                        lemma_touches_ignores_status(tx, self@.transactions[*txid]);
                        assert forall|sh: ScriptHash| #[trigger]
                            self@.transactions[*txid].touches(sh) implies self@.scripts.contains_key(
                            sh,
                        ) by {
                            assert(old(self)@.transactions[*txid].touches(sh));
                        }
                    }
                    self.update_tx_status(txid, old_status, status);
                    true
                }
            },
        }
    }

    /// Records one output that the wallet owns. The transaction is known
    /// by now, and the script that the output pays to is watched: a caller
    /// that holds the address can have the script watched on the way, with
    /// `index_address_history`.
    ///
    /// An output index that is recorded already stays as it is. A new one
    /// is recorded, and the transaction enters the history of the script.
    pub fn index_tx_output_funding(&mut self, txid: &Txid, vout: u32, funding_info: FundingInfo)
        -> (added: bool)
        requires
            old(self).wf(),
            old(self)@.transactions.contains_key(*txid),
            old(self)@.scripts.contains_key(funding_info.0),
        ensures
            final(self).wf(),
            final(self)@ == old(self)@.index_tx_output_funding(*txid, vout, funding_info),
            added == !old(self)@.transactions[*txid].funding.contains_key(vout),
    {
        let k = txid.key();
        proof {
            lemma_index_tx_output_funding_consistent(old(self)@, *txid, vout, funding_info);
        }
        let known = self.transactions.get(&k).unwrap().funding.contains_key(&vout);
        if known {
            false
        } else {
            let mut entry = self.transactions.remove(&k).unwrap();
            let ghost tx = entry@;
            let status = entry.status;
            entry.funding.insert(vout, funding_info);
            self.transactions.insert(k, entry);
            proof {
                assert(self@.transactions =~= old(self)@.transactions.insert(
                    *txid,
                    TxEntryView { funding: tx.funding.insert(vout, funding_info), ..tx },
                ));
            }
            self.index_history_entry(&funding_info.0, HistoryEntry::new(*txid, status));
            true
        }
    }

    /// Records the whole set of inputs of a known transaction that spend
    /// the wallet's outputs, and enters the transaction into the history of
    /// every script that it touches.
    ///
    /// What was recorded before is replaced only with `allow_overwrite`,
    /// which is for a transaction seen again with a fuller view of its
    /// inputs: the scripts touched before are still touched.
    pub fn index_tx_inputs_spending(
        &mut self,
        txid: &Txid,
        spending: HashMap<u32, SpendingInfo>,
        allow_overwrite: bool,
    )
        requires
            old(self).wf(),
            old(self)@.spending_fits(*txid, spending@, allow_overwrite),
        ensures
            final(self).wf(),
            final(self)@ == old(self)@.index_tx_inputs_spending(*txid, spending@),
    {
        let k = txid.key();
        proof {
            lemma_index_tx_inputs_spending_consistent(
                old(self)@,
                *txid,
                spending@,
                allow_overwrite,
            );
        }
        // What `allow_overwrite` permits is settled before the call.
        let _ = allow_overwrite;
        let mut entry = self.transactions.remove(&k).unwrap();
        let ghost old_tx = entry@;
        entry.spending = spending;
        let ghost new_tx = entry@;
        let status = entry.status;
        let shs = entry.scripthashes();
        self.transactions.insert(k, entry);
        let tx_hist = HistoryEntry::new(*txid, status);
        let ghost before = self@;
        proof {
            assert(before.transactions =~= old(self)@.transactions.insert(*txid, new_tx));
            assert(before.scripts == old(self)@.scripts);
            assert(shs@.take(0).to_set() =~= Set::<ScriptHash>::empty());
            assert(before.scripts =~= before.stamp(Set::<ScriptHash>::empty(), tx_hist));
            assert forall|sh: ScriptHash| #[trigger]
                new_tx.scripthashes().contains(sh) implies before.scripts.contains_key(sh) by {
                if new_tx.funds(sh) {
                    assert(old_tx.funds(sh));
                    assert(old_tx.touches(sh));
                } else {
                    let vin = choose|vin: u32| #[trigger]
                        spending@.contains_key(vin) && spending@[vin].0 == sh;
                    assert(old(self)@.scripts.contains_key(spending@[vin].0));
                }
            }
        }
        let mut i: usize = 0;
        while i < shs.len()
            invariant
                i <= shs.len(),
                shs@.no_duplicates(),
                shs@.to_set() == new_tx.scripthashes(),
                forall|sh: ScriptHash| #[trigger]
                    new_tx.scripthashes().contains(sh) ==> before.scripts.contains_key(sh),
                self.repr_ok(),
                self@ == (StoreView {
                    scripts: before.stamp(shs@.take(i as int).to_set(), tx_hist),
                    ..before
                }),
            decreases shs.len() - i,
        {
            let sh = shs[i];
            proof {
                lemma_take_next_to_set(shs@, i as int);
                assert(new_tx.scripthashes().contains(sh));
            }
            self.index_history_entry(&sh, tx_hist);
            proof {
                assert(self@.scripts =~= before.stamp(shs@.take(i + 1).to_set(), tx_hist));
            }
            i += 1;
        }
        proof {
            assert(shs@.take(shs.len() as int) =~= shs@);
            assert(self@.scripts =~= old(self)@.stamp(new_tx.scripthashes(), tx_hist));
        }
    }

    /// Forgets a transaction, as is due when the node reports it as
    /// conflicted.
    ///
    /// The transaction leaves the index and, if it was unconfirmed, the
    /// mempool. It leaves the history of every script that it touched, and
    /// a script whose history is thereby emptied is no longer watched. Of
    /// the spend edges recorded for the outputs that it spent, those that
    /// still name it as the spender are removed; one that a later spender
    /// has overwritten stays.
    pub fn purge_tx(&mut self, txid: &Txid) -> (existed: bool)
        requires
            old(self).wf(),
        ensures
            final(self).wf(),
            final(self)@ == old(self)@.purge_tx(*txid),
            existed == old(self)@.transactions.contains_key(*txid),
            !final(self)@.transactions.contains_key(*txid),
    {
        let k = txid.key();
        proof {
            lemma_purge_tx_consistent(old(self)@, *txid);
        }
        match self.transactions.remove(&k) {
            None => {
                proof {
                    assert(self@.transactions =~= old(self)@.transactions);
                }
                false
            },
            Some(old_entry) => {
                let ghost tx = old_entry@;
                proof {
                    assert(self@.transactions =~= old(self)@.transactions.remove(*txid));
                }
                if old_entry.status.is_unconfirmed() {
                    self.mempool.remove(&k);
                    proof {
                        assert(self@.mempool =~= old(self)@.mempool.remove(*txid));
                    }
                }
                let old_txhist = HistoryEntry::new(*txid, old_entry.status);
                let shs = old_entry.scripthashes();
                let ghost before = self@;
                proof {
                    assert(shs@.take(0).to_set() =~= Set::<ScriptHash>::empty());
                    assert(before.scripts =~= before.unstamp(
                        Set::<ScriptHash>::empty(),
                        old_txhist,
                    ));
                    assert forall|sh: ScriptHash| #[trigger]
                        tx.scripthashes().contains(sh) implies before.scripts.contains_key(sh) by {
                        assert(old(self)@.transactions[*txid].touches(sh));
                    }
                }
                let mut i: usize = 0;
                while i < shs.len()
                    invariant
                        i <= shs.len(),
                        shs@.no_duplicates(),
                        shs@.to_set() == tx.scripthashes(),
                        forall|sh: ScriptHash| #[trigger]
                            tx.scripthashes().contains(sh) ==> before.scripts.contains_key(sh),
                        self.repr_ok(),
                        self@ == (StoreView {
                            scripts: before.unstamp(shs@.take(i as int).to_set(), old_txhist),
                            ..before
                        }),
                    decreases shs.len() - i,
                {
                    let sh = shs[i];
                    proof {
                        lemma_take_next_to_set(shs@, i as int);
                        assert(tx.scripthashes().contains(sh));
                    }
                    self.remove_history_entry(&sh, old_txhist);
                    proof {
                        assert(self@.scripts =~= before.unstamp(
                            shs@.take(i + 1).to_set(),
                            old_txhist,
                        ));
                    }
                    i += 1;
                }
                proof {
                    assert(shs@.take(shs.len() as int) =~= shs@);
                }
                let ghost mid = self@;
                let ghost mut seen: Set<OutPoint> = Set::empty();
                proof {
                    assert(mid.txo_spends =~= mid.unspend(*txid, seen));
                }
                for info in it: old_entry.spending.values()
                    invariant
                        it.seq() == old_entry.spending.values().remaining(),
                        tx == old_entry@,
                        forall|j: int|
                            0 <= j < it.index() ==> seen.contains(#[trigger] it.seq()[j].1),
                        forall|o: OutPoint| #[trigger] seen.contains(o) ==> tx.spends_prevout(o),
                        self.repr_ok(),
                        self@ == (StoreView { txo_spends: mid.unspend(*txid, seen), ..mid }),
                {
                    let prevout_key = info.1.key();
                    let ghost current = self@;
                    let stale = match self.txo_spends.get(&prevout_key) {
                        Some(spending_input) => spending_input.txid == *txid,
                        None => false,
                    };
                    proof {
                        assert(stale == (current.txo_spends.contains_key(info.1)
                            && current.txo_spends[info.1].txid == *txid));
                    }
                    if stale {
                        self.txo_spends.remove(&prevout_key);
                        proof {
                            assert(self@.txo_spends =~= current.txo_spends.remove(info.1));
                        }
                    }
                    proof {
                        let seq = it.seq().unref();
                        assert(seq[it.index()] == *info);
                        assert(seq.to_set().contains(*info));
                        assert(old_entry.spending@.values().contains(*info));
                        let vin = choose|vin: u32| #[trigger]
                            old_entry.spending@.contains_key(vin) && old_entry.spending@[vin]
                                == *info;
                        assert(tx.spending.contains_key(vin) && tx.spending[vin].1 == info.1);
                        assert(tx.spends_prevout(info.1));
                        assert(self@.txo_spends =~= mid.unspend(*txid, seen.insert(info.1)));
                        seen = seen.insert(info.1);
                    }
                }
                proof {
                    let seq = old_entry.spending.values().remaining().unref();
                    assert forall|o: OutPoint| tx.spends_prevout(o) implies seen.contains(o) by {
                        let vin = choose|vin: u32| #[trigger]
                            tx.spending.contains_key(vin) && tx.spending[vin].1 == o;
                        assert(old_entry.spending@.values().contains(old_entry.spending@[vin]));
                        assert(seq.to_set().contains(old_entry.spending@[vin]));
                        let j = choose|j: int|
                            0 <= j < seq.len() && seq[j] == old_entry.spending@[vin];
                        assert(seen.contains(old_entry.spending.values().remaining()[j].1));
                    }
                    assert(seen =~= tx.prevouts());
                    assert(self@.txo_spends == old(self)@.unspend(*txid, tx.prevouts()));
                    assert(self@.scripts == old(self)@.unstamp(tx.scripthashes(), old_txhist));
                }
                true
            },
        }
    }

    /// Hands out the mempool, keyed by [`Txid::key`], for the caller to
    /// attach what the node told of each transaction. As long as the caller
    /// adds and removes no key, the index stays well formed.
    pub fn mempool_mut(&mut self) -> (mempool: &mut BTreeMap<HashKey, Option<MempoolEntry>>)
        requires
            old(self).wf(),
        ensures
            mempool_view(mempool@) == old(self)@.mempool,
            final(self)@ == (StoreView { mempool: mempool_view(final(mempool)@), ..old(self)@ }),
            final(mempool)@.dom() == mempool@.dom() ==> final(self).wf(),
    {
        let ghost before = self@;
        let mempool = &mut self.mempool;
        proof {
            let keys = mempool@.dom();
            assert forall|m: Map<HashKey, Option<MempoolEntry>>| m.dom() == keys implies (
            StoreView { mempool: #[trigger] mempool_view(m), ..before }).consistent() by {
                assert(mempool_view(m).dom() =~= before.mempool.dom());
                lemma_mempool_data_consistent(before, mempool_view(m));
            }
        }
        mempool
    }

    /// The history of a watched script, oldest status first: `None` for a
    /// script that is not watched.
    pub fn get_history(&self, scripthash: &ScriptHash) -> (r: Option<Vec<HistoryEntry>>)
        requires
            self.wf(),
        ensures
            r is Some <==> self@.scripts.contains_key(*scripthash),
            r matches Some(entries) ==> {
                &&& ascending(entries@)
                &&& entries@.to_set() == self@.scripts[*scripthash].history
            },
    {
        match self.scripthashes.get(&scripthash.key()) {
            Some(entry) => Some(entries_of(&entry.history)),
            None => None,
        }
    }

    /// The history of a script, oldest status first, each transaction with
    /// what the index keeps of it. A script that is not watched has none.
    pub fn get_history_txs(&self, scripthash: &ScriptHash) -> (txs: Vec<Tx>)
        requires
            self.wf(),
        ensures
            ascending(tx_entries(txs@)),
            tx_entries(txs@).to_set() == (if self@.scripts.contains_key(*scripthash) {
                self@.scripts[*scripthash].history
            } else {
                Set::empty()
            }),
            forall|i: int|
                0 <= i < txs@.len() ==> self@.transactions.contains_key((#[trigger] txs@[i]).txid)
                    && txs@[i].entry@ == self@.transactions[txs@[i].txid],
    {
        let mut txs: Vec<Tx> = Vec::new();
        let entries = match self.get_history(scripthash) {
            Some(entries) => entries,
            None => {
                proof {
                    assert(tx_entries(txs@).to_set() =~= Set::<HistoryEntry>::empty());
                }
                return txs;
            },
        };
        let mut i: usize = 0;
        while i < entries.len()
            invariant
                i <= entries.len(),
                self.wf(),
                self@.scripts.contains_key(*scripthash),
                entries@.to_set() == self@.scripts[*scripthash].history,
                txs@.len() == i,
                tx_entries(txs@) == entries@.take(i as int),
                forall|j: int|
                    0 <= j < txs@.len() ==> self@.transactions.contains_key(
                        (#[trigger] txs@[j]).txid,
                    ) && txs@[j].entry@ == self@.transactions[txs@[j].txid],
            decreases entries.len() - i,
        {
            let hist = entries[i];
            proof {
                assert(entries@.to_set().contains(hist));
                assert(self@.scripts[*scripthash].history.contains(hist));
            }
            let entry = self.transactions.get(&hist.txid.key()).unwrap().clone();
            let tx = Tx { txid: hist.txid, entry };
            proof {
                assert(tx.history_entry() == hist);
                let grown = tx_entries(txs@.push(tx));
                assert(grown.len() == i + 1);
                assert forall|j: int| 0 <= j < grown.len() implies grown[j] == entries@.take(
                    i + 1,
                )[j] by {
                    if j < i {
                        assert(txs@.push(tx)[j] == txs@[j]);
                        assert(tx_entries(txs@)[j] == entries@.take(i as int)[j]);
                    }
                }
                assert(grown =~= entries@.take(i + 1));
            }
            txs.push(tx);
            i += 1;
        }
        proof {
            assert(entries@.take(entries@.len() as int) =~= entries@);
        }
        txs
    }

    /// How many transactions the history of a script holds: zero for a
    /// script that is not watched.
    pub fn get_tx_count(&self, scripthash: &ScriptHash) -> (count: usize)
        requires
            self.wf(),
        ensures
            count == (if self@.scripts.contains_key(*scripthash) {
                self@.scripts[*scripthash].history.len()
            } else {
                0
            }),
            self@.scripts.contains_key(*scripthash) ==> self@.scripts[*scripthash].history.finite(),
    {
        match self.scripthashes.get(&scripthash.key()) {
            Some(entry) => {
                proof {
                    let seq = entry.history.iter().remaining();
                    vstd::seq_lib::seq_to_set_is_finite(seq.unref());
                    lemma_history_view_len(entry.history@);
                }
                entry.history.len()
            },
            None => 0,
        }
    }

    /// Every history entry, of whatever script, that is unconfirmed or
    /// confirmed at `min_block_height` or above: each once, in ascending
    /// order.
    pub fn get_history_since(&self, min_block_height: u32) -> (entries: Vec<HistoryEntry>)
        requires
            self.wf(),
        ensures
            ascending(entries@),
            entries@.to_set() == self@.history_since(min_block_height),
    {
        let floor: u64 = min_block_height as u64 + 2;
        let mut found: BTreeSet<EntryKey> = BTreeSet::new();
        for script_entry in scripts: self.scripthashes.values()
            invariant
                scripts.seq() == self.scripthashes.values().remaining(),
                self.repr_ok(),
                floor == min_block_height + 2,
                forall|h: EntryKey| #[trigger]
                    found@.contains(h) ==> HistoryEntry::is_key(h) && (h.0 == 1 || h.0 >= floor)
                        && exists|k: HashKey| #[trigger]
                        self.scripthashes@.contains_key(k) && self.scripthashes@[k].history@.contains(
                            h,
                        ),
                forall|j: int, h: EntryKey|
                    0 <= j < scripts.index() && #[trigger] scripts.seq()[j].history@.contains(h)
                        && (h.0 == 1 || h.0 >= floor) ==> found@.contains(h),
        {
            let ghost k: HashKey;
            proof {
                let seq = scripts.seq().unref();
                assert(seq[scripts.index()] == *script_entry);
                assert(seq.to_set().contains(*script_entry));
                assert(self.scripthashes@.values().contains(*script_entry));
                k = choose|k: HashKey| #[trigger]
                    self.scripthashes@.contains_key(k) && self.scripthashes@[k] == *script_entry;
            }
            for key in keys: script_entry.history.iter()
                invariant
                    keys.seq() == script_entry.history.iter().remaining(),
                    self.scripthashes@.contains_key(k) && self.scripthashes@[k] == *script_entry,
                    self.repr_ok(),
                    floor == min_block_height + 2,
                    forall|h: EntryKey| #[trigger]
                        found@.contains(h) ==> HistoryEntry::is_key(h) && (h.0 == 1 || h.0
                            >= floor) && exists|k: HashKey| #[trigger]
                            self.scripthashes@.contains_key(k)
                                && self.scripthashes@[k].history@.contains(h),
                    forall|j: int, h: EntryKey|
                        0 <= j < scripts.index() && #[trigger] scripts.seq()[j].history@.contains(
                            h,
                        ) && (h.0 == 1 || h.0 >= floor) ==> found@.contains(h),
                    forall|j: int|
                        0 <= j < keys.index() && ((#[trigger] keys.seq()[j]).0 == 1
                            || keys.seq()[j].0 >= floor) ==> found@.contains(*keys.seq()[j]),
            {
                proof {
                    let seq = keys.seq().unref();
                    assert(seq[keys.index()] == *key);
                    assert(seq.to_set().contains(*key));
                    assert(script_entry.history@.contains(*key));
                }
                if key.0 == 1 || key.0 >= floor {
                    found.insert(*key);
                }
            }
            proof {
                let seq = script_entry.history.iter().remaining();
                assert forall|h: EntryKey|
                    script_entry.history@.contains(h) && (h.0 == 1 || h.0
                        >= floor) implies found@.contains(h) by {
                    assert(seq.unref().to_set().contains(h));
                    let j = choose|j: int| 0 <= j < seq.unref().len() && seq.unref()[j] == h;
                    assert(*seq[j] == h);
                }
            }
        }
        let entries = entries_of(&found);
        proof {
            let seq = self.scripthashes.values().remaining();
            let wanted = self@.history_since(min_block_height);
            assert forall|e: HistoryEntry| history_view(found@).contains(e) == wanted.contains(
                e,
            ) by {
                lemma_key_round_trip(e);
                if history_view(found@).contains(e) {
                    let k = choose|k: HashKey| #[trigger]
                        self.scripthashes@.contains_key(k)
                            && self.scripthashes@[k].history@.contains(e.key());
                    let sh = ScriptHash::of_key(k);
                    assert(self@.scripts.contains_key(sh) && self@.scripts[sh].history.contains(e));
                }
                if wanted.contains(e) {
                    let sh = choose|sh: ScriptHash| #[trigger]
                        self@.scripts.contains_key(sh) && self@.scripts[sh].history.contains(e);
                    let script_entry = self.scripthashes@[sh.key()];
                    assert(self.scripthashes@.values().contains(script_entry));
                    assert(seq.unref().to_set().contains(script_entry));
                    let j = choose|j: int|
                        0 <= j < seq.unref().len() && seq.unref()[j] == script_entry;
                    assert(seq[j].history@.contains(e.key()));
                }
            }
            assert(history_view(found@) =~= wanted);
        }
        entries
    }

    /// How many transactions and how many scripts the index holds.
    pub fn stats(&self) -> (stats: StoreStats)
        requires
            self.wf(),
        ensures
            stats.transaction_count == self@.transactions.len(),
            stats.scripthash_count == self@.scripts.len(),
            self@.transactions.dom().finite(),
            self@.scripts.dom().finite(),
    {
        proof {
            let tx_keys = self.transactions@.dom();
            let f = |k: HashKey| Txid::of_key(k);
            assert(tx_keys.map(f) =~= self@.transactions.dom()) by {
                assert forall|t: Txid| tx_keys.map(f).contains(t) == self@.transactions.dom().contains(
                    t,
                ) by {
                    if self@.transactions.dom().contains(t) {
                        assert(tx_keys.contains(t.key()) && f(t.key()) == t);
                    }
                }
            }
            vstd::set_lib::lemma_map_size(tx_keys, self@.transactions.dom(), f);
            let sh_keys = self.scripthashes@.dom();
            let g = |k: HashKey| ScriptHash::of_key(k);
            assert(sh_keys.map(g) =~= self@.scripts.dom()) by {
                assert forall|sh: ScriptHash| sh_keys.map(g).contains(sh)
                    == self@.scripts.dom().contains(sh) by {
                    if self@.scripts.dom().contains(sh) {
                        assert(sh_keys.contains(sh.key()) && g(sh.key()) == sh);
                    }
                }
            }
            vstd::set_lib::lemma_map_size(sh_keys, self@.scripts.dom(), g);
        }
        StoreStats {
            transaction_count: self.transactions.len(),
            scripthash_count: self.scripthashes.len(),
        }
    }

    /// Whether the script is watched.
    pub fn has_history(&self, scripthash: &ScriptHash) -> (r: bool)
        ensures
            r == self@.scripts.contains_key(*scripthash),
    {
        self.scripthashes.contains_key(&scripthash.key())
    }

    /// The status of a transaction, where it is known.
    pub fn get_tx_status(&self, txid: &Txid) -> (r: Option<TxStatus>)
        ensures
            r == (if self@.transactions.contains_key(*txid) {
                Some(self@.transactions[*txid].status)
            } else {
                None
            }),
    {
        match self.transactions.get(&txid.key()) {
            Some(entry) => Some(entry.status),
            None => None,
        }
    }

    /// What the index keeps of a transaction, where it is known.
    pub fn get_tx_entry(&self, txid: &Txid) -> (r: Option<&TxEntry>)
        ensures
            r is Some <==> self@.transactions.contains_key(*txid),
            r matches Some(entry) ==> entry@ == self@.transactions[*txid],
    {
        self.transactions.get(&txid.key())
    }

    /// What the node told of a mempool transaction: `None` for a
    /// transaction outside the mempool and for one of which nothing was
    /// told yet.
    pub fn get_mempool_entry(&self, txid: &Txid) -> (r: Option<MempoolEntry>)
        ensures
            r == (if self@.mempool.contains_key(*txid) {
                self@.mempool[*txid]
            } else {
                None
            }),
    {
        match self.mempool.get(&txid.key()) {
            Some(entry) => *entry,
            None => None,
        }
    }

    /// The script and value of an owned output.
    pub fn lookup_txo_fund(&self, outpoint: &OutPoint) -> (r: Option<FundingInfo>)
        ensures
            r == (if self@.transactions.contains_key(outpoint.txid)
                && self@.transactions[outpoint.txid].funding.contains_key(outpoint.vout) {
                Some(self@.transactions[outpoint.txid].funding[outpoint.vout])
            } else {
                None
            }),
    {
        match self.transactions.get(&outpoint.txid.key()) {
            Some(entry) => match entry.funding.get(&outpoint.vout) {
                Some(info) => Some(*info),
                None => None,
            },
            None => None,
        }
    }

    /// The input that spends an output, where one was recorded.
    pub fn lookup_txo_spend(&self, outpoint: &OutPoint) -> (r: Option<InPoint>)
        ensures
            r == (if self@.txo_spends.contains_key(*outpoint) {
                Some(self@.txo_spends[*outpoint])
            } else {
                None
            }),
    {
        match self.txo_spends.get(&outpoint.key()) {
            Some(inpoint) => Some(*inpoint),
            None => None,
        }
    }

    /// Records that `spending_input` spends `spent_prevout`. An edge that
    /// was recorded for the same output before is overwritten.
    pub fn index_txo_spend(&mut self, spent_prevout: OutPoint, spending_input: InPoint) -> (
        was_unspent: bool)
        requires
            old(self).wf(),
        ensures
            final(self).wf(),
            final(self)@ == old(self)@.index_txo_spend(spent_prevout, spending_input),
            was_unspent == !old(self)@.txo_spends.contains_key(spent_prevout),
    {
        let previous = self.txo_spends.insert(spent_prevout.key(), spending_input);
        proof {
            assert(final(self)@.txo_spends =~= old(self)@.txo_spends.insert(
                spent_prevout,
                spending_input,
            ));
            lemma_index_txo_spend_consistent(old(self)@, spent_prevout, spending_input);
        }
        previous.is_none()
    }

    /// The address of a watched script.
    pub fn get_script_address(&self, scripthash: &ScriptHash) -> (r: Option<Address>)
        ensures
            r is Some <==> self@.scripts.contains_key(*scripthash),
            r matches Some(address) ==> address@ == self@.scripts[*scripthash].address,
    {
        match self.scripthashes.get(&scripthash.key()) {
            Some(entry) => Some(entry.address.clone()),
            None => None,
        }
    }

    /// A watched script as callers see it, without descriptor data.
    pub fn get_script_info(&self, scripthash: &ScriptHash) -> (r: Option<ScriptInfo>)
        ensures
            r is Some <==> self@.scripts.contains_key(*scripthash),
            r matches Some(info) ==> {
                &&& info.scripthash == *scripthash
                &&& info.address@ == self@.scripts[*scripthash].address
                &&& info.origin == self@.scripts[*scripthash].origin
                &&& info.desc is None
                &&& info.bip32_origins is None
            },
    {
        match self.scripthashes.get(&scripthash.key()) {
            Some(entry) => Some(ScriptInfo::from_entry(*scripthash, entry)),
            None => None,
        }
    }
}

impl ScriptInfo {
    /// A script derived from a descriptor, with the descriptor and the
    /// origins of its keys.
    pub fn from_desc(
        origin: KeyOrigin,
        address: Address,
        desc: String,
        bip32_origins: Vec<Bip32Origin>,
    ) -> (info: ScriptInfo)
        ensures
            info.scripthash == ScriptHash::of_script(address@.script),
            info.address == address,
            info.origin == origin,
            info.desc == Some(desc),
            info.bip32_origins == Some(bip32_origins),
    {
        ScriptInfo {
            scripthash: ScriptHash::from_address(&address),
            address,
            origin,
            desc: Some(desc),
            bip32_origins: Some(bip32_origins),
        }
    }

    /// A script known by its address alone.
    pub fn from_address(address: Address, origin: KeyOrigin) -> (info: ScriptInfo)
        ensures
            info.scripthash == ScriptHash::of_script(address@.script),
            info.address == address,
            info.origin == origin,
            info.desc is None,
            info.bip32_origins is None,
    {
        ScriptInfo {
            scripthash: ScriptHash::from_address(&address),
            address,
            origin,
            desc: None,
            bip32_origins: None,
        }
    }

    fn from_entry(scripthash: ScriptHash, script_entry: &ScriptEntry) -> (info: ScriptInfo)
        ensures
            info.scripthash == scripthash,
            info.address@ == script_entry.address@,
            info.origin == script_entry.origin,
            info.desc is None,
            info.bip32_origins is None,
    {
        ScriptInfo {
            scripthash,
            address: script_entry.address.clone(),
            origin: script_entry.origin,
            desc: None,
            bip32_origins: None,
        }
    }
}

} // verus!
