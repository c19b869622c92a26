//! History entries and their order.

use crate::status::TxStatus;
use crate::types::Txid;
use std::cmp::Ordering;
use vstd::prelude::*;
use vstd::std_specs::cmp::PartialOrdSpecImpl;

verus! {

/// One line of a script's history: a transaction and its status.
///
/// Entries are ordered by status first and by transaction identifier
/// second, so that no two different entries tie.
#[derive(Clone, Copy, Debug, PartialEq, Eq, Structural, Hash, Ord)]
pub struct HistoryEntry {
    pub status: TxStatus,
    pub txid: Txid,
}

/// Whether key `a` sorts strictly before key `b`.
pub open spec fn key_precedes(a: (u64, (u128, u128)), b: (u64, (u128, u128))) -> bool {
    a.0 < b.0 || (a.0 == b.0 && (a.1.0 < b.1.0 || (a.1.0 == b.1.0 && a.1.1 < b.1.1)))
}

impl HistoryEntry {
    pub fn new(txid: Txid, status: TxStatus) -> (entry: HistoryEntry)
        ensures
            entry == (HistoryEntry { txid, status }),
    {
        HistoryEntry { txid, status }
    }

    /// The triple under which the entry is stored and ordered: the rank of
    /// its status, then the two halves of its transaction identifier.
    pub open spec fn spec_key(&self) -> (u64, (u128, u128)) {
        (self.status.rank(), self.txid.key())
    }

    #[verifier::when_used_as_spec(spec_key)]
    pub fn key(&self) -> (k: (u64, (u128, u128)))
        ensures
            k == self.spec_key(),
    {
        (self.status.rank(), self.txid.key())
    }

    /// The entry stored under `k`, for a key that some entry has.
    pub open spec fn of_key(k: (u64, (u128, u128))) -> HistoryEntry {
        HistoryEntry { status: TxStatus::of_rank(k.0), txid: Txid::of_key(k.1) }
    }

    /// Whether some entry has this key.
    pub open spec fn is_key(k: (u64, (u128, u128))) -> bool {
        TxStatus::is_rank(k.0)
    }

    /// Rebuilds the entry stored under `k`.
    pub fn from_key(k: (u64, (u128, u128))) -> (entry: HistoryEntry)
        requires
            Self::is_key(k),
        ensures
            entry == Self::of_key(k),
            entry.key() == k,
    {
        let status = if k.0 == 0 {
            TxStatus::Conflicted
        } else if k.0 == 1 {
            TxStatus::Unconfirmed
        } else {
            TxStatus::Confirmed((k.0 - 2) as u32)
        };
        HistoryEntry { status, txid: Txid(crate::types::Hash256 { hi: k.1.0, lo: k.1.1 }) }
    }

    /// Whether this entry sorts strictly before `other`.
    pub open spec fn precedes(&self, other: &HistoryEntry) -> bool {
        key_precedes(self.key(), other.key())
    }
}

/// Whether a list of entries is in strictly ascending order.
pub open spec fn ascending(entries: Seq<HistoryEntry>) -> bool {
    forall|i: int, j: int| 0 <= i < j < entries.len() ==> entries[i].precedes(&entries[j])
}

impl PartialOrd for HistoryEntry {
    fn partial_cmp(&self, other: &HistoryEntry) -> (r: Option<Ordering>) {
        let a = self.key();
        let b = other.key();
        if a.0 < b.0 {
            Some(Ordering::Less)
        } else if a.0 > b.0 {
            Some(Ordering::Greater)
        } else if a.1.0 < b.1.0 {
            Some(Ordering::Less)
        } else if a.1.0 > b.1.0 {
            Some(Ordering::Greater)
        } else if a.1.1 < b.1.1 {
            Some(Ordering::Less)
        } else if a.1.1 > b.1.1 {
            Some(Ordering::Greater)
        } else {
            Some(Ordering::Equal)
        }
    }
}

impl PartialOrdSpecImpl for HistoryEntry {
    open spec fn obeys_partial_cmp_spec() -> bool {
        true
    }

    open spec fn partial_cmp_spec(&self, other: &HistoryEntry) -> Option<Ordering> {
        if self.precedes(other) {
            Some(Ordering::Less)
        } else if other.precedes(self) {
            Some(Ordering::Greater)
        } else {
            Some(Ordering::Equal)
        }
    }
}

/// An entry is found again from its key: different entries have different
/// keys.
pub proof fn lemma_key_round_trip(entry: HistoryEntry)
    ensures
        HistoryEntry::is_key(entry.key()),
        HistoryEntry::of_key(entry.key()) == entry,
{
}

/// Every key that some entry has is the key of the entry rebuilt from it.
pub proof fn lemma_of_key_round_trip(k: (u64, (u128, u128)))
    requires
        HistoryEntry::is_key(k),
    ensures
        HistoryEntry::of_key(k).key() == k,
{
}

/// The order of entries is total and strict: of two different entries
/// exactly one precedes the other, and none precedes itself.
pub proof fn lemma_precedes_total(a: HistoryEntry, b: HistoryEntry)
    ensures
        !a.precedes(&a),
        a != b ==> (a.precedes(&b) <==> !b.precedes(&a)),
        a == b ==> !a.precedes(&b),
{
    lemma_key_round_trip(a);
    lemma_key_round_trip(b);
}

/// The order of entries is transitive.
pub proof fn lemma_precedes_transitive(a: HistoryEntry, b: HistoryEntry, c: HistoryEntry)
    requires
        a.precedes(&b),
        b.precedes(&c),
    ensures
        a.precedes(&c),
{
}

/// Entries sort by status first: a lower status precedes a higher one
/// whatever the transactions are, and equal statuses fall back on the
/// transaction identifier.
pub proof fn lemma_precedes_by_status(a: HistoryEntry, b: HistoryEntry)
    ensures
        a.status.rank() < b.status.rank() ==> a.precedes(&b),
        a.status == b.status ==> (a.precedes(&b) <==> key_precedes(
            (0, a.txid.key()),
            (0, b.txid.key()),
        )),
{
}

} // verus!
