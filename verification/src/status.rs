//! Confirmation status of a transaction and the order that histories follow.

use std::cmp::Ordering;
use vstd::prelude::*;
use vstd::std_specs::cmp::PartialOrdSpecImpl;

verus! {

/// Where a transaction stands with respect to the best chain.
///
/// Statuses are ordered `Conflicted < Unconfirmed < Confirmed(h)`, and two
/// confirmed statuses by ascending height.
#[derive(Clone, Copy, Debug, PartialEq, Eq, Structural, Hash, Ord)]
pub enum TxStatus {
    /// Conflicts with the best chain: double spent or evicted.
    Conflicted,
    /// Waiting in the mempool.
    Unconfirmed,
    /// Mined in the block at this height.
    Confirmed(u32),
}

/// The status that a confirmation count stands for at a given tip height:
/// a positive count `c` at tip `h` is a confirmation in block `h - c + 1`,
/// zero is the mempool, a negative count is a conflict.
pub open spec fn classify(confirmations: int, tip_height: int) -> TxStatus {
    if confirmations > 0 {
        TxStatus::Confirmed((tip_height - confirmations + 1) as u32)
    } else if confirmations == 0 {
        TxStatus::Unconfirmed
    } else {
        TxStatus::Conflicted
    }
}

impl TxStatus {
    /// Position of the status in the order of statuses.
    pub open spec fn spec_rank(&self) -> u64 {
        match *self {
            TxStatus::Conflicted => 0,
            TxStatus::Unconfirmed => 1,
            TxStatus::Confirmed(height) => (height + 2) as u64,
        }
    }

    #[verifier::when_used_as_spec(spec_rank)]
    pub fn rank(&self) -> (r: u64)
        ensures
            r == self.spec_rank(),
    {
        match *self {
            TxStatus::Conflicted => 0,
            TxStatus::Unconfirmed => 1,
            TxStatus::Confirmed(height) => height as u64 + 2,
        }
    }

    /// The status at a given rank, for ranks that some status has.
    pub open spec fn of_rank(rank: u64) -> TxStatus {
        if rank == 0 {
            TxStatus::Conflicted
        } else if rank == 1 {
            TxStatus::Unconfirmed
        } else {
            TxStatus::Confirmed((rank - 2) as u32)
        }
    }

    /// Whether some status has this rank.
    pub open spec fn is_rank(rank: u64) -> bool {
        rank <= 0x1_0000_0001
    }

    /// Classifies a transaction by the confirmation count that the node
    /// reported while its tip was at `tip_height`.
    ///
    /// A transaction cannot have more confirmations than the chain has
    /// blocks, so a positive count is at most `tip_height + 1`.
    pub fn new(confirmations: i64, tip_height: u32) -> (status: TxStatus)
        requires
            confirmations <= tip_height + 1,
        ensures
            status == classify(confirmations as int, tip_height as int),
            confirmations > 0 ==> status is Confirmed && tip_height - status->Confirmed_0 + 1
                == confirmations,
            confirmations == 0 <==> status is Unconfirmed,
            confirmations < 0 <==> status is Conflicted,
    {
        if confirmations > 0 {
            let below: u32 = (confirmations - 1) as u32;
            TxStatus::Confirmed(tip_height - below)
        } else if confirmations == 0 {
            TxStatus::Unconfirmed
        } else {
            TxStatus::Conflicted
        }
    }

    /// Classifies like [`TxStatus::new`] where the count is possible at this
    /// tip height, and gives `None` where it is not.
    pub fn checked_new(confirmations: i64, tip_height: u32) -> (status: Option<TxStatus>)
        ensures
            status == (if confirmations <= tip_height + 1 {
                Some(classify(confirmations as int, tip_height as int))
            } else {
                None
            }),
    {
        if confirmations <= tip_height as i64 + 1 {
            Some(TxStatus::new(confirmations, tip_height))
        } else {
            None
        }
    }

    /// Height as the Electrum protocol reports it: the block height of a
    /// confirmed transaction, zero for one in the mempool.
    pub fn electrum_height(&self) -> (height: u32)
        requires
            !(*self is Conflicted),
        ensures
            height == (match *self {
                TxStatus::Confirmed(h) => h,
                _ => 0,
            }),
    {
        match self {
            TxStatus::Confirmed(height) => *height,
            _ => 0,
        }
    }

    /// Whether the transaction may be indexed: conflicted ones may not.
    pub open spec fn spec_is_viable(&self) -> bool {
        !(*self is Conflicted)
    }

    #[verifier::when_used_as_spec(spec_is_viable)]
    pub fn is_viable(&self) -> (r: bool)
        ensures
            r == self.spec_is_viable(),
    {
        match self {
            TxStatus::Confirmed(_) | TxStatus::Unconfirmed => true,
            TxStatus::Conflicted => false,
        }
    }

    /// Whether the transaction is in the mempool, or confirmed at
    /// `min_block_height` or above.
    pub open spec fn is_since(&self, min_block_height: u32) -> bool {
        match *self {
            TxStatus::Confirmed(height) => height >= min_block_height,
            TxStatus::Unconfirmed => true,
            TxStatus::Conflicted => false,
        }
    }

    pub fn is_confirmed(&self) -> (r: bool)
        ensures
            r == (*self is Confirmed),
    {
        match self {
            TxStatus::Confirmed(_) => true,
            TxStatus::Unconfirmed | TxStatus::Conflicted => false,
        }
    }

    pub fn is_unconfirmed(&self) -> (r: bool)
        ensures
            r == (*self is Unconfirmed),
    {
        match self {
            TxStatus::Unconfirmed => true,
            TxStatus::Confirmed(_) | TxStatus::Conflicted => false,
        }
    }
}

impl PartialOrd for TxStatus {
    fn partial_cmp(&self, other: &TxStatus) -> (r: Option<Ordering>) {
        let a = self.rank();
        let b = other.rank();
        if a < b {
            Some(Ordering::Less)
        } else if a == b {
            Some(Ordering::Equal)
        } else {
            Some(Ordering::Greater)
        }
    }
}

impl PartialOrdSpecImpl for TxStatus {
    open spec fn obeys_partial_cmp_spec() -> bool {
        true
    }

    open spec fn partial_cmp_spec(&self, other: &TxStatus) -> Option<Ordering> {
        if self.rank() < other.rank() {
            Some(Ordering::Less)
        } else if self.rank() == other.rank() {
            Some(Ordering::Equal)
        } else {
            Some(Ordering::Greater)
        }
    }
}

/// A status is found again from its rank, so the rank orders statuses
/// without ties.
pub proof fn lemma_rank_round_trip(status: TxStatus)
    ensures
        TxStatus::is_rank(status.rank()),
        TxStatus::of_rank(status.rank()) == status,
{
}

/// Every rank up to the highest belongs to exactly one status.
pub proof fn lemma_of_rank_round_trip(rank: u64)
    requires
        TxStatus::is_rank(rank),
    ensures
        TxStatus::of_rank(rank).rank() == rank,
{
}

/// The order of statuses: a conflict sorts lowest, then the mempool, then
/// confirmations by ascending height.
pub proof fn lemma_status_order(a: u32, b: u32)
    ensures
        TxStatus::Conflicted.rank() < TxStatus::Unconfirmed.rank(),
        TxStatus::Unconfirmed.rank() < TxStatus::Confirmed(a).rank(),
        a < b <==> TxStatus::Confirmed(a).rank() < TxStatus::Confirmed(b).rank(),
{
}

/// Classifying a positive confirmation count gives a height from which the
/// count is found again: with `c > 0` confirmations at tip `h`, the status
/// is `Confirmed(x)` with `h - x + 1 == c`.
pub proof fn lemma_classify_round_trip(confirmations: int, tip_height: u32)
    requires
        0 < confirmations <= tip_height + 1,
    ensures
        classify(confirmations, tip_height as int) is Confirmed,
        tip_height - classify(confirmations, tip_height as int)->Confirmed_0 + 1 == confirmations,
{
}

} // verus!
