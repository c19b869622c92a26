//! Walking the node's transaction feed page by page, and routing its rows
//! into the index.
//!
//! The node is asked for pages of growing size. After each page the caller
//! reports what came back, together with the block that the node then held
//! as its best, and is told whether to start over, to go on, or to stop.

use crate::model::{
    lemma_index_scripthash_consistent, lemma_index_tx_output_funding_consistent, FundingInfo,
    StoreView,
};
use crate::status::{classify, TxStatus};
use crate::store::MemoryStore;
use crate::types::{Address, BlockHash, KeyOrigin, ScriptHash, Txid};
use vstd::prelude::*;

verus! {

/// One row of the node's transaction feed: one output of one transaction
/// that pays to an address of the wallet.
#[derive(Clone, Debug)]
pub struct TxRecord {
    pub txid: Txid,
    pub address: Address,
    /// Where the address comes from, as its label tells.
    pub origin: KeyOrigin,
    /// Whether rows of this category are indexed at all.
    pub eligible: bool,
    /// As the node counts them: zero in the mempool, negative in conflict.
    pub confirmations: i64,
    pub vout: u32,
    pub amount: u64,
}

/// One output of a transaction that the node was asked about by name.
#[derive(Clone, Debug)]
pub struct TxDetail {
    pub address: Address,
    /// Where the address comes from, as its label tells.
    pub origin: KeyOrigin,
    /// Whether details of this category are indexed at all.
    pub eligible: bool,
    pub vout: u32,
    pub amount: u64,
}

/// What the node tells of one transaction asked about by name.
#[derive(Clone, Debug)]
pub struct TxReport {
    pub txid: Txid,
    /// As the node counts them: zero in the mempool, negative in conflict.
    pub confirmations: i64,
    pub details: Vec<TxDetail>,
}

/// What identifies a row when two pages are held against each other.
pub open spec fn marker(row: TxRecord) -> (Txid, Seq<char>) {
    (row.txid, row.address@.text)
}

/// What to do after a page.
#[derive(Clone, Copy, Debug, PartialEq, Eq, Structural)]
pub enum PageVerdict {
    /// The chain or the feed moved under the walk: start over.
    Restart,
    /// Apply the rows and ask for the next page.
    More,
    /// Apply the rows and stop.
    Done,
}

/// Mathematical value of a [`SyncCursor`].
pub struct CursorView {
    /// Rows to ask for.
    pub per_page: usize,
    /// Rows to skip.
    pub start_index: usize,
    /// The last row that was applied, which the next page ends with.
    pub oldest_seen: Option<(Txid, Seq<char>)>,
    /// Height and hash of the tip that the walk started under.
    pub tip_height: u32,
    pub tip_hash: BlockHash,
    /// Transactions confirmed below this height are of no interest.
    pub start_height: u32,
}

impl CursorView {
    /// A page holds at least one row, and the walk skips fewer rows than it
    /// asks for.
    pub open spec fn wf(self) -> bool {
        self.start_index < self.per_page
    }

    /// The walk before its first page.
    pub open spec fn begin(
        per_page: usize,
        start_height: u32,
        tip_height: u32,
        tip_hash: BlockHash,
    ) -> CursorView {
        CursorView {
            per_page,
            start_index: 0,
            oldest_seen: None,
            tip_height,
            tip_hash,
            start_height,
        }
    }

    /// Whether the last row of the page fails to repeat the last row
    /// applied before.
    pub open spec fn overlap_broken(self, page: Seq<TxRecord>) -> bool {
        self.oldest_seen matches Some(seen) && (page.len() == 0 || marker(page.last()) != seen)
    }

    /// The rows of the page that are to be applied: all of the first page,
    /// all but the repeated last row of a later one.
    pub open spec fn rows(self, page: Seq<TxRecord>) -> Seq<TxRecord> {
        if self.oldest_seen is Some && page.len() > 0 {
            page.drop_last()
        } else {
            page
        }
    }

    /// Whether a row is confirmed below the height of interest.
    pub open spec fn below_floor(self, row: TxRecord) -> bool {
        row.confirmations > 0 && self.tip_height - row.confirmations + 1 < self.start_height
    }

    /// Whether the page is the last one: it came back short, or the last
    /// row to apply is confirmed below the height of interest.
    pub open spec fn exhausted(self, page: Seq<TxRecord>) -> bool {
        page.len() < self.per_page || (self.rows(page).len() > 0 && self.below_floor(
            self.rows(page).last(),
        ))
    }

    /// What to do after `page` came back while the node's best block was
    /// `best_block`.
    pub open spec fn verdict(self, page: Seq<TxRecord>, best_block: BlockHash) -> PageVerdict {
        if self.tip_hash != best_block || self.overlap_broken(page) {
            PageVerdict::Restart
        } else if self.exhausted(page) {
            PageVerdict::Done
        } else {
            PageVerdict::More
        }
    }

    /// The walk after `page`: unchanged where it has to start over; else
    /// it remembers the last row applied and, where it goes on, skips all
    /// but one of the rows asked for so far and asks for twice as many.
    pub open spec fn advance(self, page: Seq<TxRecord>, best_block: BlockHash) -> CursorView {
        let rows = self.rows(page);
        let seen = if rows.len() > 0 {
            Some(marker(rows.last()))
        } else {
            self.oldest_seen
        };
        match self.verdict(page, best_block) {
            PageVerdict::Restart => self,
            PageVerdict::Done => CursorView { oldest_seen: seen, ..self },
            PageVerdict::More => CursorView {
                oldest_seen: seen,
                start_index: (self.start_index + self.per_page - 1) as usize,
                per_page: (self.per_page * 2) as usize,
                ..self
            },
        }
    }
}

/// How often a walk through the feed, or a listing, may still start over
/// before the caller gives up on a node that does not come to rest.
#[derive(Clone, Copy, Debug)]
pub struct Retries {
    left: u32,
}

impl Retries {
    /// How many more times starting over is granted.
    pub closed spec fn left(&self) -> u32 {
        self.left
    }

    pub fn new(limit: u32) -> (retries: Retries)
        ensures
            retries.left() == limit,
    {
        Retries { left: limit }
    }

    /// Asks to start over once more: granted as long as any are left.
    pub fn take(&mut self) -> (granted: bool)
        ensures
            granted == (old(self).left() > 0),
            final(self).left() == (if granted {
                old(self).left() - 1
            } else {
                0
            }),
    {
        if self.left > 0 {
            self.left = self.left - 1;
            true
        } else {
            false
        }
    }
}

/// What a page leads to.
#[derive(Debug)]
pub enum PageOutcome {
    /// Start over: capture the tip anew and walk again from the first row,
    /// asking for as many rows as the walk had come to ask for.
    Restart,
    /// Apply these rows under the tip height of the walk; then ask for the
    /// next page if `more`, and stop if not.
    Apply { rows: Vec<TxRecord>, more: bool },
}

/// Where a walk through the feed stands.
#[derive(Debug)]
pub struct SyncCursor {
    per_page: usize,
    start_index: usize,
    oldest_seen: Option<(Txid, String)>,
    tip_height: u32,
    tip_hash: BlockHash,
    start_height: u32,
}

impl View for SyncCursor {
    type V = CursorView;

    closed spec fn view(&self) -> CursorView {
        CursorView {
            per_page: self.per_page,
            start_index: self.start_index,
            oldest_seen: match self.oldest_seen {
                Some(seen) => Some((seen.0, seen.1@)),
                None => None,
            },
            tip_height: self.tip_height,
            tip_hash: self.tip_hash,
            start_height: self.start_height,
        }
    }
}

impl SyncCursor {
    /// Starts a walk under the tip just captured. The first page asks for
    /// `init_per_page` rows, which is at least one.
    pub fn start(init_per_page: usize, start_height: u32, tip_height: u32, tip_hash: BlockHash)
        -> (cursor: SyncCursor)
        requires
            init_per_page >= 1,
        ensures
            cursor@ == CursorView::begin(init_per_page, start_height, tip_height, tip_hash),
            cursor@.wf(),
    {
        SyncCursor {
            per_page: init_per_page,
            start_index: 0,
            oldest_seen: None,
            tip_height,
            tip_hash,
            start_height,
        }
    }

    /// How many rows the next page asks for.
    pub fn per_page(&self) -> (n: usize)
        ensures
            n == self@.per_page,
    {
        self.per_page
    }

    /// How many rows the next page skips.
    pub fn start_index(&self) -> (n: usize)
        ensures
            n == self@.start_index,
    {
        self.start_index
    }

    /// The tip height that the rows of this walk are classified under.
    pub fn tip_height(&self) -> (h: u32)
        ensures
            h == self@.tip_height,
    {
        self.tip_height
    }

    /// Whether the next page can still be followed by a larger one.
    pub fn can_grow(&self) -> (r: bool)
        ensures
            r == (self@.per_page * 2 <= usize::MAX),
    {
        self.per_page <= usize::MAX / 2
    }

    /// Takes in the page that the node returned for the current request,
    /// and the block that the node held as its best after returning it.
    ///
    /// The page size can double once more without leaving `usize`.
    pub fn on_page(&mut self, page: Vec<TxRecord>, best_block: &BlockHash) -> (outcome:
        PageOutcome)
        requires
            old(self)@.wf(),
            old(self)@.per_page * 2 <= usize::MAX,
        ensures
            final(self)@.wf(),
            final(self)@ == old(self)@.advance(page@, *best_block),
            match outcome {
                PageOutcome::Restart => old(self)@.verdict(page@, *best_block)
                    == PageVerdict::Restart,
                PageOutcome::Apply { rows, more } => {
                    &&& rows@ == old(self)@.rows(page@)
                    &&& more == (old(self)@.verdict(page@, *best_block) == PageVerdict::More)
                    &&& !more == (old(self)@.verdict(page@, *best_block) == PageVerdict::Done)
                },
            },
    {
        let mut chunk = page;
        let mut exhausted = chunk.len() < self.per_page;
        if self.tip_hash != *best_block {
            return PageOutcome::Restart;
        }
        match &self.oldest_seen {
            Some(seen) => {
                match chunk.pop() {
                    Some(last) => {
                        if !(last.txid == seen.0 && last.address.text == seen.1) {
                            return PageOutcome::Restart;
                        }
                    },
                    None => {
                        return PageOutcome::Restart;
                    },
                }
            },
            None => {},
        }
        proof {
            assert(chunk@ =~= old(self)@.rows(page@));
        }
        let n = chunk.len();
        if n > 0 {
            let last = &chunk[n - 1];
            self.oldest_seen = Some((last.txid, last.address.text.clone()));
            if last.confirmations > 0 {
                let height: i64 = self.tip_height as i64 - last.confirmations + 1;
                exhausted = exhausted || height < self.start_height as i64;
            }
        }
        if !exhausted {
            self.start_index = self.start_index + self.per_page - 1;
            self.per_page = self.per_page * 2;
        }
        PageOutcome::Apply { rows: chunk, more: !exhausted }
    }
}

impl StoreView {
    /// The script that a row pays to.
    pub open spec fn script_of(address: Address) -> ScriptHash {
        ScriptHash::of_script(address@.script)
    }

    /// Whether a row makes the index watch a script that it did not watch.
    pub open spec fn first_use(self, ltx: TxRecord, tip_height: u32) -> bool {
        ltx.eligible && classify(ltx.confirmations as int, tip_height as int).is_viable()
            && !self.scripts.contains_key(Self::script_of(ltx.address))
    }

    /// Records that an output of `txid` pays `amount` to `address`,
    /// watching the script of the address if it was not watched.
    pub open spec fn index_address_history(
        self,
        txid: Txid,
        address: Address,
        origin: KeyOrigin,
        vout: u32,
        amount: u64,
    ) -> StoreView {
        let sh = Self::script_of(address);
        self.index_scripthash(sh, origin, address@).index_tx_output_funding(
            txid,
            vout,
            FundingInfo(sh, amount),
        )
    }

    /// The index after a row of the feed: unchanged by a row that is not
    /// eligible; without the transaction if the row shows it in conflict;
    /// else with the transaction at the status that the row shows, paying
    /// to the script of the row's address.
    pub open spec fn process_ltx(self, ltx: TxRecord, tip_height: u32) -> StoreView {
        let status = classify(ltx.confirmations as int, tip_height as int);
        if !ltx.eligible {
            self
        } else if !status.is_viable() {
            self.purge_tx(ltx.txid)
        } else {
            self.upsert_tx(ltx.txid, status).index_address_history(
                ltx.txid,
                ltx.address,
                ltx.origin,
                ltx.vout,
                ltx.amount,
            )
        }
    }

    /// The index after a run of rows, applied in the order of the feed.
    pub open spec fn process_chunk(self, rows: Seq<TxRecord>, tip_height: u32) -> StoreView
        decreases rows.len(),
    {
        if rows.len() == 0 {
            self
        } else {
            self.process_chunk(rows.drop_last(), tip_height).process_ltx(rows.last(), tip_height)
        }
    }

    /// The index after the eligible ones of a run of details of `txid`.
    pub open spec fn process_details(self, txid: Txid, details: Seq<TxDetail>) -> StoreView
        decreases details.len(),
    {
        if details.len() == 0 {
            self
        } else {
            let before = self.process_details(txid, details.drop_last());
            let detail = details.last();
            if detail.eligible {
                before.index_address_history(
                    txid,
                    detail.address,
                    detail.origin,
                    detail.vout,
                    detail.amount,
                )
            } else {
                before
            }
        }
    }

    /// The index after what the node told of one transaction: without it
    /// if it is in conflict; else with it at the status told, paying to the
    /// script of each eligible detail.
    pub open spec fn process_gtx(self, gtx: TxReport, tip_height: u32) -> StoreView {
        let status = classify(gtx.confirmations as int, tip_height as int);
        if !status.is_viable() {
            self.purge_tx(gtx.txid)
        } else {
            self.upsert_tx(gtx.txid, status).process_details(gtx.txid, gtx.details@)
        }
    }
}

/// Recording a payment to an address keeps the index consistent, where the
/// transaction is known.
pub proof fn lemma_index_address_history_consistent(
    v: StoreView,
    txid: Txid,
    address: Address,
    origin: KeyOrigin,
    vout: u32,
    amount: u64,
)
    requires
        v.consistent(),
        v.transactions.contains_key(txid),
    ensures
        v.index_address_history(txid, address, origin, vout, amount).consistent(),
        v.index_address_history(txid, address, origin, vout, amount).transactions.contains_key(
            txid,
        ),
{
    let sh = StoreView::script_of(address);
    lemma_index_scripthash_consistent(v, sh, origin, address@);
    lemma_index_tx_output_funding_consistent(
        v.index_scripthash(sh, origin, address@),
        txid,
        vout,
        FundingInfo(sh, amount),
    );
}

impl MemoryStore {
    /// Records that an output of a known transaction pays to an address,
    /// watching the script of the address first if it is not watched yet.
    ///
    /// Tells whether the script was not watched before, which is when the
    /// address is to be marked as used. A script that is watched already
    /// keeps the address and origin that it was first seen with.
    pub fn index_address_history(
        &mut self,
        txid: &Txid,
        address: &Address,
        origin: &KeyOrigin,
        vout: u32,
        amount: u64,
    ) -> (first_use: bool)
        requires
            old(self).wf(),
            old(self)@.transactions.contains_key(*txid),
        ensures
            final(self).wf(),
            final(self)@ == old(self)@.index_address_history(
                *txid,
                *address,
                *origin,
                vout,
                amount,
            ),
            final(self)@.transactions.contains_key(*txid),
            first_use == !old(self)@.scripts.contains_key(StoreView::script_of(*address)),
    {
        let scripthash = ScriptHash::from_address(address);
        let first_use = !self.has_history(&scripthash);
        if first_use {
            self.index_scripthash(&scripthash, origin, address);
        }
        self.index_tx_output_funding(txid, vout, FundingInfo(scripthash, amount));
        first_use
    }

    /// Applies one row of the node's transaction feed, classified under
    /// the tip height that the walk captured.
    ///
    /// Tells whether the row made the index watch a script for the first
    /// time, which is when the address is to be marked as used.
    pub fn process_ltx(&mut self, ltx: &TxRecord, tip_height: u32) -> (first_use: bool)
        requires
            old(self).wf(),
            ltx.confirmations <= tip_height + 1,
        ensures
            final(self).wf(),
            final(self)@ == old(self)@.process_ltx(*ltx, tip_height),
            first_use == old(self)@.first_use(*ltx, tip_height),
    {
        if !ltx.eligible {
            return false;
        }
        let status = TxStatus::new(ltx.confirmations, tip_height);
        if !status.is_viable() {
            self.purge_tx(&ltx.txid);
            return false;
        }
        self.upsert_tx(&ltx.txid, status);
        self.index_address_history(&ltx.txid, &ltx.address, &ltx.origin, ltx.vout, ltx.amount)
    }

    /// Applies the rows of a page in the order of the feed. Tells of each
    /// row whether it made the index watch a script for the first time.
    pub fn process_chunk(&mut self, rows: &Vec<TxRecord>, tip_height: u32) -> (first_uses: Vec<
        bool,
    >)
        requires
            old(self).wf(),
            forall|i: int| 0 <= i < rows@.len() ==> (#[trigger] rows@[i]).confirmations
                <= tip_height + 1,
        ensures
            final(self).wf(),
            final(self)@ == old(self)@.process_chunk(rows@, tip_height),
            first_uses@.len() == rows@.len(),
            forall|i: int|
                0 <= i < rows@.len() ==> #[trigger] first_uses@[i] == old(self)@.process_chunk(
                    rows@.take(i),
                    tip_height,
                ).first_use(rows@[i], tip_height),
    {
        let mut first_uses: Vec<bool> = Vec::new();
        let mut i: usize = 0;
        proof {
            assert(rows@.take(0) =~= Seq::<TxRecord>::empty());
        }
        while i < rows.len()
            invariant
                i <= rows.len(),
                self.wf(),
                forall|k: int| 0 <= k < rows@.len() ==> (#[trigger] rows@[k]).confirmations
                    <= tip_height + 1,
                self@ == old(self)@.process_chunk(rows@.take(i as int), tip_height),
                first_uses@.len() == i,
                forall|k: int|
                    0 <= k < i ==> #[trigger] first_uses@[k] == old(self)@.process_chunk(
                        rows@.take(k),
                        tip_height,
                    ).first_use(rows@[k], tip_height),
            decreases rows.len() - i,
        {
            let first_use = self.process_ltx(&rows[i], tip_height);
            proof {
                assert(rows@.take(i + 1).drop_last() =~= rows@.take(i as int));
                assert(rows@.take(i + 1).last() == rows@[i as int]);
            }
            first_uses.push(first_use);
            i += 1;
        }
        proof {
            assert(rows@.take(rows@.len() as int) =~= rows@);
        }
        first_uses
    }

    /// Applies what the node told of one transaction asked about by name.
    /// Tells of each detail whether it made the index watch a script for
    /// the first time; for a transaction in conflict the list is empty.
    pub fn process_gtx(&mut self, gtx: &TxReport, tip_height: u32) -> (first_uses: Vec<bool>)
        requires
            old(self).wf(),
            gtx.confirmations <= tip_height + 1,
        ensures
            final(self).wf(),
            final(self)@ == old(self)@.process_gtx(*gtx, tip_height),
            first_uses@.len() == (if classify(
                gtx.confirmations as int,
                tip_height as int,
            ).is_viable() {
                gtx.details@.len()
            } else {
                0
            }),
            forall|i: int|
                0 <= i < first_uses@.len() ==> #[trigger] first_uses@[i] == (
                gtx.details@[i].eligible && !old(self)@.upsert_tx(
                    gtx.txid,
                    classify(gtx.confirmations as int, tip_height as int),
                ).process_details(gtx.txid, gtx.details@.take(i)).scripts.contains_key(
                    StoreView::script_of(gtx.details@[i].address),
                )),
    {
        let mut first_uses: Vec<bool> = Vec::new();
        let status = TxStatus::new(gtx.confirmations, tip_height);
        if !status.is_viable() {
            self.purge_tx(&gtx.txid);
            return first_uses;
        }
        self.upsert_tx(&gtx.txid, status);
        let ghost before = self@;
        let mut i: usize = 0;
        proof {
            assert(gtx.details@.take(0) =~= Seq::<TxDetail>::empty());
        }
        while i < gtx.details.len()
            invariant
                i <= gtx.details.len(),
                self.wf(),
                self@.transactions.contains_key(gtx.txid),
                self@ == before.process_details(gtx.txid, gtx.details@.take(i as int)),
                first_uses@.len() == i,
                forall|k: int|
                    0 <= k < i ==> #[trigger] first_uses@[k] == (gtx.details@[k].eligible
                        && !before.process_details(
                        gtx.txid,
                        gtx.details@.take(k),
                    ).scripts.contains_key(StoreView::script_of(gtx.details@[k].address))),
            decreases gtx.details.len() - i,
        {
            let detail = &gtx.details[i];
            proof {
                assert(gtx.details@.take(i + 1).drop_last() =~= gtx.details@.take(i as int));
                assert(gtx.details@.take(i + 1).last() == gtx.details@[i as int]);
            }
            let mut first_use = false;
            if detail.eligible {
                first_use = self.index_address_history(
                    &gtx.txid,
                    &detail.address,
                    &detail.origin,
                    detail.vout,
                    detail.amount,
                );
            }
            first_uses.push(first_use);
            i += 1;
        }
        proof {
            assert(gtx.details@.take(gtx.details@.len() as int) =~= gtx.details@);
        }
        first_uses
    }
}

} // verus!
