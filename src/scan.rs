//! A scan of a descending range of block heights for the transactions whose
//! sender or recipient is one address. The chain is read by the caller: the
//! scan says which height to fetch next and is handed what came back.

use vstd::prelude::*;
use crate::codec::{eth_checksum_encode, checksum_encode, is_valid_address, CodecError};

verus! {

/// The number of blocks scanned when the caller gives none.
pub const DEFAULT_BLOCK_COUNT: u32 = 1000;

/// A transaction as the scan reads it: its hash, its sender, and its
/// recipient, absent for a contract creation.
#[derive(Debug, Clone, PartialEq, Eq)]
pub struct Transaction {
    pub hash: String,
    pub from: String,
    pub to: Option<String>,
}

/// Why a scan stopped without a result.
#[derive(Debug, Clone, Copy, PartialEq, Eq)]
pub enum ScanError {
    /// The target is not 40 hex digits, with or without a `0x` prefix.
    InvalidAddressFormat,
    /// Reading the block at this height failed.
    ProviderError { height: u64 },
    /// The scan was stopped from outside.
    Cancelled,
}

/// What reading one block height gave.
#[derive(Debug, PartialEq, Eq)]
pub enum FetchOutcome {
    /// The block, with its transactions in their order.
    Block(Vec<Transaction>),
    /// No block stands at that height.
    NoBlock,
    /// The provider failed.
    Failed,
    /// Cancellation was signalled before the fetch.
    Cancelled,
}

/// A valid address whose checksummed form is `target`.
pub open spec fn address_matches(a: Seq<char>, target: Seq<char>) -> bool {
    is_valid_address(a) && checksum_encode(a) == target
}

/// The sender or the recipient of `tx` has the checksummed form `target`.
pub open spec fn tx_matches(tx: Transaction, target: Seq<char>) -> bool {
    address_matches(tx.from@, target) || (tx.to is Some && address_matches(tx.to->0@, target))
}

/// The transactions of `txs` that match `target`, in their order.
pub open spec fn matching(txs: Seq<Transaction>, target: Seq<char>) -> Seq<Transaction>
    decreases txs.len(),
{
    if txs.len() == 0 {
        Seq::empty()
    } else {
        let m = matching(txs.drop_last(), target);
        if tx_matches(txs.last(), target) {
            m.push(txs.last())
        } else {
            m
        }
    }
}

/// The state of a scan: the checksummed target, the height it started from,
/// the number of heights to visit, how many were visited, and what matched.
pub struct ScanModel {
    pub target: Seq<char>,
    pub start: nat,
    pub count: nat,
    pub offset: nat,
    pub found: Seq<Transaction>,
}

/// The block count asked for, or the default.
pub open spec fn block_count_or_default(block_count: Option<u32>) -> nat {
    match block_count {
        Some(n) => n as nat,
        None => DEFAULT_BLOCK_COUNT as nat,
    }
}

/// A fresh scan of `target` from `start`.
pub open spec fn initial_model(target: Seq<char>, block_count: Option<u32>, start: nat) -> ScanModel {
    ScanModel {
        target: checksum_encode(target),
        start,
        count: block_count_or_default(block_count),
        offset: 0,
        found: Seq::empty(),
    }
}

/// A height is still to be read: the range is not exhausted and the next
/// height is not below zero.
pub open spec fn is_pending(m: ScanModel) -> bool {
    m.offset < m.count && m.offset <= m.start
}

/// The height read next.
pub open spec fn pending_height(m: ScanModel) -> nat {
    (m.start - m.offset) as nat
}

/// One step of a scan: a block adds its matching transactions after those
/// found so far, a missing block adds nothing, a failure or a cancellation
/// ends the scan. A scan with nothing pending does not change.
pub open spec fn step(m: ScanModel, outcome: FetchOutcome) -> Result<ScanModel, ScanError> {
    if !is_pending(m) {
        Ok(m)
    } else {
        match outcome {
            FetchOutcome::Block(txs) => Ok(
                ScanModel {
                    offset: m.offset + 1,
                    found: m.found + matching(txs@, m.target),
                    ..m
                },
            ),
            FetchOutcome::NoBlock => Ok(ScanModel { offset: m.offset + 1, ..m }),
            FetchOutcome::Failed => Err(ScanError::ProviderError { height: pending_height(m) as u64 }),
            FetchOutcome::Cancelled => Err(ScanError::Cancelled),
        }
    }
}

/// The scan after the given outcomes, one for each step, or the error that
/// ended it.
pub open spec fn run(m: ScanModel, outcomes: Seq<FetchOutcome>) -> Result<ScanModel, ScanError>
    decreases outcomes.len(),
{
    if outcomes.len() == 0 {
        Ok(m)
    } else {
        match step(m, outcomes[0]) {
            Ok(next) => run(next, outcomes.skip(1)),
            Err(e) => Err(e),
        }
    }
}

/// Whether `a` is a valid address whose checksummed form is `target`.
pub fn is_target_address(a: &str, target: &String) -> (r: bool)
    ensures
        r == address_matches(a@, target@),
{
    match eth_checksum_encode(a) {
        Ok(e) => e == *target,
        Err(_) => false,
    }
}

/// Whether the sender or the recipient of `tx` normalizes to `target`.
pub fn transaction_matches(tx: &Transaction, target: &String) -> (r: bool)
    ensures
        r == tx_matches(*tx, target@),
{
    if is_target_address(tx.from.as_str(), target) {
        return true;
    }
    match &tx.to {
        Some(to) => is_target_address(to.as_str(), target),
        None => false,
    }
}

proof fn lemma_matching_take(txs: Seq<Transaction>, target: Seq<char>, k: int)
    requires
        0 <= k < txs.len(),
    ensures
        matching(txs.take(k + 1), target) == if tx_matches(txs[k], target) {
            matching(txs.take(k), target).push(txs[k])
        } else {
            matching(txs.take(k), target)
        },
{
    assert(txs.take(k + 1).drop_last() =~= txs.take(k));
}

/// `found` followed by the transactions of `txs` that match `target`.
fn append_matching(found: Vec<Transaction>, txs: Vec<Transaction>, target: &String) -> (r: Vec<
    Transaction,
>)
    ensures
        r@ == found@ + matching(txs@, target@),
{
    let mut found = found;
    let ghost before = found@;
    let ghost all = txs@;
    for tx in it: txs.into_iter()
        invariant
            it.seq() == all,
            found@ == before + matching(all.take(it.index()), target@),
    {
        proof {
            lemma_matching_take(all, target@, it.index());
        }
        if transaction_matches(&tx, target) {
            found.push(tx);
        }
    }
    assert(all.take(all.len() as int) =~= all);
    found
}

proof fn lemma_run_not_pending(m: ScanModel, outcomes: Seq<FetchOutcome>)
    requires
        !is_pending(m),
    ensures
        run(m, outcomes) == Ok::<ScanModel, ScanError>(m),
    decreases outcomes.len(),
{
    if outcomes.len() > 0 {
        lemma_run_not_pending(m, outcomes.skip(1));
    }
}

proof fn lemma_run_no_blocks(m: ScanModel, outcomes: Seq<FetchOutcome>)
    requires
        forall|i: int| 0 <= i < outcomes.len() ==> #[trigger] outcomes[i] is NoBlock,
    ensures
        run(m, outcomes) is Ok,
        run(m, outcomes)->Ok_0.found == m.found,
        run(m, outcomes)->Ok_0.target == m.target,
    decreases outcomes.len(),
{
    if outcomes.len() > 0 {
        assert(outcomes[0] is NoBlock);
        let next = step(m, outcomes[0])->Ok_0;
        assert forall|i: int| 0 <= i < outcomes.skip(1).len() implies #[trigger] outcomes.skip(1)[i] is NoBlock by {
            assert(outcomes[i + 1] is NoBlock);
        }
        lemma_run_no_blocks(next, outcomes.skip(1));
    }
}

/// A scan over zero heights reads no block: nothing is pending from the
/// start, whatever outcomes are offered it stays as it was, and it finds
/// nothing.
pub proof fn lemma_empty_range(target: Seq<char>, start: nat, outcomes: Seq<FetchOutcome>)
    ensures
        !is_pending(initial_model(target, Some(0u32), start)),
        run(initial_model(target, Some(0u32), start), outcomes) == Ok::<ScanModel, ScanError>(
            initial_model(target, Some(0u32), start),
        ),
        initial_model(target, Some(0u32), start).found == Seq::<Transaction>::empty(),
{
    lemma_run_not_pending(initial_model(target, Some(0u32), start), outcomes);
}

/// When no block is found at any height, a fresh scan ends without error
/// and with nothing found.
pub proof fn lemma_missing_blocks(
    target: Seq<char>,
    block_count: Option<u32>,
    start: nat,
    outcomes: Seq<FetchOutcome>,
)
    requires
        forall|i: int| 0 <= i < outcomes.len() ==> #[trigger] outcomes[i] is NoBlock,
    ensures
        run(initial_model(target, block_count, start), outcomes) is Ok,
        run(initial_model(target, block_count, start), outcomes)->Ok_0.found == Seq::<
            Transaction,
        >::empty(),
{
    lemma_run_no_blocks(initial_model(target, block_count, start), outcomes);
}

/// When the read of the `k`-th pending height fails after the reads before
/// it succeeded, the scan ends with a provider error that names that height,
/// and nothing found is returned.
pub proof fn lemma_fail_fast(m: ScanModel, outcomes: Seq<FetchOutcome>, k: nat)
    requires
        k < outcomes.len(),
        forall|i: int| 0 <= i < k ==> (#[trigger] outcomes[i] is Block || outcomes[i] is NoBlock),
        outcomes[k as int] is Failed,
        m.offset + k < m.count,
        m.offset + k <= m.start,
    ensures
        run(m, outcomes) == Err::<ScanModel, ScanError>(
            ScanError::ProviderError { height: (m.start - m.offset - k) as u64 },
        ),
    decreases k,
{
    if k > 0 {
        assert(outcomes[0] is Block || outcomes[0] is NoBlock);
        let next = step(m, outcomes[0])->Ok_0;
        let rest = outcomes.skip(1);
        assert forall|i: int| 0 <= i < k - 1 implies (#[trigger] rest[i] is Block || rest[i] is NoBlock) by {
            assert(outcomes[i + 1] is Block || outcomes[i + 1] is NoBlock);
        }
        assert(rest[k - 1] == outcomes[k as int]);
        lemma_fail_fast(next, rest, (k - 1) as nat);
    }
}

/// A scan in progress.
pub struct HistoryScan {
    target: String,
    start: u64,
    count: u64,
    offset: u64,
    found: Vec<Transaction>,
}

impl HistoryScan {
    pub closed spec fn view(&self) -> ScanModel {
        ScanModel {
            target: self.target@,
            start: self.start as nat,
            count: self.count as nat,
            offset: self.offset as nat,
            found: self.found@,
        }
    }

    pub closed spec fn wf(&self) -> bool {
        self.offset <= self.count
    }

    /// Starts a scan of `target` over `block_count` heights (1000 when
    /// absent), counting down from `start_height`.
    pub fn new(target: &str, block_count: Option<u32>, start_height: u64) -> (r: Result<
        HistoryScan,
        ScanError,
    >)
        ensures
            match r {
                Ok(s) => is_valid_address(target@) && s.wf() && s.view() == initial_model(
                    target@,
                    block_count,
                    start_height as nat,
                ),
                Err(e) => !is_valid_address(target@) && e == ScanError::InvalidAddressFormat,
            },
    {
        let normalized = match eth_checksum_encode(target) {
            Ok(s) => s,
            Err(CodecError::InvalidAddressFormat) => return Err(ScanError::InvalidAddressFormat),
        };
        let count: u32 = match block_count {
            Some(n) => n,
            None => DEFAULT_BLOCK_COUNT,
        };
        Ok(HistoryScan {
            target: normalized,
            start: start_height,
            count: count as u64,
            offset: 0,
            found: Vec::new(),
        })
    }

    /// The height to read next, or `None` when the scan is complete.
    pub fn next_height(&self) -> (r: Option<u64>)
        requires
            self.wf(),
        ensures
            r == (if is_pending(self.view()) {
                Some(pending_height(self.view()) as u64)
            } else {
                None::<u64>
            }),
    {
        if self.offset < self.count && self.offset <= self.start {
            Some(self.start - self.offset)
        } else {
            None
        }
    }

    /// Takes the outcome of reading the pending height. A block adds its
    /// transactions whose sender or recipient normalizes to the target, in
    /// block order; a missing block adds nothing; a failure ends the scan
    /// with the failing height, and a cancellation ends it too. Either way
    /// what was found is dropped. With nothing pending the scan is returned
    /// as it was.
    pub fn advance(self, outcome: FetchOutcome) -> (r: Result<HistoryScan, ScanError>)
        requires
            self.wf(),
        ensures
            match step(self.view(), outcome) {
                Ok(m) => r is Ok && r->Ok_0.wf() && r->Ok_0.view() == m,
                Err(e) => r == Err::<HistoryScan, ScanError>(e),
            },
    {
        if !(self.offset < self.count && self.offset <= self.start) {
            return Ok(self);
        }
        match outcome {
            FetchOutcome::Block(txs) => {
                let HistoryScan { target, start, count, offset, found } = self;
                let found = append_matching(found, txs, &target);
                Ok(HistoryScan { target, start, count, offset: offset + 1, found })
            },
            FetchOutcome::NoBlock => {
                let HistoryScan { target, start, count, offset, found } = self;
                Ok(HistoryScan { target, start, count, offset: offset + 1, found })
            },
            FetchOutcome::Failed => Err(ScanError::ProviderError { height: self.start - self.offset }),
            FetchOutcome::Cancelled => Err(ScanError::Cancelled),
        }
    }

    /// The transactions found so far, in the order they were found.
    pub fn into_transactions(self) -> (r: Vec<Transaction>)
        ensures
            r@ == self.view().found,
    {
        self.found
    }
}

} // verus!
