//! The ingestion cycle as a state machine: which (block, contract) pairs to fetch,
//! in which order, and the checkpoint to write once all were attempted.
use crate::decoder::{all_wf, decodable, decoded_as, parse_bet_placed_event, BetEvent, DecodeError, Profile};
use crate::field::FieldElement;
use crate::store::StoredBet;
use vstd::arithmetic::div_mod::lemma_fundamental_div_mod_converse;
use vstd::prelude::*;

verus! {

/// The checkpoint a cycle writes: unchanged when the chain height is not above
/// it; otherwise the height, or the block before the first one whose fetch
/// failed, so that no block with a failed fetch is ever passed.
pub open spec fn committed_checkpoint(checkpoint: u64, height: u64, first_failure: Option<u64>) -> u64 {
    if height <= checkpoint {
        checkpoint
    } else {
        match first_failure {
            Some(b) => if checkpoint < b && b <= height {
                (b - 1) as u64
            } else {
                height
            },
            None => height,
        }
    }
}

/// The checkpoint after one cycle per entry of `runs`, starting from `seed`; an
/// entry is the chain height that cycle observed and its first failed block.
pub open spec fn checkpoint_after(seed: u64, runs: Seq<(u64, Option<u64>)>) -> u64
    decreases runs.len(),
{
    if runs.len() == 0 {
        seed
    } else {
        committed_checkpoint(checkpoint_after(seed, runs.drop_last()), runs.last().0, runs.last().1)
    }
}

/// Over any run of cycles the checkpoint never decreases, and it is the seed or
/// at most a chain height that was observed, so never above the highest one seen.
pub proof fn lemma_checkpoint_monotone(seed: u64, runs: Seq<(u64, Option<u64>)>, i: nat, j: nat)
    requires
        i <= j <= runs.len(),
    ensures
        checkpoint_after(seed, runs.take(i as int)) <= checkpoint_after(seed, runs.take(j as int)),
        checkpoint_after(seed, runs) == seed || exists|k: int|
            0 <= k < runs.len() && checkpoint_after(seed, runs) <= #[trigger] runs[k].0,
    decreases j,
{
    if i < j {
        let t = runs.take(j as int);
        assert(t.drop_last() =~= runs.take(j - 1));
        lemma_checkpoint_monotone(seed, runs, i, (j - 1) as nat);
    }
    lemma_checkpoint_observed(seed, runs);
}

proof fn lemma_checkpoint_observed(seed: u64, runs: Seq<(u64, Option<u64>)>)
    ensures
        checkpoint_after(seed, runs) == seed || exists|k: int|
            0 <= k < runs.len() && checkpoint_after(seed, runs) <= #[trigger] runs[k].0,
    decreases runs.len(),
{
    if runs.len() > 0 {
        let p = runs.drop_last();
        lemma_checkpoint_observed(seed, p);
        let prev = checkpoint_after(seed, p);
        if checkpoint_after(seed, runs) != prev {
            assert(runs[runs.len() - 1] == runs.last());
        } else if prev != seed {
            let k = choose|k: int| 0 <= k < p.len() && prev <= #[trigger] p[k].0;
            assert(runs[k] == p[k]);
        }
    }
}

/// Number of fetches a cycle makes: one per block above the checkpoint up to
/// the height, per tracked contract.
pub open spec fn fetch_count(checkpoint: u64, height: u64, n_contracts: nat) -> nat {
    if height > checkpoint {
        ((height - checkpoint) * n_contracts) as nat
    } else {
        0
    }
}

/// The `i`-th fetch of a cycle: blocks ascending, and within a block every
/// contract in list order.
pub open spec fn fetch_at(checkpoint: u64, n_contracts: nat, i: nat) -> (u64, usize) {
    ((checkpoint + 1 + i / n_contracts) as u64, (i % n_contracts) as usize)
}

/// What the driver of a cycle does next.
#[derive(Clone, Copy, Debug, PartialEq, Eq)]
pub enum Step {
    /// Fetch, decode and store the events of this block for the contract at this
    /// index of the tracked list.
    Fetch { block: u64, contract: usize },
    /// Every fetch was attempted: write this checkpoint (the chain height, or the
    /// block before the first failed fetch).
    Commit { checkpoint: u64 },
    /// No new blocks: nothing to fetch, the checkpoint stays.
    Idle,
}

/// One cycle in progress.
#[derive(Clone, Copy, Debug)]
pub struct Cycle {
    checkpoint: u64,
    height: u64,
    n_contracts: usize,
    block: u64,
    contract: usize,
    finished: bool,
    first_failure: Option<u64>,
}

impl Cycle {
    pub closed spec fn spec_checkpoint(&self) -> u64 {
        self.checkpoint
    }

    pub closed spec fn spec_height(&self) -> u64 {
        self.height
    }

    pub closed spec fn spec_n_contracts(&self) -> nat {
        self.n_contracts as nat
    }

    /// The block of the first fetch recorded as failed, if any.
    pub closed spec fn spec_first_failure(&self) -> Option<u64> {
        self.first_failure
    }

    /// How many fetches were attempted so far.
    pub closed spec fn done(&self) -> nat {
        if self.finished {
            fetch_count(self.checkpoint, self.height, self.n_contracts as nat)
        } else {
            ((self.block - self.checkpoint - 1) * self.n_contracts + self.contract) as nat
        }
    }

    pub open spec fn total(&self) -> nat {
        fetch_count(self.spec_checkpoint(), self.spec_height(), self.spec_n_contracts())
    }

    pub closed spec fn wf(&self) -> bool {
        &&& self.first_failure matches Some(b) ==> self.checkpoint < b <= self.height
        &&& !self.finished ==> {
            &&& self.checkpoint < self.block <= self.height
            &&& self.contract < self.n_contracts
        }
    }

    proof fn lemma_position(&self)
        requires
            self.wf(),
            !self.finished,
        ensures
            self.done() < self.total(),
            fetch_at(self.checkpoint, self.n_contracts as nat, self.done()) == (
                self.block,
                self.contract,
            ),
    {
        let n = self.n_contracts as int;
        let q = (self.block - self.checkpoint - 1) as int;
        let h = (self.height - self.checkpoint) as int;
        let c = self.contract as int;
        assert(q * n + c < h * n) by (nonlinear_arith)
            requires
                0 <= q < h,
                0 <= c < n,
        ;
        lemma_fundamental_div_mod_converse(q * n + c, n, q, c);
    }

    /// A cycle never counts more fetches than it has, so after `total()` calls of
    /// `advance` from `start` it commits, whatever the fetched events decoded to:
    /// decoding does not reach the cycle at all.
    pub proof fn lemma_done_bounded(&self)
        requires
            self.wf(),
        ensures
            self.done() <= self.total(),
    {
        if !self.finished {
            self.lemma_position();
        }
    }

    /// Starts a cycle from the stored checkpoint, the chain height just read and
    /// the number of tracked contracts.
    pub fn start(checkpoint: u64, height: u64, n_contracts: usize) -> (r: Cycle)
        ensures
            r.wf(),
            r.spec_checkpoint() == checkpoint,
            r.spec_height() == height,
            r.spec_n_contracts() == n_contracts,
            r.spec_first_failure() is None,
            r.done() == 0,
    {
        if height > checkpoint && n_contracts > 0 {
            let r = Cycle {
                checkpoint,
                height,
                n_contracts,
                block: checkpoint + 1,
                contract: 0,
                finished: false,
                first_failure: None,
            };
            assert(0 * (n_contracts as int) == 0);
            r
        } else {
            let r = Cycle {
                checkpoint,
                height,
                n_contracts,
                block: checkpoint,
                contract: 0,
                finished: true,
                first_failure: None,
            };
            assert(((height - checkpoint) * 0) == 0);
            r
        }
    }

    /// The next thing to do: the next fetch while some remain, then the commit;
    /// `Idle` when the height is not above the checkpoint.
    pub fn next_step(&self) -> (r: Step)
        requires
            self.wf(),
        ensures
            self.spec_height() <= self.spec_checkpoint() ==> r == Step::Idle,
            self.spec_height() > self.spec_checkpoint() && self.done() < self.total() ==> r == (
            Step::Fetch {
                block: fetch_at(self.spec_checkpoint(), self.spec_n_contracts(), self.done()).0,
                contract: fetch_at(self.spec_checkpoint(), self.spec_n_contracts(), self.done()).1,
            }),
            self.spec_height() > self.spec_checkpoint() && self.done() >= self.total() ==> r == (
            Step::Commit {
                checkpoint: committed_checkpoint(
                    self.spec_checkpoint(),
                    self.spec_height(),
                    self.spec_first_failure(),
                ),
            }),
    {
        if self.height <= self.checkpoint {
            Step::Idle
        } else if self.finished {
            match self.first_failure {
                Some(b) => Step::Commit { checkpoint: b - 1 },
                None => Step::Commit { checkpoint: self.height },
            }
        } else {
            proof {
                self.lemma_position();
            }
            Step::Fetch { block: self.block, contract: self.contract }
        }
    }

    /// Records that the current fetch was attempted, whether or not it succeeded.
    pub fn advance(&mut self)
        requires
            old(self).wf(),
            old(self).done() < old(self).total(),
        ensures
            final(self).wf(),
            final(self).spec_checkpoint() == old(self).spec_checkpoint(),
            final(self).spec_height() == old(self).spec_height(),
            final(self).spec_n_contracts() == old(self).spec_n_contracts(),
            final(self).spec_first_failure() == old(self).spec_first_failure(),
            final(self).done() == old(self).done() + 1,
    {
        if self.finished {
            return;
        }
        let ghost n = self.n_contracts as int;
        let ghost q = (self.block - self.checkpoint - 1) as int;
        if self.contract + 1 < self.n_contracts {
            self.contract = self.contract + 1;
        } else if self.block == self.height {
            self.finished = true;
            proof {
                assert(q * n + (n - 1) + 1 == (q + 1) * n) by (nonlinear_arith);
            }
        } else {
            self.block = self.block + 1;
            self.contract = 0;
            proof {
                assert(q * n + (n - 1) + 1 == (q + 1) * n) by (nonlinear_arith);
            }
        }
    }
}

impl Cycle {
    /// Records that the current fetch failed, before `advance`: the commit will
    /// then stop below the first block that had a failure.
    pub fn record_failure(&mut self)
        requires
            old(self).wf(),
            old(self).done() < old(self).total(),
        ensures
            final(self).wf(),
            final(self).spec_checkpoint() == old(self).spec_checkpoint(),
            final(self).spec_height() == old(self).spec_height(),
            final(self).spec_n_contracts() == old(self).spec_n_contracts(),
            final(self).done() == old(self).done(),
            final(self).spec_first_failure() == (match old(self).spec_first_failure() {
                Some(b) => Some(b),
                None => Some(
                    fetch_at(old(self).spec_checkpoint(), old(self).spec_n_contracts(), old(self).done()).0,
                ),
            }),
    {
        if self.finished {
            return;
        }
        proof {
            self.lemma_position();
        }
        if self.first_failure.is_none() {
            self.first_failure = Some(self.block);
        }
    }
}

/// The stored checkpoint read from its signed 64-bit column: the seed 0 when no
/// row exists yet, `None` for a negative value, which no write produces.
pub fn last_processed_block_from(column: Option<i64>) -> (r: Option<u64>)
    ensures
        column is None ==> r == Some(0u64),
        column matches Some(v) ==> (r is Some <==> v >= 0),
        column matches Some(v) ==> (r matches Some(b) ==> b as int == v as int),
{
    match column {
        None => Some(0),
        Some(v) => if v >= 0 {
            Some(v as u64)
        } else {
            None
        },
    }
}

/// The value written to the signed 64-bit checkpoint column; `None` when the
/// block number does not fit.
pub fn last_processed_block_column(block: u64) -> (r: Option<i64>)
    ensures
        r is Some <==> block <= i64::MAX,
        r matches Some(v) ==> v as int == block as int,
{
    if block <= i64::MAX as u64 {
        Some(block as i64)
    } else {
        None
    }
}

/// One event as the node reports it.
#[derive(Clone, Debug)]
pub struct RawEvent {
    pub data: Vec<FieldElement>,
    pub transaction_hash: FieldElement,
    pub from_address: FieldElement,
}

impl RawEvent {
    pub open spec fn wf(&self) -> bool {
        &&& all_wf(self.data@)
        &&& self.transaction_hash.wf()
        &&& self.from_address.wf()
    }
}

/// What decoding one event of block `block` gives: the stored row, with its
/// provenance, or the reason it was skipped.
pub open spec fn processed_as(
    p: Profile,
    block: u64,
    ev: RawEvent,
    r: Result<StoredBet, DecodeError>,
) -> bool {
    &&& (r is Ok <==> decodable(p, ev.data@))
    &&& r matches Ok(s) ==> {
        &&& decoded_as(p, ev.data@, s.event)
        &&& s.wf()
        &&& s.block_number == block
        &&& s.transaction_hash.spec_bytes() == ev.transaction_hash.spec_bytes()
        &&& s.from_address.spec_bytes() == ev.from_address.spec_bytes()
    }
    &&& r matches Err(e) ==> (e == DecodeError::TooShort <==> ev.data@.len() < p.spec_min_len())
}

/// Decodes every event of one fetched page for block `block`, in page order; an
/// event that does not decode gives its error and does not stop the others.
pub fn process_block(page: &[RawEvent], block: u64, p: &Profile) -> (r: Vec<Result<StoredBet, DecodeError>>)
    requires
        forall|i: int| 0 <= i < page@.len() ==> #[trigger] page@[i].wf(),
    ensures
        r@.len() == page@.len(),
        forall|i: int| 0 <= i < page@.len() ==> processed_as(*p, block, page@[i], #[trigger] r@[i]),
{
    let mut out: Vec<Result<StoredBet, DecodeError>> = Vec::new();
    let mut i: usize = 0;
    while i < page.len()
        invariant
            i <= page@.len(),
            out@.len() == i,
            forall|k: int| 0 <= k < page@.len() ==> #[trigger] page@[k].wf(),
            forall|k: int| 0 <= k < i ==> processed_as(*p, block, page@[k], #[trigger] out@[k]),
        decreases page@.len() - i,
    {
        let ev = &page[i];
        assert(page@[i as int].wf());
        let item = match parse_bet_placed_event(ev.data.as_slice(), p) {
            Ok(event) => Ok(
                StoredBet {
                    event,
                    block_number: block,
                    transaction_hash: ev.transaction_hash.duplicate(),
                    from_address: ev.from_address.duplicate(),
                },
            ),
            Err(e) => Err(e),
        };
        out.push(item);
        i = i + 1;
    }
    out
}

} // verus!
