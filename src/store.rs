//! The event store: rows keyed by block number and transaction hash, inserted at
//! most once, and the column values a row is persisted with.
use crate::decoder::{BetEvent, Profile};
use crate::field::{FieldElement, WideUint};
use crate::text::{decimal_of, fixed_hex_of, fixed_point_of, to_fixed_hex_string, to_fixed_point_decimal};
use vstd::prelude::*;

verus! {

/// A decoded event with where it came from.
#[derive(Clone, Debug)]
pub struct StoredBet {
    pub event: BetEvent,
    pub block_number: u64,
    pub transaction_hash: FieldElement,
    pub from_address: FieldElement,
}

impl StoredBet {
    pub open spec fn wf(&self) -> bool {
        &&& self.event.wf()
        &&& self.transaction_hash.wf()
        &&& self.from_address.wf()
    }

    /// The identity of a row: block number and transaction hash.
    pub open spec fn key(&self) -> (u64, Seq<u8>) {
        (self.block_number, self.transaction_hash.spec_bytes())
    }
}

/// Whether some row of `rows` has key `k`.
pub open spec fn has_key(rows: Seq<StoredBet>, k: (u64, Seq<u8>)) -> bool {
    exists|i: int| 0 <= i < rows.len() && #[trigger] rows[i].key() == k
}

/// No two rows share a key.
pub open spec fn keys_unique(rows: Seq<StoredBet>) -> bool {
    forall|i: int, j: int|
        0 <= i < rows.len() && 0 <= j < rows.len() && i != j ==> #[trigger] rows[i].key()
            != #[trigger] rows[j].key()
}

/// The rows after an insert that does nothing when the key is already there.
pub open spec fn upserted(rows: Seq<StoredBet>, row: StoredBet) -> Seq<StoredBet> {
    if has_key(rows, row.key()) {
        rows
    } else {
        rows.push(row)
    }
}

/// Stored events, each key at most once, in order of first insertion.
#[derive(Debug)]
pub struct EventTable {
    rows: Vec<StoredBet>,
}

impl EventTable {
    pub closed spec fn spec_rows(&self) -> Seq<StoredBet> {
        self.rows@
    }

    pub open spec fn wf(&self) -> bool {
        &&& keys_unique(self.spec_rows())
        &&& forall|i: int|
            0 <= i < self.spec_rows().len() ==> #[trigger] self.spec_rows()[i].wf()
    }

    pub fn new() -> (r: EventTable)
        ensures
            r.wf(),
            r.spec_rows() == Seq::<StoredBet>::empty(),
    {
        EventTable { rows: Vec::new() }
    }

    pub fn len(&self) -> (r: usize)
        ensures
            r == self.spec_rows().len(),
    {
        self.rows.len()
    }

    pub fn get(&self, i: usize) -> (r: &StoredBet)
        requires
            i < self.spec_rows().len(),
        ensures
            *r == self.spec_rows()[i as int],
    {
        &self.rows[i]
    }

    /// Index of the row with the given key, if there is one.
    pub fn find(&self, block_number: u64, transaction_hash: &FieldElement) -> (r: Option<usize>)
        requires
            self.wf(),
            transaction_hash.wf(),
        ensures
            r is Some <==> has_key(self.spec_rows(), (block_number, transaction_hash.spec_bytes())),
            r matches Some(i) ==> i < self.spec_rows().len() && self.spec_rows()[i as int].key() == (
            block_number,
            transaction_hash.spec_bytes(),
            ),
    {
        let ghost k = (block_number, transaction_hash.spec_bytes());
        let mut i: usize = 0;
        while i < self.rows.len()
            invariant
                self.wf(),
                transaction_hash.wf(),
                k == (block_number, transaction_hash.spec_bytes()),
                i <= self.rows@.len(),
                forall|j: int| 0 <= j < i ==> #[trigger] self.rows@[j].key() != k,
            decreases self.rows@.len() - i,
        {
            let row = &self.rows[i];
            assert(self.spec_rows()[i as int].wf());
            let same_block = row.block_number == block_number;
            let same_hash = row.transaction_hash.same_as(transaction_hash);
            if same_block && same_hash {
                assert(self.spec_rows()[i as int].key() == k);
                return Some(i);
            }
            i = i + 1;
        }
        None
    }

    /// Inserts `row` unless a row with its key is already stored; then nothing
    /// changes. Returns whether it was inserted.
    pub fn upsert(&mut self, row: StoredBet) -> (r: bool)
        requires
            old(self).wf(),
            row.wf(),
        ensures
            final(self).wf(),
            final(self).spec_rows() == upserted(old(self).spec_rows(), row),
            r == !has_key(old(self).spec_rows(), row.key()),
    {
        match self.find(row.block_number, &row.transaction_hash) {
            Some(_) => false,
            None => {
                self.rows.push(row);
                proof {
                    let s = self.rows@;
                    assert forall|i: int, j: int|
                        0 <= i < s.len() && 0 <= j < s.len() && i != j implies #[trigger] s[i].key()
                        != #[trigger] s[j].key() by {
                        if i == s.len() - 1 {
                            assert(s[j] == old(self).spec_rows()[j]);
                        } else if j == s.len() - 1 {
                            assert(s[i] == old(self).spec_rows()[i]);
                        }
                    }
                }
                true
            },
        }
    }
}

/// Upserting two rows with the same key leaves exactly one row with that key,
/// the first one written; the second upsert changes nothing.
pub proof fn lemma_upsert_idempotent(rows: Seq<StoredBet>, first: StoredBet, second: StoredBet)
    requires
        keys_unique(rows),
        first.key() == second.key(),
    ensures
        upserted(upserted(rows, first), second) == upserted(rows, first),
        !has_key(rows, first.key()) ==> upserted(upserted(rows, first), second) == rows.push(first),
        keys_unique(upserted(rows, first)),
        has_key(upserted(rows, first), first.key()),
{
    let t = upserted(rows, first);
    if !has_key(rows, first.key()) {
        assert(t[rows.len() as int].key() == first.key());
        assert forall|i: int, j: int|
            0 <= i < t.len() && 0 <= j < t.len() && i != j implies #[trigger] t[i].key()
            != #[trigger] t[j].key() by {
            if i == rows.len() {
                assert(t[j] == rows[j]);
            } else if j == rows.len() {
                assert(t[i] == rows[i]);
            } else {
                assert(t[i] == rows[i] && t[j] == rows[j]);
            }
        }
    }
    assert(has_key(t, second.key()));
}

/// How an integer column is written: scaled to a fixed-point decimal, or raw.
pub open spec fn rendered(v: nat, scale: Option<u32>) -> Seq<char> {
    match scale {
        Some(s) => fixed_point_of(v, s as nat),
        None => decimal_of(v),
    }
}

fn render(w: &WideUint, scale: Option<u32>) -> (r: String)
    requires
        w.wf(),
    ensures
        r@ == rendered(w.value(), scale),
{
    match scale {
        Some(s) => to_fixed_point_decimal(w, s),
        None => to_fixed_point_decimal(w, 0),
    }
}

/// The column values of one row of the bets table.
#[derive(Clone, Debug)]
pub struct BetRow {
    pub bet: i32,
    pub amount: String,
    pub is_claimable: bool,
    pub has_claimed: bool,
    pub claimable_amount: String,
    pub no_probability: String,
    pub yes_probability: String,
    pub user_address: Option<String>,
    pub block_number: i64,
    pub transaction_hash: String,
    pub event_address: String,
}

/// The column values for a stored event, with amounts and odds written as the
/// profile's scaling says. `None` when the block number does not fit the signed
/// 64-bit column.
pub fn bet_row(stored: &StoredBet, p: &Profile) -> (r: Option<BetRow>)
    requires
        stored.wf(),
    ensures
        r is Some <==> stored.block_number <= i64::MAX,
        r matches Some(row) ==> {
            let e = stored.event;
            &&& row.bet == (if e.direction { 1i32 } else { 0i32 })
            &&& row.amount@ == rendered(e.amount.value(), p.amount_scale)
            &&& !row.is_claimable
            &&& row.has_claimed == e.has_claimed
            &&& row.claimable_amount@ == rendered(e.claimable_amount.value(), p.amount_scale)
            &&& row.no_probability@ == rendered(e.no_probability.value(), p.odds_scale)
            &&& row.yes_probability@ == rendered(e.yes_probability.value(), p.odds_scale)
            &&& match e.user_address {
                Some(a) => row.user_address matches Some(s) && s@ == fixed_hex_of(a.spec_bytes()),
                None => row.user_address is None,
            }
            &&& row.block_number == stored.block_number as i64
            &&& row.transaction_hash@ == fixed_hex_of(stored.transaction_hash.spec_bytes())
            &&& row.event_address@ == fixed_hex_of(stored.from_address.spec_bytes())
        },
{
    if stored.block_number > i64::MAX as u64 {
        return None;
    }
    let e = &stored.event;
    let user_address = match &e.user_address {
        Some(a) => Some(to_fixed_hex_string(a)),
        None => None,
    };
    Some(
        BetRow {
            bet: if e.direction {
                1
            } else {
                0
            },
            amount: render(&e.amount, p.amount_scale),
            is_claimable: false,
            has_claimed: e.has_claimed,
            claimable_amount: render(&e.claimable_amount, p.amount_scale),
            no_probability: render(&e.no_probability, p.odds_scale),
            yes_probability: render(&e.yes_probability, p.odds_scale),
            user_address,
            block_number: stored.block_number as i64,
            transaction_hash: to_fixed_hex_string(&stored.transaction_hash),
            event_address: to_fixed_hex_string(&stored.from_address),
        },
    )
}

} // verus!
