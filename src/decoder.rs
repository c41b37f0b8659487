//! Positional decoding of the `BetPlace` event payload through a versioned offset table.
use crate::field::{half_bound, selector_from_name, selector_of, wide_integer_from_halves, FieldElement, WideUint};
use vstd::prelude::*;

verus! {

/// Where one numeric field sits in the payload.
#[derive(Clone, Copy, Debug, PartialEq, Eq)]
pub enum Slot {
    /// One field element.
    Single(usize),
    /// A 256-bit value split into two 128-bit halves, each in its own slot.
    Wide { low: usize, high: usize },
}

impl Slot {
    /// The highest slot index this field reads.
    pub open spec fn top(self) -> nat {
        match self {
            Slot::Single(i) => i as nat,
            Slot::Wide { low, high } => if low >= high {
                low as nat
            } else {
                high as nat
            },
        }
    }

    /// Whether the halves of a split value each fit in 128 bits.
    pub open spec fn fits(self, data: Seq<FieldElement>) -> bool {
        match self {
            Slot::Single(_) => true,
            Slot::Wide { low, high } => data[low as int].value() < half_bound()
                && data[high as int].value() < half_bound(),
        }
    }

    /// The integer this field holds in `data`.
    pub open spec fn value_in(self, data: Seq<FieldElement>) -> nat {
        match self {
            Slot::Single(i) => data[i as int].value(),
            Slot::Wide { low, high } => data[high as int].value() * half_bound()
                + data[low as int].value(),
        }
    }

    fn top_index(&self) -> (r: usize)
        ensures
            r == self.top(),
    {
        match *self {
            Slot::Single(i) => i,
            Slot::Wide { low, high } => if low >= high {
                low
            } else {
                high
            },
        }
    }
}

/// One version of the event's payload layout: the slot of every field, and how
/// amounts and odds are scaled when stored (`None`: stored as raw integers).
#[derive(Clone, Copy, Debug, PartialEq, Eq)]
pub struct Profile {
    pub direction: usize,
    pub amount: Slot,
    pub has_claimed: usize,
    pub claimable_amount: Slot,
    pub no_probability: Slot,
    pub yes_probability: Slot,
    pub user_address: Option<usize>,
    pub amount_scale: Option<u32>,
    pub odds_scale: Option<u32>,
}

pub open spec fn max_nat(a: nat, b: nat) -> nat {
    if a >= b {
        a
    } else {
        b
    }
}

fn max_usize(a: usize, b: usize) -> (r: usize)
    ensures
        r == max_nat(a as nat, b as nat),
{
    if a >= b {
        a
    } else {
        b
    }
}

/// Decimal places assumed for token quantities.
pub const TOKEN_DECIMALS: u32 = 18;

impl Profile {
    /// The highest slot index the profile reads.
    pub open spec fn top(self) -> nat {
        let a = max_nat(self.direction as nat, self.has_claimed as nat);
        let b = max_nat(self.amount.top(), self.claimable_amount.top());
        let c = max_nat(self.no_probability.top(), self.yes_probability.top());
        let d = match self.user_address {
            Some(i) => i as nat,
            None => 0,
        };
        max_nat(max_nat(a, b), max_nat(c, d))
    }

    /// The fewest slots a payload needs for this profile.
    pub open spec fn spec_min_len(self) -> nat {
        self.top() + 1
    }

    /// Eleven slots: flags and amounts in single slots, padding at 2, 5, 7 and 9,
    /// the user's address last; amounts scaled by 18 decimals, odds raw.
    pub fn v1() -> (r: Profile)
        ensures
            r == Profile::v1_spec(),
            r.spec_min_len() == 11,
    {
        Profile {
            direction: 0,
            amount: Slot::Single(1),
            has_claimed: 3,
            claimable_amount: Slot::Single(4),
            no_probability: Slot::Single(6),
            yes_probability: Slot::Single(8),
            user_address: Some(10),
            amount_scale: Some(TOKEN_DECIMALS),
            odds_scale: None,
        }
    }

    /// Ten slots: the two flags, then amounts and odds as 256-bit values split
    /// low half first; no address; amounts scaled by 18 decimals, odds raw.
    pub fn v2() -> (r: Profile)
        ensures
            r == Profile::v2_spec(),
            r.spec_min_len() == 10,
    {
        Profile {
            direction: 0,
            has_claimed: 1,
            amount: Slot::Wide { low: 2, high: 3 },
            claimable_amount: Slot::Wide { low: 4, high: 5 },
            no_probability: Slot::Wide { low: 6, high: 7 },
            yes_probability: Slot::Wide { low: 8, high: 9 },
            user_address: None,
            amount_scale: Some(TOKEN_DECIMALS),
            odds_scale: None,
        }
    }

    /// The profile of a payload schema version: 1 and 2 are known, any other
    /// version has none.
    pub fn for_version(version: u32) -> (r: Option<Profile>)
        ensures
            version == 1 ==> r == Some(Profile::v1_spec()),
            version == 2 ==> r == Some(Profile::v2_spec()),
            version != 1 && version != 2 ==> r is None,
    {
        if version == 1 {
            Some(Profile::v1())
        } else if version == 2 {
            Some(Profile::v2())
        } else {
            None
        }
    }

    /// The layout `v1` gives.
    pub open spec fn v1_spec() -> Profile {
        Profile {
            direction: 0,
            amount: Slot::Single(1),
            has_claimed: 3,
            claimable_amount: Slot::Single(4),
            no_probability: Slot::Single(6),
            yes_probability: Slot::Single(8),
            user_address: Some(10),
            amount_scale: Some(TOKEN_DECIMALS),
            odds_scale: None,
        }
    }

    /// The layout `v2` gives.
    pub open spec fn v2_spec() -> Profile {
        Profile {
            direction: 0,
            has_claimed: 1,
            amount: Slot::Wide { low: 2, high: 3 },
            claimable_amount: Slot::Wide { low: 4, high: 5 },
            no_probability: Slot::Wide { low: 6, high: 7 },
            yes_probability: Slot::Wide { low: 8, high: 9 },
            user_address: None,
            amount_scale: Some(TOKEN_DECIMALS),
            odds_scale: None,
        }
    }

    /// The highest slot index the profile reads.
    pub fn top_index(&self) -> (r: usize)
        ensures
            r == self.top(),
    {
        let a = max_usize(self.direction, self.has_claimed);
        let b = max_usize(self.amount.top_index(), self.claimable_amount.top_index());
        let c = max_usize(self.no_probability.top_index(), self.yes_probability.top_index());
        let d = match self.user_address {
            Some(i) => i,
            None => 0,
        };
        max_usize(max_usize(a, b), max_usize(c, d))
    }
}

/// One decoded occurrence of the event.
#[derive(Clone, Debug)]
pub struct BetEvent {
    pub direction: bool,
    pub amount: WideUint,
    pub has_claimed: bool,
    pub claimable_amount: WideUint,
    pub no_probability: WideUint,
    pub yes_probability: WideUint,
    pub user_address: Option<FieldElement>,
}

impl BetEvent {
    pub open spec fn wf(&self) -> bool {
        &&& self.amount.wf()
        &&& self.claimable_amount.wf()
        &&& self.no_probability.wf()
        &&& self.yes_probability.wf()
        &&& self.user_address matches Some(a) ==> a.wf()
    }
}

/// Why a payload gave no event.
#[derive(Clone, Copy, Debug, PartialEq, Eq)]
pub enum DecodeError {
    /// Fewer slots than the profile reads.
    TooShort,
    /// A half of a split 256-bit value does not fit in 128 bits.
    HalfOutOfRange,
}

pub open spec fn all_wf(data: Seq<FieldElement>) -> bool {
    forall|i: int| 0 <= i < data.len() ==> #[trigger] data[i].wf()
}

/// Whether `data` can be decoded under `p`.
pub open spec fn decodable(p: Profile, data: Seq<FieldElement>) -> bool {
    &&& data.len() >= p.spec_min_len()
    &&& p.amount.fits(data)
    &&& p.claimable_amount.fits(data)
    &&& p.no_probability.fits(data)
    &&& p.yes_probability.fits(data)
}

/// What decoding `data` under `p` gives, field by field.
pub open spec fn decoded_as(p: Profile, data: Seq<FieldElement>, e: BetEvent) -> bool {
    &&& e.wf()
    &&& e.direction == (data[p.direction as int].value() != 0)
    &&& e.has_claimed == (data[p.has_claimed as int].value() != 0)
    &&& e.amount.value() == p.amount.value_in(data)
    &&& e.claimable_amount.value() == p.claimable_amount.value_in(data)
    &&& e.no_probability.value() == p.no_probability.value_in(data)
    &&& e.yes_probability.value() == p.yes_probability.value_in(data)
    &&& match p.user_address {
        Some(i) => e.user_address matches Some(a) && a.spec_bytes() == data[i as int].spec_bytes(),
        None => e.user_address is None,
    }
}

fn read_slot(data: &[FieldElement], slot: Slot) -> (r: Result<WideUint, DecodeError>)
    requires
        all_wf(data@),
        slot.top() < data@.len(),
    ensures
        r is Ok <==> slot.fits(data@),
        r matches Ok(w) ==> w.wf() && w.value() == slot.value_in(data@),
        r matches Err(e) ==> e == DecodeError::HalfOutOfRange,
{
    match slot {
        Slot::Single(i) => Ok(WideUint::from_field(&data[i])),
        Slot::Wide { low, high } => {
            let hi = data[high].high_bits_zero();
            let lo = data[low].high_bits_zero();
            if hi && lo {
                Ok(wide_integer_from_halves(&data[high], &data[low]))
            } else {
                Err(DecodeError::HalfOutOfRange)
            }
        },
    }
}

/// Decodes one event payload under profile `p`. Fails with `TooShort` when the
/// payload has fewer slots than the profile reads, and with `HalfOutOfRange` when
/// a half of a split value exceeds 128 bits.
pub fn parse_bet_placed_event(data: &[FieldElement], p: &Profile) -> (r: Result<BetEvent, DecodeError>)
    requires
        all_wf(data@),
    ensures
        r is Ok <==> decodable(*p, data@),
        r matches Ok(e) ==> decoded_as(*p, data@, e),
        r matches Err(e) ==> (e == DecodeError::TooShort <==> data@.len() < p.spec_min_len()),
{
    if data.len() <= p.top_index() {
        return Err(DecodeError::TooShort);
    }
    let amount = match read_slot(data, p.amount) {
        Ok(w) => w,
        Err(e) => return Err(e),
    };
    let claimable_amount = match read_slot(data, p.claimable_amount) {
        Ok(w) => w,
        Err(e) => return Err(e),
    };
    let no_probability = match read_slot(data, p.no_probability) {
        Ok(w) => w,
        Err(e) => return Err(e),
    };
    let yes_probability = match read_slot(data, p.yes_probability) {
        Ok(w) => w,
        Err(e) => return Err(e),
    };
    let user_address = match p.user_address {
        Some(i) => {
            assert(data@[i as int].wf());
            Some(data[i].duplicate())
        },
        None => None,
    };
    let e = BetEvent {
        direction: data[p.direction].is_nonzero(),
        amount,
        has_claimed: data[p.has_claimed].is_nonzero(),
        claimable_amount,
        no_probability,
        yes_probability,
        user_address,
    };
    Ok(e)
}

/// A payload one slot shorter than the profile's minimum never decodes; one of
/// exactly the minimum length decodes whenever its split values fit in their
/// halves, so always under a profile that splits none.
pub proof fn lemma_decoder_boundary(p: Profile, data: Seq<FieldElement>)
    ensures
        data.len() + 1 == p.spec_min_len() ==> !decodable(p, data),
        data.len() == p.spec_min_len() && p.amount.fits(data) && p.claimable_amount.fits(data)
            && p.no_probability.fits(data) && p.yes_probability.fits(data) ==> decodable(p, data),
        data.len() == p.spec_min_len() && p.amount is Single && p.claimable_amount is Single
            && p.no_probability is Single && p.yes_probability is Single ==> decodable(p, data),
{
}

/// The key that selects the `BetPlace` event in an event filter.
pub fn bet_placed_event_key() -> (r: FieldElement)
    ensures
        r.wf(),
        r.spec_bytes() == selector_of("BetPlace"@),
{
    proof {
        reveal_strlit("BetPlace");
    }
    match selector_from_name("BetPlace") {
        Some(f) => f,
        None => {
            proof {
                assert(false);
            }
            FieldElement::zero()
        },
    }
}

} // verus!
