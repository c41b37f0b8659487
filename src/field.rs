//! Field elements and 256-bit unsigned integers, both held as 32 big-endian bytes.
use vstd::arithmetic::div_mod::lemma_fundamental_div_mod_converse;
use vstd::prelude::*;

verus! {

/// Number of bytes in a field element or a wide integer.
pub const WORD_BYTES: usize = 32;

/// Number of bytes in one half of a wide integer.
pub const HALF_BYTES: usize = 16;

/// `256^n`.
pub open spec fn pow256(n: nat) -> nat
    decreases n,
{
    if n == 0 {
        1
    } else {
        256 * pow256((n - 1) as nat)
    }
}

/// `2^128`, the bound of one half of a wide integer.
pub open spec fn half_bound() -> nat {
    0x1_0000_0000_0000_0000 * 0x1_0000_0000_0000_0000
}

/// The unsigned integer that a big-endian byte sequence denotes.
pub open spec fn be_value(s: Seq<u8>) -> nat
    decreases s.len(),
{
    if s.len() == 0 {
        0
    } else {
        be_value(s.drop_last()) * 256 + s.last() as nat
    }
}

pub proof fn lemma_pow256_half()
    ensures
        pow256(16) == half_bound(),
{
    reveal_with_fuel(pow256, 17);
}

/// A big-endian sequence of `n` bytes denotes a value below `256^n`.
pub proof fn lemma_be_value_bound(s: Seq<u8>)
    ensures
        be_value(s) < pow256(s.len()),
    decreases s.len(),
{
    if s.len() > 0 {
        let p = s.drop_last();
        lemma_be_value_bound(p);
        let v = be_value(p);
        let q = pow256(p.len());
        assert(v * 256 + (s.last() as nat) < q * 256) by (nonlinear_arith)
            requires
                v < q,
                s.last() < 256,
        ;
    }
}

/// The value of a concatenation: the front part shifted by the length of the back part.
pub proof fn lemma_be_value_concat(a: Seq<u8>, b: Seq<u8>)
    ensures
        be_value(a + b) == be_value(a) * pow256(b.len()) + be_value(b),
    decreases b.len(),
{
    if b.len() == 0 {
        assert(a + b =~= a);
        assert(be_value(a) * 1 == be_value(a));
    } else {
        let b0 = b.drop_last();
        assert((a + b).drop_last() =~= a + b0);
        assert((a + b).last() == b.last());
        assert(pow256(b.len()) == 256 * pow256(b0.len()));
        lemma_be_value_concat(a, b0);
        let x = be_value(a);
        let p = pow256(b0.len());
        let y = be_value(b0);
        let l = b.last() as nat;
        assert((x * p + y) * 256 + l == x * (256 * p) + (y * 256 + l)) by (nonlinear_arith);
        assert(be_value(a + b) == be_value(a + b0) * 256 + l);
        assert(be_value(b) == y * 256 + l);
    }
}

/// A sequence of zero bytes denotes zero, and only such a sequence does.
pub proof fn lemma_be_value_zero(s: Seq<u8>)
    ensures
        (be_value(s) == 0) <==> (forall|i: int| 0 <= i < s.len() ==> s[i] == 0),
    decreases s.len(),
{
    if s.len() > 0 {
        let p = s.drop_last();
        lemma_be_value_zero(p);
        if be_value(s) == 0 {
            assert forall|i: int| 0 <= i < s.len() implies s[i] == 0 by {
                if i < p.len() {
                    assert(s[i] == p[i]);
                }
            }
        }
        if forall|i: int| 0 <= i < s.len() ==> s[i] == 0 {
            assert forall|i: int| 0 <= i < p.len() implies p[i] == 0 by {
                assert(s[i] == p[i]);
            }
        }
    }
}

/// A field element of the chain, held as its 32 big-endian bytes.
#[derive(Clone, Debug)]
pub struct FieldElement {
    bytes: Vec<u8>,
}

impl FieldElement {
    /// The big-endian bytes of this element.
    pub closed spec fn spec_bytes(&self) -> Seq<u8> {
        self.bytes@
    }

    pub open spec fn wf(&self) -> bool {
        self.spec_bytes().len() == WORD_BYTES
    }

    /// The integer this element denotes.
    pub open spec fn value(&self) -> nat {
        be_value(self.spec_bytes())
    }

    /// A field element from its big-endian bytes; `None` unless there are exactly 32.
    pub fn from_be_bytes(bytes: Vec<u8>) -> (r: Option<FieldElement>)
        ensures
            r is Some <==> bytes@.len() == WORD_BYTES,
            r matches Some(f) ==> f.wf() && f.spec_bytes() == bytes@,
    {
        if bytes.len() == WORD_BYTES {
            Some(FieldElement { bytes })
        } else {
            None
        }
    }

    /// The 32 big-endian bytes of this element.
    pub fn to_be_bytes(&self) -> (r: Vec<u8>)
        ensures
            r@ == self.spec_bytes(),
    {
        self.bytes.clone()
    }

    /// A copy of this element.
    pub fn duplicate(&self) -> (r: FieldElement)
        ensures
            r.spec_bytes() == self.spec_bytes(),
    {
        FieldElement { bytes: self.bytes.clone() }
    }

    /// True when both elements hold the same bytes.
    pub fn same_as(&self, other: &FieldElement) -> (r: bool)
        requires
            self.wf(),
            other.wf(),
        ensures
            r == (self.spec_bytes() == other.spec_bytes()),
    {
        let mut i: usize = 0;
        while i < WORD_BYTES
            invariant
                self.wf(),
                other.wf(),
                0 <= i <= WORD_BYTES,
                forall|j: int| 0 <= j < i ==> self.bytes@[j] == other.bytes@[j],
            decreases WORD_BYTES - i,
        {
            if self.bytes[i] != other.bytes[i] {
                return false;
            }
            i = i + 1;
        }
        assert(self.bytes@ =~= other.bytes@);
        true
    }

    /// The additive identity.
    pub fn zero() -> (r: FieldElement)
        ensures
            r.wf(),
            r.value() == 0,
    {
        let bytes = zero_bytes(WORD_BYTES);
        proof {
            lemma_be_value_zero(bytes@);
        }
        FieldElement { bytes }
    }

    /// True when the element fits in 128 bits.
    pub fn high_bits_zero(&self) -> (r: bool)
        requires
            self.wf(),
        ensures
            r == (self.value() < half_bound()),
    {
        let mut i: usize = 0;
        while i < HALF_BYTES
            invariant
                self.wf(),
                0 <= i <= HALF_BYTES,
                forall|j: int| 0 <= j < i ==> self.bytes@[j] == 0,
            decreases HALF_BYTES - i,
        {
            if self.bytes[i] != 0 {
                proof {
                    let t = self.bytes@.take(16);
                    assert(t[i as int] != 0);
                    lemma_be_value_zero(t);
                    lemma_split_halves(self.bytes@);
                    let tv = be_value(t);
                    assert(tv * half_bound() >= half_bound()) by (nonlinear_arith)
                        requires
                            tv >= 1,
                    ;
                }
                return false;
            }
            i = i + 1;
        }
        proof {
            let t = self.bytes@.take(16);
            assert forall|j: int| 0 <= j < t.len() implies t[j] == 0 by {
                assert(t[j] == self.bytes@[j]);
            }
            lemma_be_value_zero(t);
            lemma_split_halves(self.bytes@);
        }
        true
    }

    /// True when the element is not the additive identity.
    pub fn is_nonzero(&self) -> (r: bool)
        requires
            self.wf(),
        ensures
            r == (self.value() != 0),
    {
        let mut i: usize = 0;
        while i < WORD_BYTES
            invariant
                self.wf(),
                0 <= i <= WORD_BYTES,
                forall|j: int| 0 <= j < i ==> self.bytes@[j] == 0,
            decreases WORD_BYTES - i,
        {
            if self.bytes[i] != 0 {
                proof {
                    lemma_be_value_zero(self.bytes@);
                }
                return true;
            }
            i = i + 1;
        }
        proof {
            lemma_be_value_zero(self.bytes@);
        }
        false
    }
}

/// A 32-byte word splits into its two 16-byte halves: the front one is the
/// quotient by `2^128`, the back one the remainder.
pub proof fn lemma_split_halves(s: Seq<u8>)
    requires
        s.len() == WORD_BYTES,
    ensures
        be_value(s) == be_value(s.take(16)) * half_bound() + be_value(s.skip(16)),
        be_value(s.skip(16)) < half_bound(),
        be_value(s.take(16)) < half_bound(),
        be_value(s.take(16)) == be_value(s) / half_bound(),
        be_value(s.skip(16)) == be_value(s) % half_bound(),
{
    assert(s =~= s.take(16) + s.skip(16));
    lemma_be_value_concat(s.take(16), s.skip(16));
    lemma_be_value_bound(s.skip(16));
    lemma_be_value_bound(s.take(16));
    lemma_pow256_half();
    lemma_fundamental_div_mod_converse(
        be_value(s) as int,
        half_bound() as int,
        be_value(s.take(16)) as int,
        be_value(s.skip(16)) as int,
    );
}

/// Sixteen zero bytes in front of a half leave its value unchanged.
pub proof fn lemma_zero_padded_half(z: Seq<u8>, h: Seq<u8>)
    requires
        z.len() == HALF_BYTES,
        forall|i: int| 0 <= i < z.len() ==> z[i] == 0,
    ensures
        be_value(z + h) == be_value(h),
{
    lemma_be_value_zero(z);
    lemma_be_value_concat(z, h);
}

/// Appends `src[from..to]` to `out`.
fn extend_from_range(out: &mut Vec<u8>, src: &Vec<u8>, from: usize, to: usize)
    requires
        from <= to <= src@.len(),
    ensures
        final(out)@ == old(out)@ + src@.subrange(from as int, to as int),
{
    let mut i: usize = from;
    while i < to
        invariant
            from <= i <= to <= src@.len(),
            out@ == old(out)@ + src@.subrange(from as int, i as int),
        decreases to - i,
    {
        out.push(src[i]);
        i = i + 1;
        assert(src@.subrange(from as int, i as int) =~= src@.subrange(from as int, (i - 1) as int).push(
            src@[i - 1],
        ));
    }
}

/// A vector of `n` zero bytes.
fn zero_bytes(n: usize) -> (r: Vec<u8>)
    ensures
        r@.len() == n,
        forall|i: int| 0 <= i < n ==> r@[i] == 0,
{
    let mut r: Vec<u8> = Vec::new();
    let mut i: usize = 0;
    while i < n
        invariant
            i <= n,
            r@.len() == i,
            forall|j: int| 0 <= j < i ==> r@[j] == 0,
        decreases n - i,
    {
        r.push(0u8);
        i = i + 1;
    }
    r
}

/// The selector that the chain derives from an entry point or event name.
pub uninterp spec fn selector_of(name: Seq<char>) -> Seq<u8>;

/// Relies on starknet's `get_selector_from_name`: it fails exactly on a name with a
/// non-ASCII character, and otherwise gives a field element that depends on the name
/// alone (`Felt::to_bytes_be` hands out its 32 big-endian bytes).
#[verifier::external_body]
pub(crate) fn selector_from_name(name: &str) -> (r: Option<FieldElement>)
    ensures
        r is Some <==> vstd::utf8::is_ascii_chars(name@),
        r matches Some(f) ==> f.wf() && f.spec_bytes() == selector_of(name@),
{
    match starknet::core::utils::get_selector_from_name(name) {
        Ok(f) => Some(FieldElement { bytes: f.to_bytes_be().to_vec() }),
        Err(_) => None,
    }
}

/// A 256-bit unsigned integer, held as its 32 big-endian bytes.
#[derive(Clone, Debug)]
pub struct WideUint {
    bytes: Vec<u8>,
}

impl WideUint {
    /// The big-endian bytes of this integer.
    pub closed spec fn spec_bytes(&self) -> Seq<u8> {
        self.bytes@
    }

    pub open spec fn wf(&self) -> bool {
        self.spec_bytes().len() == WORD_BYTES
    }

    /// The integer this word denotes.
    pub open spec fn value(&self) -> nat {
        be_value(self.spec_bytes())
    }

    /// A wide integer from its big-endian bytes; `None` unless there are exactly 32.
    pub fn from_be_bytes(bytes: Vec<u8>) -> (r: Option<WideUint>)
        ensures
            r is Some <==> bytes@.len() == WORD_BYTES,
            r matches Some(w) ==> w.wf() && w.spec_bytes() == bytes@,
    {
        if bytes.len() == WORD_BYTES {
            Some(WideUint { bytes })
        } else {
            None
        }
    }

    /// The 32 big-endian bytes of this integer.
    pub fn to_be_bytes(&self) -> (r: Vec<u8>)
        ensures
            r@ == self.spec_bytes(),
    {
        self.bytes.clone()
    }

    /// The integer that one field element denotes.
    pub fn from_field(fe: &FieldElement) -> (r: WideUint)
        requires
            fe.wf(),
        ensures
            r.wf(),
            r.value() == fe.value(),
    {
        WideUint { bytes: fe.to_be_bytes() }
    }

    /// The upper 128 bits, as a field element.
    pub fn high_half(&self) -> (r: FieldElement)
        requires
            self.wf(),
        ensures
            r.wf(),
            r.value() == self.value() / half_bound(),
    {
        let mut out = zero_bytes(HALF_BYTES);
        let ghost z = out@;
        extend_from_range(&mut out, &self.bytes, 0, HALF_BYTES);
        proof {
            assert(self.bytes@.subrange(0, 16) =~= self.bytes@.take(16));
            lemma_zero_padded_half(z, self.bytes@.take(16));
            lemma_split_halves(self.bytes@);
        }
        FieldElement { bytes: out }
    }

    /// The lower 128 bits, as a field element.
    pub fn low_half(&self) -> (r: FieldElement)
        requires
            self.wf(),
        ensures
            r.wf(),
            r.value() == self.value() % half_bound(),
    {
        let mut out = zero_bytes(HALF_BYTES);
        let ghost z = out@;
        extend_from_range(&mut out, &self.bytes, HALF_BYTES, WORD_BYTES);
        proof {
            assert(self.bytes@.subrange(16, 32) =~= self.bytes@.skip(16));
            lemma_zero_padded_half(z, self.bytes@.skip(16));
            lemma_split_halves(self.bytes@);
        }
        FieldElement { bytes: out }
    }
}

/// Rebuilds a 256-bit integer as `(high << 128) | low` from two field elements
/// that each fit in 128 bits.
pub fn wide_integer_from_halves(high: &FieldElement, low: &FieldElement) -> (r: WideUint)
    requires
        high.wf(),
        low.wf(),
        high.value() < half_bound(),
        low.value() < half_bound(),
    ensures
        r.wf(),
        r.value() == high.value() * half_bound() + low.value(),
{
    let mut out: Vec<u8> = Vec::new();
    extend_from_range(&mut out, &high.bytes, HALF_BYTES, WORD_BYTES);
    extend_from_range(&mut out, &low.bytes, HALF_BYTES, WORD_BYTES);
    proof {
        let h = high.bytes@;
        let l = low.bytes@;
        assert(h.subrange(16, 32) =~= h.skip(16));
        assert(l.subrange(16, 32) =~= l.skip(16));
        assert(out@ =~= h.skip(16) + l.skip(16));
        lemma_split_halves(h);
        lemma_split_halves(l);
        lemma_be_value_concat(h.skip(16), l.skip(16));
        lemma_pow256_half();
        let ht = be_value(h.take(16));
        let lt = be_value(l.take(16));
        assert(ht == 0) by (nonlinear_arith)
            requires
                ht * half_bound() + be_value(h.skip(16)) < half_bound(),
        ;
        assert(lt == 0) by (nonlinear_arith)
            requires
                lt * half_bound() + be_value(l.skip(16)) < half_bound(),
        ;
    }
    WideUint { bytes: out }
}

/// Splitting a rebuilt wide integer gives back the two halves it was built from.
pub proof fn lemma_halves_round_trip(high: nat, low: nat)
    requires
        high < half_bound(),
        low < half_bound(),
    ensures
        (high * half_bound() + low) / half_bound() == high,
        (high * half_bound() + low) % half_bound() == low,
{
    lemma_fundamental_div_mod_converse(
        (high * half_bound() + low) as int,
        half_bound() as int,
        high as int,
        low as int,
    );
}

} // verus!
