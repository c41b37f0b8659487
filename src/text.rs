//! Text renderings of integers: decimal digits, fixed-point decimals and fixed-width hex.
use crate::field::{be_value, FieldElement, WideUint};
use vstd::prelude::*;
use vstd::string::StrSliceExecFns;

verus! {

/// The lowercase digit for `d` (`0`-`9`, then `a`-`f`).
pub open spec fn digit_char(d: nat) -> char {
    if d < 10 {
        (48 + d) as char
    } else {
        (87 + d) as char
    }
}

/// The decimal digits of `n`, most significant first, with no leading zeros
/// (`"0"` for zero).
pub open spec fn decimal_of(n: nat) -> Seq<char>
    decreases n,
{
    if n < 10 {
        seq![digit_char(n)]
    } else {
        decimal_of(n / 10).push(digit_char(n % 10))
    }
}

/// `k` copies of the digit zero.
pub open spec fn zeros(k: nat) -> Seq<char> {
    Seq::new(k, |i: int| '0')
}

/// `n / 10^scale` written with exactly `scale` digits after the point (no point
/// when `scale` is zero) and one digit at least before it.
pub open spec fn fixed_point_of(n: nat, scale: nat) -> Seq<char> {
    let d = decimal_of(n);
    if scale == 0 {
        d
    } else {
        let p = if d.len() <= scale {
            zeros((scale + 1 - d.len()) as nat) + d
        } else {
            d
        };
        p.take(p.len() - scale) + seq!['.'] + p.skip(p.len() - scale)
    }
}

/// Two lowercase hex digits for each byte, most significant byte first.
pub open spec fn hex_digits(s: Seq<u8>) -> Seq<char>
    decreases s.len(),
{
    if s.len() == 0 {
        seq![]
    } else {
        hex_digits(s.drop_last()) + seq![
            digit_char(s.last() as nat / 16),
            digit_char(s.last() as nat % 16),
        ]
    }
}

/// `0x` followed by two hex digits per byte.
pub open spec fn fixed_hex_of(s: Seq<u8>) -> Seq<char> {
    seq!['0', 'x'] + hex_digits(s)
}

/// Relies on String::push: the character is appended.
#[verifier::external_body]
fn push_char(s: &mut String, c: char)
    ensures
        final(s)@ == old(s)@.push(c),
{
    s.push(c)
}

/// Relies on num_bigint: `BigUint::from_bytes_be` reads the big-endian bytes and
/// `to_str_radix(10)` writes the decimal digits, with no leading zeros and `"0"` for zero.
#[verifier::external_body]
fn decimal_digits(bytes: &Vec<u8>) -> (r: String)
    ensures
        r@ == decimal_of(be_value(bytes@)),
{
    num_bigint::BigUint::from_bytes_be(bytes).to_str_radix(10)
}

fn digit(d: u8) -> (c: char)
    requires
        d < 16,
    ensures
        c == digit_char(d as nat),
{
    if d < 10 {
        (48u8 + d) as char
    } else {
        (87u8 + d) as char
    }
}

/// Appends the characters `src[from..to]`.
fn push_range(out: &mut String, src: &String, from: usize, to: usize)
    requires
        from <= to <= src@.len(),
    ensures
        final(out)@ == old(out)@ + src@.subrange(from as int, to as int),
{
    let mut i: usize = from;
    while i < to
        invariant
            from <= i <= to <= src@.len(),
            out@ == old(out)@ + src@.subrange(from as int, i as int),
        decreases to - i,
    {
        let c = src.as_str().get_char(i);
        push_char(out, c);
        i = i + 1;
        assert(src@.subrange(from as int, i as int) =~= src@.subrange(from as int, (i - 1) as int).push(
            c,
        ));
    }
}

/// Renders `value / 10^scale` as a decimal with exactly `scale` fractional digits,
/// computed on the digits, never through binary floating point.
pub fn to_fixed_point_decimal(value: &WideUint, scale: u32) -> (r: String)
    requires
        value.wf(),
    ensures
        r@ == fixed_point_of(value.value(), scale as nat),
{
    let digits = decimal_digits(&value.to_be_bytes());
    if scale == 0 {
        return digits;
    }
    let ghost d = digits@;
    proof {
        lemma_decimal_nonempty(value.value());
    }
    let len = digits.as_str().unicode_len();
    let s = scale as usize;
    let mut out = String::new();
    if len <= s {
        push_char(&mut out, '0');
        push_char(&mut out, '.');
        let mut k: usize = 0;
        while k < s - len
            invariant
                len <= s,
                k <= s - len,
                out@ == seq!['0', '.'] + zeros(k as nat),
            decreases s - len - k,
        {
            push_char(&mut out, '0');
            k = k + 1;
            assert(zeros(k as nat) =~= zeros((k - 1) as nat).push('0'));
        }
        push_range(&mut out, &digits, 0, len);
        proof {
            let p = zeros((s + 1 - len) as nat) + d;
            assert(p.take(p.len() - s) =~= seq!['0']);
            assert(p.skip(p.len() - s) =~= zeros((s - len) as nat) + d);
            assert(d.subrange(0, len as int) =~= d);
            assert(out@ =~= p.take(p.len() - s) + seq!['.'] + p.skip(p.len() - s));
        }
    } else {
        push_range(&mut out, &digits, 0, len - s);
        push_char(&mut out, '.');
        push_range(&mut out, &digits, len - s, len);
        proof {
            assert(d.take(len - s) =~= d.subrange(0, len - s));
            assert(d.skip(len - s) =~= d.subrange(len - s, len as int));
        }
    }
    out
}

proof fn lemma_decimal_nonempty(n: nat)
    ensures
        decimal_of(n).len() >= 1,
    decreases n,
{
    if n >= 10 {
        lemma_decimal_nonempty(n / 10);
    }
}

/// `0x` and 64 lowercase hex digits: the fixed-width text of a field element.
pub fn to_fixed_hex_string(fe: &FieldElement) -> (r: String)
    requires
        fe.wf(),
    ensures
        r@ == fixed_hex_of(fe.spec_bytes()),
{
    let bytes = fe.to_be_bytes();
    let mut out = String::new();
    push_char(&mut out, '0');
    push_char(&mut out, 'x');
    let mut i: usize = 0;
    while i < bytes.len()
        invariant
            i <= bytes@.len(),
            bytes@ == fe.spec_bytes(),
            out@ == seq!['0', 'x'] + hex_digits(bytes@.take(i as int)),
        decreases bytes@.len() - i,
    {
        let b = bytes[i];
        push_char(&mut out, digit(b / 16));
        push_char(&mut out, digit(b % 16));
        proof {
            let t = bytes@.take(i + 1);
            assert(t.drop_last() =~= bytes@.take(i as int));
        }
        i = i + 1;
    }
    proof {
        assert(bytes@.take(i as int) =~= bytes@);
    }
    out
}

} // verus!
