//! Byte-level building blocks for the wire format: the byte constants the
//! protocol is made of, comparisons and copies of byte slices, and the
//! decimal encoding used by `Content-Length`.
use vstd::prelude::*;

verus! {

use vstd::string::StringSliceAdditionalSpecFns;

pub const CR: u8 = 13;

pub const LF: u8 = 10;

pub const SP: u8 = 32;

pub const HTAB: u8 = 9;

pub const COLON: u8 = 58;

pub const STAR: u8 = 42;

pub const SLASH: u8 = 47;

pub const ZERO: u8 = 48;

pub open spec fn crlf() -> Seq<u8> {
    seq![CR, LF]
}

pub open spec fn colon_sp() -> Seq<u8> {
    seq![COLON, SP]
}

pub open spec fn get_token() -> Seq<u8> {
    "GET".spec_bytes()
}

pub open spec fn post_token() -> Seq<u8> {
    "POST".spec_bytes()
}

pub open spec fn http11_token() -> Seq<u8> {
    "HTTP/1.1".spec_bytes()
}

/// The bytes of `Content-Length`, spelled out so that facts about the
/// individual bytes (no line break, no `": "` separator inside) are provable.
pub open spec fn content_length_token() -> Seq<u8> {
    seq![
        67u8,
        111u8,
        110u8,
        116u8,
        101u8,
        110u8,
        116u8,
        45u8,
        76u8,
        101u8,
        110u8,
        103u8,
        116u8,
        104u8,
    ]
}

pub open spec fn content_type_token() -> Seq<u8> {
    "Content-Type".spec_bytes()
}

pub open spec fn text_plain_token() -> Seq<u8> {
    "text/plain".spec_bytes()
}

pub open spec fn octet_stream_token() -> Seq<u8> {
    "application/octet-stream".spec_bytes()
}

/// The header name `Content-Length` as a vector, for byte-wise comparison
/// and for emission while serializing.
pub fn content_length_name() -> (r: Vec<u8>)
    ensures
        r@ == content_length_token(),
{
    let mut r: Vec<u8> = Vec::new();
    r.push(67);
    r.push(111);
    r.push(110);
    r.push(116);
    r.push(101);
    r.push(110);
    r.push(116);
    r.push(45);
    r.push(76);
    r.push(101);
    r.push(110);
    r.push(103);
    r.push(116);
    r.push(104);
    proof {
        assert(r@ =~= content_length_token());
    }
    r
}

pub fn bytes_eq(a: &[u8], b: &[u8]) -> (r: bool)
    ensures
        r == (a@ == b@),
{
    if a.len() != b.len() {
        return false;
    }
    let mut i: usize = 0;
    while i < a.len()
        invariant
            i <= a.len(),
            a.len() == b.len(),
            forall|k: int| 0 <= k < i ==> a@[k] == b@[k],
        decreases a.len() - i,
    {
        if a[i] != b[i] {
            return false;
        }
        i += 1;
    }
    proof {
        assert(a@ =~= b@);
    }
    true
}

pub open spec fn spec_starts_with(s: Seq<u8>, p: Seq<u8>) -> bool {
    s.len() >= p.len() && s.subrange(0, p.len() as int) == p
}

pub fn starts_with(s: &[u8], p: &[u8]) -> (r: bool)
    ensures
        r == spec_starts_with(s@, p@),
{
    if s.len() < p.len() {
        return false;
    }
    let mut i: usize = 0;
    while i < p.len()
        invariant
            i <= p.len(),
            p.len() <= s.len(),
            forall|k: int| 0 <= k < i ==> s@[k] == p@[k],
        decreases p.len() - i,
    {
        if s[i] != p[i] {
            proof {
                assert(s@.subrange(0, p@.len() as int)[i as int] == s@[i as int]);
            }
            return false;
        }
        i += 1;
    }
    proof {
        assert(s@.subrange(0, p@.len() as int) =~= p@);
    }
    true
}

pub fn contains_byte(s: &[u8], b: u8) -> (r: bool)
    ensures
        r == s@.contains(b),
{
    let mut i: usize = 0;
    while i < s.len()
        invariant
            i <= s.len(),
            forall|k: int| 0 <= k < i ==> s@[k] != b,
        decreases s.len() - i,
    {
        if s[i] == b {
            return true;
        }
        i += 1;
    }
    false
}

pub fn append_bytes(out: &mut Vec<u8>, src: &[u8])
    ensures
        final(out)@ == old(out)@ + src@,
{
    let mut i: usize = 0;
    while i < src.len()
        invariant
            i <= src.len(),
            out@ == old(out)@ + src@.subrange(0, i as int),
        decreases src.len() - i,
    {
        out.push(src[i]);
        proof {
            assert(old(out)@ + src@.subrange(0, i as int) + seq![src@[i as int]] =~= old(out)@
                + src@.subrange(0, i + 1));
        }
        i += 1;
    }
    proof {
        assert(src@.subrange(0, src@.len() as int) =~= src@);
    }
}

pub fn sub_to_vec(s: &[u8], a: usize, b: usize) -> (r: Vec<u8>)
    requires
        a <= b <= s@.len(),
    ensures
        r@ == s@.subrange(a as int, b as int),
{
    let mut r: Vec<u8> = Vec::new();
    let mut i: usize = a;
    while i < b
        invariant
            a <= i <= b <= s@.len(),
            r@ == s@.subrange(a as int, i as int),
        decreases b - i,
    {
        r.push(s[i]);
        proof {
            assert(s@.subrange(a as int, i as int) + seq![s@[i as int]] =~= s@.subrange(
                a as int,
                i + 1,
            ));
        }
        i += 1;
    }
    r
}

pub open spec fn is_digit(b: u8) -> bool {
    ZERO <= b <= 57
}

pub open spec fn all_digits(s: Seq<u8>) -> bool {
    forall|i: int| 0 <= i < s.len() ==> is_digit(#[trigger] s[i])
}

/// A `Content-Length` value is numeric when it is a non-empty run of digits.
pub open spec fn spec_numeric(s: Seq<u8>) -> bool {
    s.len() > 0 && all_digits(s)
}

/// The non-negative integer denoted by a run of decimal digits.
pub open spec fn dec_val(s: Seq<u8>) -> nat
    decreases s.len(),
{
    if s.len() == 0 {
        0
    } else {
        (dec_val(s.drop_last()) * 10 + (s.last() - ZERO)) as nat
    }
}

/// The decimal digits of `n`, most significant first, without leading zeros.
pub open spec fn dec_digits(n: nat) -> Seq<u8>
    decreases n,
{
    if n < 10 {
        seq![(ZERO + n) as u8]
    } else {
        dec_digits(n / 10).push((ZERO + n % 10) as u8)
    }
}

/// Appends the decimal representation of `n`.
pub fn append_decimal(out: &mut Vec<u8>, n: usize)
    ensures
        final(out)@ == old(out)@ + dec_digits(n as nat),
    decreases n,
{
    if n >= 10 {
        append_decimal(out, n / 10);
        out.push(ZERO + (n % 10) as u8);
        proof {
            assert(out@ =~= old(out)@ + dec_digits(n as nat));
        }
    } else {
        out.push(ZERO + n as u8);
        proof {
            assert(out@ =~= old(out)@ + dec_digits(n as nat));
        }
    }
}

/// What a run of bytes yields when it is read as a decimal number that is
/// only needed up to some bound.
pub enum DecResult {
    /// Not a non-empty run of digits.
    NotNumeric,
    /// A number, but larger than the bound it was read against.
    Exceeds,
    /// The number itself.
    Value(usize),
}

/// Reads `s` as a decimal number, capped at `cap`.
pub fn decimal_value_capped(s: &[u8], cap: usize) -> (r: DecResult)
    ensures
        !spec_numeric(s@) ==> r == DecResult::NotNumeric,
        spec_numeric(s@) && dec_val(s@) > cap ==> r == DecResult::Exceeds,
        spec_numeric(s@) && dec_val(s@) <= cap ==> r == DecResult::Value(dec_val(s@) as usize),
{
    if s.len() == 0 {
        return DecResult::NotNumeric;
    }
    let mut acc: usize = 0;
    let mut big = false;
    let mut i: usize = 0;
    while i < s.len()
        invariant
            i <= s.len(),
            all_digits(s@.subrange(0, i as int)),
            big == (dec_val(s@.subrange(0, i as int)) > cap),
            !big ==> acc == dec_val(s@.subrange(0, i as int)),
        decreases s.len() - i,
    {
        let b = s[i];
        if b < ZERO || b > 57 {
            return DecResult::NotNumeric;
        }
        let d = (b - ZERO) as usize;
        proof {
            assert(s@.subrange(0, i + 1).drop_last() =~= s@.subrange(0, i as int));
            assert(s@.subrange(0, i + 1).last() == s@[i as int]);
        }
        if big {
        } else if acc > cap / 10 {
            big = true;
        } else {
            let t = acc * 10;
            if d > cap || t > cap - d {
                big = true;
            } else {
                acc = t + d;
            }
        }
        i += 1;
    }
    proof {
        assert(s@.subrange(0, s@.len() as int) =~= s@);
    }
    if big {
        DecResult::Exceeds
    } else {
        DecResult::Value(acc)
    }
}

} // verus!
