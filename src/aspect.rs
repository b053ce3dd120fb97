use vstd::prelude::*;
use vstd::string::StringSliceAdditionalSpecFns;

use crate::sizing::u32_max;

verus! {

/// `c` is an ASCII decimal digit.
pub open spec fn is_digit(c: u8) -> bool {
    0x30 <= c <= 0x39
}

/// Every byte of `d` is a decimal digit.
pub open spec fn all_digits(d: Seq<u8>) -> bool {
    forall|i: int| 0 <= i < d.len() ==> is_digit(#[trigger] d[i])
}

/// `t` without its leading `+`, if it has one.
pub open spec fn unsigned_digits(t: Seq<u8>) -> Seq<u8> {
    if t.len() > 0 && t[0] == 0x2B {
        t.skip(1)
    } else {
        t
    }
}

/// The value of a string of decimal digits, most significant first.
pub open spec fn digits_value(d: Seq<u8>) -> nat
    decreases d.len(),
{
    if d.len() == 0 {
        0
    } else {
        digits_value(d.drop_last()) * 10 + (d.last() - 0x30) as nat
    }
}

/// The unsigned 32-bit integer written in `t`: an optional `+` followed by
/// one or more decimal digits whose value fits a `u32`. Any other text,
/// the empty text, signs alone and whitespace included, denotes none.
pub open spec fn unsigned_spec(t: Seq<u8>) -> Option<u32> {
    let d = unsigned_digits(t);
    if d.len() > 0 && all_digits(d) && digits_value(d) <= u32_max() {
        Some(digits_value(d) as u32)
    } else {
        None
    }
}

/// The position of the first `x` in `b` at or after `i`, or `b.len()` where
/// there is none.
pub open spec fn x_from(b: Seq<u8>, i: int) -> int
    decreases b.len() - i,
{
    if i >= b.len() || i < 0 {
        b.len() as int
    } else if b[i] == 0x78 {
        i
    } else {
        x_from(b, i + 1)
    }
}

/// The aspect ratio written in `b` as `WxH`: the text before the first `x`
/// and all the text after it must each be an unsigned integer. Text with no
/// `x` denotes none.
pub open spec fn aspect_spec(b: Seq<u8>) -> Option<(u32, u32)> {
    let p = x_from(b, 0);
    if p >= b.len() {
        None
    } else {
        match (unsigned_spec(b.subrange(0, p)), unsigned_spec(b.subrange(p + 1, b.len() as int))) {
            (Some(x), Some(y)) => Some((x, y)),
            _ => None,
        }
    }
}

/// A prefix of a digit string never has a larger value than the whole.
proof fn lemma_digits_prefix(d: Seq<u8>, k: int)
    requires
        0 <= k <= d.len(),
        all_digits(d),
    ensures
        digits_value(d.subrange(0, k)) <= digits_value(d),
    decreases d.len(),
{
    if k < d.len() {
        let front = d.drop_last();
        assert(front.subrange(0, k) =~= d.subrange(0, k));
        lemma_digits_prefix(front, k);
    } else {
        assert(d.subrange(0, k) =~= d);
    }
}

fn find_x(b: &[u8], from: usize) -> (r: usize)
    requires
        from <= b@.len(),
    ensures
        r as int == x_from(b@, from as int),
        from <= r <= b@.len(),
{
    let mut i: usize = from;
    while i < b.len()
        invariant
            from <= i <= b@.len(),
            x_from(b@, i as int) == x_from(b@, from as int),
        decreases b@.len() - i,
    {
        if b[i] == 0x78 {
            return i;
        }
        i = i + 1;
    }
    i
}

/// Reads an unsigned 32-bit integer written in decimal, with an optional
/// leading `+`.
pub fn parse_u32(t: &[u8]) -> (r: Option<u32>)
    ensures
        r == unsigned_spec(t@),
{
    let start: usize = if t.len() > 0 && t[0] == 0x2B {
        1
    } else {
        0
    };
    let ghost d = unsigned_digits(t@);
    assert(d =~= t@.subrange(start as int, t@.len() as int));
    if start == t.len() {
        return None;
    }
    let mut acc: u64 = 0;
    let mut i: usize = start;
    while i < t.len()
        invariant
            start <= i <= t@.len(),
            d == t@.subrange(start as int, t@.len() as int),
            d == unsigned_digits(t@),
            acc as nat == digits_value(d.subrange(0, i - start)),
            acc <= u32_max(),
            forall|k: int| 0 <= k < i - start ==> is_digit(#[trigger] d[k]),
        decreases t@.len() - i,
    {
        let c = t[i];
        if c < 0x30 || c > 0x39 {
            assert(!is_digit(d[i - start]));
            assert(!all_digits(d));
            assert(unsigned_spec(t@) is None);
            return None;
        }
        assert(d.subrange(0, i + 1 - start).drop_last() =~= d.subrange(0, i - start));
        assert(d.subrange(0, i + 1 - start).last() == c);
        acc = acc * 10 + (c - 0x30) as u64;
        if acc > 0xFFFF_FFFF {
            proof {
                if all_digits(d) {
                    lemma_digits_prefix(d, i + 1 - start);
                }
                assert(unsigned_spec(t@) is None);
            }
            return None;
        }
        i = i + 1;
    }
    assert(d.subrange(0, i - start) =~= d);
    Some(acc as u32)
}

/// Reads an aspect ratio written as `WxH`, such as `16x9`, into its two
/// sides. The text is split at its first `x`; the text before it and the
/// text after it must each be an unsigned integer, so `1x2x3` has none.
pub fn parse_aspect(joined: &str) -> (r: Option<(u32, u32)>)
    ensures
        r == aspect_spec(joined.spec_bytes()),
{
    let b = joined.as_bytes();
    let p = find_x(b, 0);
    if p == b.len() {
        return None;
    }
    let x = parse_u32(&b[0..p]);
    let y = parse_u32(&b[p + 1..b.len()]);
    match (x, y) {
        (Some(x), Some(y)) => Some((x, y)),
        _ => None,
    }
}

} // verus!
