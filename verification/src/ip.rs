//! Strict IPv4 address parsing on byte strings.
//!
//! A well-formed address is exactly four dot-separated decimal octets, each
//! one to three digits, each at most 255, with no leading zero (except the
//! octet `0` itself) and no other characters anywhere in the string.

use vstd::prelude::*;
use vstd::string::StringSliceAdditionalSpecFns;

verus! {

/// ASCII code of `.`.
pub const DOT: u8 = 46;

/// ASCII code of `0`.
pub const ZERO: u8 = 48;

/// ASCII code of `9`.
pub const NINE: u8 = 57;

pub open spec fn is_ascii_digit(b: u8) -> bool {
    ZERO <= b <= NINE
}

pub open spec fn all_digits(s: Seq<u8>) -> bool {
    forall|i: int| 0 <= i < s.len() ==> is_ascii_digit(#[trigger] s[i])
}

/// The number that a sequence of decimal digit bytes denotes.
pub open spec fn dec_value(s: Seq<u8>) -> int
    decreases s.len(),
{
    if s.len() == 0 {
        0
    } else {
        dec_value(s.drop_last()) * 10 + s.last() - ZERO
    }
}

/// A well-formed decimal octet: one to three digits, no leading zero unless
/// the octet is exactly `0`, value at most 255.
pub open spec fn valid_octet(s: Seq<u8>) -> bool {
    &&& 1 <= s.len() <= 3
    &&& all_digits(s)
    &&& (s.len() > 1 ==> s[0] != ZERO)
    &&& dec_value(s) <= 255
}

/// The segments of `s` between occurrences of the separator byte `sep`.
/// `n` separators yield `n + 1` segments; adjacent separators yield empty
/// segments.
pub open spec fn split_on(s: Seq<u8>, sep: u8) -> Seq<Seq<u8>>
    decreases s.len(),
{
    if s.len() == 0 {
        seq![Seq::<u8>::empty()]
    } else {
        let prev = split_on(s.drop_last(), sep);
        if s.last() == sep {
            prev.push(Seq::<u8>::empty())
        } else {
            prev.update(prev.len() - 1, prev.last().push(s.last()))
        }
    }
}

/// How many times `sep` occurs in `s`.
pub open spec fn sep_count(s: Seq<u8>, sep: u8) -> int
    decreases s.len(),
{
    if s.len() == 0 {
        0
    } else {
        sep_count(s.drop_last(), sep) + if s.last() == sep { 1int } else { 0int }
    }
}

/// `s` is a well-formed IPv4 address: exactly four dot-separated segments,
/// each a well-formed decimal octet.
pub open spec fn valid_ipv4(s: Seq<u8>) -> bool {
    &&& split_on(s, DOT).len() == 4
    &&& forall|i: int| 0 <= i < 4 ==> valid_octet(#[trigger] split_on(s, DOT)[i])
}

/// The 32-bit value of a well-formed IPv4 address, first octet most
/// significant.
pub open spec fn ipv4_value(s: Seq<u8>) -> int {
    let p = split_on(s, DOT);
    dec_value(p[0]) * 0x1000000 + dec_value(p[1]) * 0x10000 + dec_value(p[2]) * 0x100 + dec_value(
        p[3],
    )
}

pub(crate) proof fn lemma_split_on_len(s: Seq<u8>, sep: u8)
    ensures
        sep_count(s, sep) >= 0,
        split_on(s, sep).len() == sep_count(s, sep) + 1,
    decreases s.len(),
{
    if s.len() > 0 {
        lemma_split_on_len(s.drop_last(), sep);
    }
}

/// A sequence without the separator is a single segment.
proof fn lemma_split_on_no_sep(s: Seq<u8>, sep: u8)
    requires
        forall|i: int| 0 <= i < s.len() ==> s[i] != sep,
    ensures
        split_on(s, sep) == seq![s],
    decreases s.len(),
{
    if s.len() == 0 {
        assert(split_on(s, sep) =~~= seq![s]);
    } else {
        lemma_split_on_no_sep(s.drop_last(), sep);
        assert(s.drop_last().push(s.last()) =~= s);
        assert(split_on(s, sep) =~~= seq![s]);
    }
}

/// Appending the separator closes the last segment and opens an empty one.
proof fn lemma_split_on_push_sep(s: Seq<u8>, sep: u8)
    ensures
        split_on(s.push(sep), sep) == split_on(s, sep).push(Seq::<u8>::empty()),
{
    assert(s.push(sep).drop_last() =~= s);
}

/// Appending separator-free bytes extends the last segment.
proof fn lemma_split_on_append_no_sep(a: Seq<u8>, b: Seq<u8>, sep: u8)
    requires
        forall|i: int| 0 <= i < b.len() ==> b[i] != sep,
    ensures
        split_on(a + b, sep) == split_on(a, sep).update(
            split_on(a, sep).len() - 1,
            split_on(a, sep).last() + b,
        ),
    decreases b.len(),
{
    let sa = split_on(a, sep);
    lemma_split_on_len(a, sep);
    if b.len() == 0 {
        assert(a + b =~= a);
        assert(sa.last() + b =~= sa.last());
        assert(sa.update(sa.len() - 1, sa.last() + b) =~~= sa);
    } else {
        lemma_split_on_append_no_sep(a, b.drop_last(), sep);
        assert((a + b).drop_last() =~= a + b.drop_last());
        assert((a + b).last() == b.last());
        let mid = split_on(a + b.drop_last(), sep);
        assert(mid.len() == sa.len());
        assert(mid.last() == sa.last() + b.drop_last());
        assert((sa.last() + b.drop_last()).push(b.last()) =~= sa.last() + b);
        assert(split_on(a + b, sep) =~~= sa.update(sa.len() - 1, sa.last() + b));
    }
}

/// With exactly one separator, at `d0`, the split is the two surrounding
/// subranges.
pub(crate) proof fn lemma_split_on_one(s: Seq<u8>, sep: u8, d0: int)
    requires
        0 <= d0 < s.len(),
        s[d0] == sep,
        forall|m: int| 0 <= m < s.len() && s[m] == sep ==> m == d0,
    ensures
        split_on(s, sep) == seq![s.subrange(0, d0), s.subrange(d0 + 1, s.len() as int)],
{
    let s0 = s.subrange(0, d0);
    let s1 = s.subrange(d0 + 1, s.len() as int);
    lemma_split_on_no_sep(s0, sep);
    lemma_split_on_push_sep(s0, sep);
    assert(s0.push(sep) =~= s.subrange(0, d0 + 1));
    lemma_split_on_append_no_sep(s.subrange(0, d0 + 1), s1, sep);
    assert(s.subrange(0, d0 + 1) + s1 =~= s);
    assert(split_on(s, sep) =~~= seq![s0, s1]);
}

/// With exactly three separators, at `d0 < d1 < d2`, the split is the four
/// surrounding subranges.
proof fn lemma_split_on_three(s: Seq<u8>, sep: u8, d0: int, d1: int, d2: int)
    requires
        0 <= d0 < d1 < d2 < s.len(),
        s[d0] == sep,
        s[d1] == sep,
        s[d2] == sep,
        forall|m: int| 0 <= m < s.len() && s[m] == sep ==> m == d0 || m == d1 || m == d2,
    ensures
        split_on(s, sep) == seq![
            s.subrange(0, d0),
            s.subrange(d0 + 1, d1),
            s.subrange(d1 + 1, d2),
            s.subrange(d2 + 1, s.len() as int),
        ],
{
    let s0 = s.subrange(0, d0);
    let s1 = s.subrange(d0 + 1, d1);
    let s2 = s.subrange(d1 + 1, d2);
    let s3 = s.subrange(d2 + 1, s.len() as int);
    lemma_split_on_no_sep(s0, sep);
    lemma_split_on_push_sep(s0, sep);
    assert(s0.push(sep) =~= s.subrange(0, d0 + 1));
    lemma_split_on_append_no_sep(s.subrange(0, d0 + 1), s1, sep);
    assert(s.subrange(0, d0 + 1) + s1 =~= s.subrange(0, d1));
    assert(split_on(s.subrange(0, d1), sep) =~~= seq![s0, s1]);
    lemma_split_on_push_sep(s.subrange(0, d1), sep);
    assert(s.subrange(0, d1).push(sep) =~= s.subrange(0, d1 + 1));
    lemma_split_on_append_no_sep(s.subrange(0, d1 + 1), s2, sep);
    assert(s.subrange(0, d1 + 1) + s2 =~= s.subrange(0, d2));
    assert(split_on(s.subrange(0, d2), sep) =~~= seq![s0, s1, s2]);
    lemma_split_on_push_sep(s.subrange(0, d2), sep);
    assert(s.subrange(0, d2).push(sep) =~= s.subrange(0, d2 + 1));
    lemma_split_on_append_no_sep(s.subrange(0, d2 + 1), s3, sep);
    assert(s.subrange(0, d2 + 1) + s3 =~= s);
    assert(split_on(s, sep) =~~= seq![s0, s1, s2, s3]);
}

/// The value of a digit string is nonnegative, and bounded by its length:
/// at most 9 for one digit, 99 for two, 999 for three.
pub(crate) proof fn lemma_dec_value_bounds(s: Seq<u8>)
    requires
        all_digits(s),
    ensures
        0 <= dec_value(s),
        s.len() <= 1 ==> dec_value(s) <= 9,
        s.len() <= 2 ==> dec_value(s) <= 99,
        s.len() <= 3 ==> dec_value(s) <= 999,
    decreases s.len(),
{
    if s.len() > 0 {
        lemma_dec_value_bounds(s.drop_last());
    }
}

/// Checks whether `s[start..end]` is a well-formed decimal octet, and
/// returns its value if so.
fn check_octet(s: &[u8], start: usize, end: usize) -> (r: Option<u8>)
    requires
        start <= end <= s@.len(),
    ensures
        r is Some <==> valid_octet(s@.subrange(start as int, end as int)),
        r is Some ==> r->0 as int == dec_value(s@.subrange(start as int, end as int)),
{
    let ghost seg = s@.subrange(start as int, end as int);
    let len = end - start;
    if len == 0 || len > 3 {
        return None;
    }
    if len > 1 && s[start] == ZERO {
        return None;
    }
    let mut val: u32 = 0;
    let mut k: usize = 0;
    while k < len
        invariant
            start <= end <= s@.len(),
            len == end - start,
            1 <= len <= 3,
            k <= len,
            seg == s@.subrange(start as int, end as int),
            all_digits(seg.subrange(0, k as int)),
            val == dec_value(seg.subrange(0, k as int)),
            val <= 999,
        decreases len - k,
    {
        let b = s[start + k];
        assert(b == seg[k as int]);
        if b < ZERO || b > NINE {
            assert(!is_ascii_digit(seg[k as int]));
            return None;
        }
        proof {
            assert(seg.subrange(0, k as int + 1).drop_last() =~= seg.subrange(0, k as int));
            assert(seg.subrange(0, k as int + 1).last() == seg[k as int]);
            lemma_dec_value_bounds(seg.subrange(0, k as int));
        }
        val = val * 10 + (b - ZERO) as u32;
        k = k + 1;
    }
    assert(seg.subrange(0, len as int) =~= seg);
    if val > 255 {
        return None;
    }
    assert(valid_octet(seg));
    Some(val as u8)
}

/// Parses `s` as a strict IPv4 address; returns its 32-bit value, first
/// octet most significant, exactly when `s` is well formed.
pub fn parse_ipv4(s: &[u8]) -> (r: Option<u32>)
    ensures
        r is Some <==> valid_ipv4(s@),
        r is Some ==> r->0 as int == ipv4_value(s@),
{
    let n = s.len();
    let mut count: usize = 0;
    let mut d0: usize = 0;
    let mut d1: usize = 0;
    let mut d2: usize = 0;
    let mut i: usize = 0;
    while i < n
        invariant
            n == s@.len(),
            i <= n,
            count <= 4,
            count < 4 ==> count == sep_count(s@.subrange(0, i as int), DOT),
            count == 4 ==> sep_count(s@.subrange(0, i as int), DOT) >= 4,
            count >= 1 ==> d0 < i && s@[d0 as int] == DOT,
            count >= 2 ==> d0 < d1 < i && s@[d1 as int] == DOT,
            count >= 3 ==> d1 < d2 < i && s@[d2 as int] == DOT,
            count < 4 ==> forall|m: int|
                0 <= m < i && s@[m] == DOT ==> (count >= 1 && m == d0) || (count >= 2 && m == d1)
                    || (count >= 3 && m == d2),
        decreases n - i,
    {
        proof {
            assert(s@.subrange(0, i as int + 1).drop_last() =~= s@.subrange(0, i as int));
            assert(s@.subrange(0, i as int + 1).last() == s@[i as int]);
        }
        if s[i] == DOT {
            if count == 0 {
                d0 = i;
            } else if count == 1 {
                d1 = i;
            } else if count == 2 {
                d2 = i;
            }
            if count < 4 {
                count = count + 1;
            }
        }
        i = i + 1;
    }
    proof {
        assert(s@.subrange(0, n as int) =~= s@);
        lemma_split_on_len(s@, DOT);
    }
    if count != 3 {
        return None;
    }
    proof {
        lemma_split_on_three(s@, DOT, d0 as int, d1 as int, d2 as int);
    }
    let o0 = match check_octet(s, 0, d0) {
        Some(v) => v,
        None => {
            return None;
        },
    };
    let o1 = match check_octet(s, d0 + 1, d1) {
        Some(v) => v,
        None => {
            return None;
        },
    };
    let o2 = match check_octet(s, d1 + 1, d2) {
        Some(v) => v,
        None => {
            return None;
        },
    };
    let o3 = match check_octet(s, d2 + 1, n) {
        Some(v) => v,
        None => {
            return None;
        },
    };
    let value = (o0 as u32) * 0x1000000 + (o1 as u32) * 0x10000 + (o2 as u32) * 0x100 + (o3 as u32);
    Some(value)
}

/// True exactly when the string is a well-formed IPv4 address, judged on its
/// UTF-8 bytes.
pub fn is_valid_ipv4(ip_str: &str) -> (r: bool)
    ensures
        r == valid_ipv4(ip_str.spec_bytes()),
{
    parse_ipv4(ip_str.as_bytes()).is_some()
}

} // verus!
