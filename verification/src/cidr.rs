//! CIDR range membership on byte strings.
//!
//! A range is written as an IPv4 network address, a slash, and a decimal
//! prefix length of at most 32. An address is in the range exactly when its
//! top `prefix` bits agree with the network address's. Any malformed input
//! degrades to a `false` answer rather than an error.

use vstd::prelude::*;
use vstd::slice::slice_subrange;
use vstd::string::StringSliceAdditionalSpecFns;
use crate::ip::{
    all_digits, dec_value, ipv4_value, is_ascii_digit, lemma_split_on_len, lemma_split_on_one,
    parse_ipv4, sep_count, split_on, valid_ipv4, NINE, ZERO,
};

verus! {

/// ASCII code of `/`.
pub const SLASH: u8 = 47;

/// ASCII code of `+`.
pub const PLUS: u8 = 43;

/// The digits of a prefix-length string, an optional leading plus sign
/// stripped, as decimal integer parsing allows.
pub open spec fn prefix_digits(s: Seq<u8>) -> Seq<u8> {
    if s.len() > 0 && s[0] == PLUS {
        s.drop_first()
    } else {
        s
    }
}

/// A well-formed prefix length: an optional plus sign, then at least one
/// digit, denoting a value of at most 32.
pub open spec fn valid_prefix(s: Seq<u8>) -> bool {
    &&& prefix_digits(s).len() >= 1
    &&& all_digits(prefix_digits(s))
    &&& dec_value(prefix_digits(s)) <= 32
}

/// The prefix length that a well-formed prefix string denotes.
pub open spec fn prefix_value(s: Seq<u8>) -> int {
    dec_value(prefix_digits(s))
}

/// The network mask with the top `p` bits set.
pub open spec fn mask_of(p: int) -> u32 {
    if p <= 0 {
        0u32
    } else {
        0xFFFFFFFFu32 << ((32 - p) as u32)
    }
}

/// The candidate address `ip` lies in the range `cidr`: both parse, the
/// range has exactly one slash, its prefix length is at most 32, and the two
/// addresses agree on the masked prefix bits. Anything malformed, an IPv6
/// address included, fails this predicate.
pub open spec fn in_cidr(ip: Seq<u8>, cidr: Seq<u8>) -> bool {
    let parts = split_on(cidr, SLASH);
    let mask = mask_of(prefix_value(parts[1]));
    &&& valid_ipv4(ip)
    &&& parts.len() == 2
    &&& valid_ipv4(parts[0])
    &&& valid_prefix(parts[1])
    &&& (ipv4_value(ip) as u32) & mask == (ipv4_value(parts[0]) as u32) & mask
}

/// Parses a prefix-length string; returns the value exactly when the string
/// is well formed and denotes at most 32.
fn parse_prefix(s: &[u8]) -> (r: Option<u8>)
    ensures
        r is Some <==> valid_prefix(s@),
        r is Some ==> r->0 as int == prefix_value(s@),
{
    let n = s.len();
    let mut start: usize = 0;
    if n > 0 && s[0] == PLUS {
        start = 1;
    }
    let ghost digits = prefix_digits(s@);
    proof {
        assert(digits =~= s@.subrange(start as int, n as int));
    }
    if start >= n {
        return None;
    }
    let mut val: u32 = 0;
    let mut over: bool = false;
    let mut k: usize = start;
    while k < n
        invariant
            start <= k <= n,
            n == s@.len(),
            digits == prefix_digits(s@),
            digits =~= s@.subrange(start as int, n as int),
            all_digits(s@.subrange(start as int, k as int)),
            !over ==> val == dec_value(s@.subrange(start as int, k as int)) && val <= 32,
            over ==> dec_value(s@.subrange(start as int, k as int)) > 32,
        decreases n - k,
    {
        let b = s[k];
        if b < ZERO || b > NINE {
            assert(digits[k - start] == s@[k as int]);
            assert(!is_ascii_digit(digits[k - start]));
            assert(!all_digits(digits));
            return None;
        }
        proof {
            assert(s@.subrange(start as int, k as int + 1).drop_last() =~= s@.subrange(
                start as int,
                k as int,
            ));
            assert(s@.subrange(start as int, k as int + 1).last() == s@[k as int]);
            crate::ip::lemma_dec_value_bounds(s@.subrange(start as int, k as int));
        }
        if over {
        } else {
            let nv = val * 10 + (b - ZERO) as u32;
            if nv > 32 {
                over = true;
            } else {
                val = nv;
            }
        }
        k = k + 1;
    }
    proof {
        assert(s@.subrange(start as int, n as int) =~= digits);
    }
    if over {
        None
    } else {
        Some(val as u8)
    }
}

/// True exactly when `ip_str` names an IPv4 address inside the CIDR range
/// `cidr_str`, judged on the strings' UTF-8 bytes; every malformed input
/// yields `false`.
pub fn is_ip_in_cidr(ip_str: &str, cidr_str: &str) -> (r: bool)
    ensures
        r == in_cidr(ip_str.spec_bytes(), cidr_str.spec_bytes()),
{
    let ipv = match parse_ipv4(ip_str.as_bytes()) {
        Some(v) => v,
        None => {
            return false;
        },
    };
    let c = cidr_str.as_bytes();
    let n = c.len();
    let mut count: usize = 0;
    let mut d0: usize = 0;
    let mut i: usize = 0;
    while i < n
        invariant
            n == c@.len(),
            i <= n,
            count <= 2,
            count < 2 ==> count == sep_count(c@.subrange(0, i as int), SLASH),
            count == 2 ==> sep_count(c@.subrange(0, i as int), SLASH) >= 2,
            count >= 1 ==> d0 < i && c@[d0 as int] == SLASH,
            count < 2 ==> forall|m: int|
                0 <= m < i && c@[m] == SLASH ==> count >= 1 && m == d0,
        decreases n - i,
    {
        proof {
            assert(c@.subrange(0, i as int + 1).drop_last() =~= c@.subrange(0, i as int));
            assert(c@.subrange(0, i as int + 1).last() == c@[i as int]);
        }
        if c[i] == SLASH {
            if count == 0 {
                d0 = i;
            }
            if count < 2 {
                count = count + 1;
            }
        }
        i = i + 1;
    }
    proof {
        assert(c@.subrange(0, n as int) =~= c@);
        lemma_split_on_len(c@, SLASH);
    }
    if count != 1 {
        return false;
    }
    proof {
        lemma_split_on_one(c@, SLASH, d0 as int);
    }
    let netv = match parse_ipv4(slice_subrange(c, 0, d0)) {
        Some(v) => v,
        None => {
            return false;
        },
    };
    let p = match parse_prefix(slice_subrange(c, d0 + 1, n)) {
        Some(v) => v,
        None => {
            return false;
        },
    };
    let mask: u32 = if p == 0 {
        0
    } else {
        assert(1 <= p <= 32);
        0xFFFFFFFFu32 << (32 - p as u32)
    };
    assert(mask == mask_of(p as int));
    (ipv & mask) == (netv & mask)
}

} // verus!
