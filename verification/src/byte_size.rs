//! Parsing of byte counts written the way `dd`'s `bs=` and `ls -h` write
//! them: a plain integer, or one followed by a `k`/`m`/`g` (or
//! `kb`/`mb`/`gb`) suffix, case-insensitive, each a power of 1024.

use vstd::prelude::*;

use crate::error::{debug_str, spec_debug_str};
use crate::text::{
    ascii_lower_chars, ascii_lower_seq, chars_of, ends_with_chars, is_ascii_digit,
    is_ascii_digit_exec, slice_chars, trim, trim_chars,
};

verus! {

/// Default for the slow-pipe buffer size: 8 MiB.
pub const DEFAULT_SLOW_PIPE_BUFFER_SIZE: usize = 8388608;

pub open spec fn ends_with(s: Seq<char>, p: Seq<char>) -> bool {
    p.len() <= s.len() && s.subrange(s.len() - p.len(), s.len() as int) == p
}

pub open spec fn drop_end(s: Seq<char>, n: nat) -> Seq<char> {
    s.subrange(0, s.len() - n)
}

/// Splits a lowercased size into its number part and the multiplier its
/// suffix stands for.
pub open spec fn suffix_split(lower: Seq<char>) -> (Seq<char>, nat) {
    if ends_with(lower, "kb"@) {
        (drop_end(lower, 2), 1024)
    } else if ends_with(lower, "k"@) {
        (drop_end(lower, 1), 1024)
    } else if ends_with(lower, "mb"@) {
        (drop_end(lower, 2), 1048576)
    } else if ends_with(lower, "m"@) {
        (drop_end(lower, 1), 1048576)
    } else if ends_with(lower, "gb"@) {
        (drop_end(lower, 2), 1073741824)
    } else if ends_with(lower, "g"@) {
        (drop_end(lower, 1), 1073741824)
    } else if ends_with(lower, "b"@) {
        (drop_end(lower, 1), 1)
    } else {
        (lower, 1)
    }
}

/// The value of a run of ASCII decimal digits.
pub open spec fn digits_value(d: Seq<char>) -> nat
    decreases d.len(),
{
    if d.len() == 0 {
        0
    } else {
        digits_value(d.drop_last()) * 10 + ((d.last() as u32) - 48) as nat
    }
}

pub open spec fn all_digits(d: Seq<char>) -> bool {
    forall|i: int| 0 <= i < d.len() ==> is_ascii_digit(#[trigger] d[i])
}

/// What `str::parse::<usize>` accepts: an optional `+`, then one or more
/// ASCII digits whose value fits in a `usize`.
pub open spec fn spec_parse_usize(d: Seq<char>) -> Option<nat> {
    let digits = if d.len() > 0 && d[0] == '+' { d.drop_first() } else { d };
    if digits.len() > 0 && all_digits(digits) && digits_value(digits) <= usize::MAX {
        Some(digits_value(digits))
    } else {
        None
    }
}

/// The number part of `s` (trimmed, lowercased, suffix removed, trimmed
/// again) as `str::parse::<usize>` reads it, and the suffix's multiplier.
pub open spec fn spec_size_parts(s: Seq<char>) -> (Option<nat>, nat) {
    let lower = ascii_lower_seq(trim(s, false));
    let (digits, mult) = suffix_split(lower);
    (spec_parse_usize(trim(digits, false)), mult)
}

/// The byte count `s` denotes, if it denotes one that fits in a `usize`.
pub open spec fn spec_parse_byte_size(s: Seq<char>) -> Option<nat> {
    let (count, mult) = spec_size_parts(s);
    match count {
        Some(c) => if c * mult <= usize::MAX { Some(c * mult) } else { None },
        None => None,
    }
}

pub open spec fn invalid_size_message(s: Seq<char>) -> Seq<char> {
    spec_debug_str(s) + " is not a valid size: expected a number, optionally followed by k, m, or g"@
}

pub open spec fn too_large_message(s: Seq<char>) -> Seq<char> {
    spec_debug_str(s) + " is too large"@
}

proof fn lemma_digits_value_monotone(d: Seq<char>, i: int, j: int)
    requires
        0 <= i <= j <= d.len(),
    ensures
        digits_value(d.subrange(0, i)) <= digits_value(d.subrange(0, j)),
    decreases j - i,
{
    if i < j {
        lemma_digits_value_monotone(d, i, j - 1);
        assert(d.subrange(0, j).drop_last() == d.subrange(0, j - 1));
    }
}

/// Parses ASCII decimal digits, optionally preceded by `+`, the way
/// `str::parse::<usize>` does.
pub fn parse_usize(d: &[char]) -> (r: Option<usize>)
    ensures
        r matches Some(v) ==> spec_parse_usize(d@) == Some(v as nat),
        r is None ==> spec_parse_usize(d@) is None,
{
    let start: usize = if d.len() > 0 && d[0] == '+' { 1 } else { 0 };
    let ghost digits = if d@.len() > 0 && d@[0] == '+' { d@.drop_first() } else { d@ };
    proof {
        assert(digits == d@.subrange(start as int, d@.len() as int));
    }
    if start >= d.len() {
        return None;
    }
    let mut v: usize = 0;
    let mut i: usize = start;
    while i < d.len()
        invariant
            start <= i <= d@.len(),
            start < d@.len(),
            digits == d@.subrange(start as int, d@.len() as int),
            digits == (if d@.len() > 0 && d@[0] == '+' { d@.drop_first() } else { d@ }),
            all_digits(digits.subrange(0, i - start)),
            v as nat == digits_value(digits.subrange(0, i - start)),
        decreases d.len() - i,
    {
        let c = d[i];
        if !is_ascii_digit_exec(c) {
            proof {
                assert(digits[i - start] == c);
                assert(!all_digits(digits));
            }
            return None;
        }
        let dv: usize = (c as u32 - 48) as usize;
        proof {
            assert(digits.subrange(0, i - start + 1).drop_last() == digits.subrange(0, i - start));
            assert(digits.subrange(0, i - start + 1).last() == c);
        }
        if v > (usize::MAX - dv) / 10 {
            proof {
                assert(v * 10 + dv > usize::MAX) by (nonlinear_arith)
                    requires
                        v > (usize::MAX - dv) / 10,
                        dv <= 9,
                ;
                lemma_digits_value_monotone(digits, i - start + 1, digits.len() as int);
                assert(digits.subrange(0, digits.len() as int) == digits);
            }
            return None;
        }
        proof {
            assert(v * 10 + dv <= usize::MAX) by (nonlinear_arith)
                requires
                    v <= (usize::MAX - dv) / 10,
                    dv <= 9,
            ;
        }
        v = v * 10 + dv;
        proof {
            assert forall|k: int| 0 <= k < i - start + 1 implies is_ascii_digit(#[trigger] digits.subrange(0, i - start + 1)[k]) by {
                if k < i - start {
                    assert(digits.subrange(0, i - start + 1)[k] == digits.subrange(0, i - start)[k]);
                }
            }
        }
        i = i + 1;
    }
    proof {
        assert(digits.subrange(0, digits.len() as int) == digits);
    }
    Some(v)
}

fn suffix_split_exec(lower: &[char]) -> (r: (Vec<char>, usize))
    ensures
        r.0@ == suffix_split(lower@).0,
        r.1 as nat == suffix_split(lower@).1,
{
    proof {
        reveal_strlit("kb");
        reveal_strlit("k");
        reveal_strlit("mb");
        reveal_strlit("m");
        reveal_strlit("gb");
        reveal_strlit("g");
        reveal_strlit("b");
    }
    let kb = chars_of("kb");
    let k = chars_of("k");
    let mb = chars_of("mb");
    let m = chars_of("m");
    let gb = chars_of("gb");
    let g = chars_of("g");
    let b = chars_of("b");
    let n = lower.len();
    if ends_with_chars(lower, kb.as_slice()) {
        (slice_chars(lower, 0, n - 2), 1024)
    } else if ends_with_chars(lower, k.as_slice()) {
        (slice_chars(lower, 0, n - 1), 1024)
    } else if ends_with_chars(lower, mb.as_slice()) {
        (slice_chars(lower, 0, n - 2), 1048576)
    } else if ends_with_chars(lower, m.as_slice()) {
        (slice_chars(lower, 0, n - 1), 1048576)
    } else if ends_with_chars(lower, gb.as_slice()) {
        (slice_chars(lower, 0, n - 2), 1073741824)
    } else if ends_with_chars(lower, g.as_slice()) {
        (slice_chars(lower, 0, n - 1), 1073741824)
    } else if ends_with_chars(lower, b.as_slice()) {
        (slice_chars(lower, 0, n - 1), 1)
    } else {
        proof {
            assert(lower@.subrange(0, n as int) == lower@);
        }
        (slice_chars(lower, 0, n), 1)
    }
}

/// Parses a byte count for the slow-pipe buffer size: a plain integer, or
/// one followed by a `k`/`m`/`g` (or `kb`/`mb`/`gb`) suffix,
/// case-insensitive, each multiplying by 1024; a `b` suffix multiplies by
/// one. Surrounding whitespace is ignored. Refuses anything else, and a
/// count too large for a `usize`.
pub fn parse_byte_size(s: &str) -> (r: Result<usize, String>)
    ensures
        r matches Ok(v) ==> spec_parse_byte_size(s@) == Some(v as nat),
        r is Err <==> spec_parse_byte_size(s@) is None,
        r matches Err(m) ==> (if spec_size_parts(s@).0 is None {
            m@ == invalid_size_message(s@)
        } else {
            m@ == too_large_message(s@)
        }),
{
    let cs = chars_of(s);
    let trimmed = trim_chars(cs.as_slice(), false);
    let lower = ascii_lower_chars(trimmed.as_slice());
    let (digits, mult) = suffix_split_exec(lower.as_slice());
    let digits_trimmed = trim_chars(digits.as_slice(), false);
    match parse_usize(digits_trimmed.as_slice()) {
        None => {
            let mut m = debug_str(s);
            m.append(" is not a valid size: expected a number, optionally followed by k, m, or g");
            Err(m)
        },
        Some(count) => {
            match count.checked_mul(mult) {
                Some(v) => Ok(v),
                None => {
                    let mut m = debug_str(s);
                    m.append(" is too large");
                    Err(m)
                },
            }
        },
    }
}

} // verus!
