//! How the filesystem browser renders sizes, permission bits and
//! timestamps in its previews.

use vstd::prelude::*;

use crate::civil::{civil_from_days, spec_civil_from_days};
use crate::text::{
    append_chars, decimal, decimal_chars, decimal_padded, decimal_padded_chars, digit_char,
    digit_exec, signed_padded, signed_padded_chars, string_of,
};

verus! {

/// `r`, `w` or `x` when the permission bit is set, `-` otherwise.
pub open spec fn perm_char(set: bool, c: char) -> char {
    if set { c } else { '-' }
}

/// The `rwx` rendering of the low three permission bits of `bits`.
pub open spec fn spec_rwx(bits: u32) -> Seq<char> {
    seq![perm_char(bits & 4 != 0, 'r'), perm_char(bits & 2 != 0, 'w'), perm_char(bits & 1 != 0, 'x')]
}

fn rwx_chars(bits: u32) -> (r: Vec<char>)
    ensures
        r@ == spec_rwx(bits),
{
    let mut r: Vec<char> = Vec::new();
    r.push(if bits & 4 != 0 { 'r' } else { '-' });
    r.push(if bits & 2 != 0 { 'w' } else { '-' });
    r.push(if bits & 1 != 0 { 'x' } else { '-' });
    proof {
        assert(r@ =~= spec_rwx(bits));
    }
    r
}

/// `rwx`-style rendering of the low three bits of `bits`: `r` for the 4
/// bit, `w` for the 2 bit, `x` for the 1 bit, `-` for each one unset.
pub fn rwx_triplet(bits: u32) -> (s: String)
    ensures
        s@ == spec_rwx(bits),
{
    let r = rwx_chars(bits);
    string_of(r.as_slice())
}

/// `format_permissions(mode)`: the permission bits of `mode` as three
/// octal digits, then their `rwx` rendering for owner, group and others,
/// e.g. `"755 (rwxr-xr-x)"`.
pub open spec fn spec_format_permissions(mode: u32) -> Seq<char> {
    let perm = mode & 0o777;
    seq![digit_char(((perm >> 6) & 7) as nat), digit_char(((perm >> 3) & 7) as nat), digit_char((perm & 7) as nat), ' ', '(']
        + spec_rwx((perm >> 6) & 7) + spec_rwx((perm >> 3) & 7) + spec_rwx(perm & 7) + seq![')']
}

/// Renders the permission bits of a Unix `mode` as `"755 (rwxr-xr-x)"`.
pub fn format_permissions(mode: u32) -> (s: String)
    ensures
        s@ == spec_format_permissions(mode),
{
    let perm: u32 = mode & 0o777;
    let hi: u32 = (perm >> 6) & 7;
    let mid: u32 = (perm >> 3) & 7;
    let lo: u32 = perm & 7;
    proof {
        assert(hi <= 7 && mid <= 7 && lo <= 7) by (bit_vector)
            requires hi == (perm >> 6) & 7, mid == (perm >> 3) & 7, lo == perm & 7;
    }
    let mut r: Vec<char> = Vec::new();
    r.push(digit_exec(hi as u64));
    r.push(digit_exec(mid as u64));
    r.push(digit_exec(lo as u64));
    r.push(' ');
    r.push('(');
    let a = rwx_chars(hi);
    let b = rwx_chars(mid);
    let c = rwx_chars(lo);
    append_chars(&mut r, a.as_slice());
    append_chars(&mut r, b.as_slice());
    append_chars(&mut r, c.as_slice());
    r.push(')');
    proof {
        assert(r@ =~= spec_format_permissions(mode));
    }
    string_of(r.as_slice())
}

/// `format_time(secs)`: the UTC civil date and time `secs` seconds after
/// the Unix epoch, as `YYYY-MM-DD hh:mm:ss UTC`.
pub open spec fn spec_format_time(secs: int) -> Seq<char> {
    let days = secs / 86400;
    let tod = secs % 86400;
    let (y, m, d) = spec_civil_from_days(days);
    signed_padded(y, 4) + seq!['-'] + decimal_padded(m as nat, 2) + seq!['-'] + decimal_padded(d as nat, 2)
        + seq![' '] + decimal_padded((tod / 3600) as nat, 2) + seq![':'] + decimal_padded(((tod % 3600) / 60) as nat, 2)
        + seq![':'] + decimal_padded((tod % 60) as nat, 2) + " UTC"@
}

/// Renders a timestamp (whole seconds since the Unix epoch, negative
/// before it) as `YYYY-MM-DD hh:mm:ss UTC`. The timestamp carries no zone,
/// so it is shown as UTC.
pub fn format_time(secs: i64) -> (s: String)
    ensures
        s@ == spec_format_time(secs as int),
{
    let (days, tod): (i64, i64) = if secs >= 0 {
        (secs / 86400, secs % 86400)
    } else {
        let n: i64 = -(secs + 1);
        let q: i64 = n / 86400;
        let r: i64 = n % 86400;
        proof {
            assert(-q - 1 == secs as int / 86400 && 86399 - r == secs as int % 86400) by (nonlinear_arith)
                requires
                    q == n / 86400,
                    r == n % 86400,
                    n == -(secs + 1),
                    n >= 0;
        }
        (-q - 1, 86399 - r)
    };
    let (year, month, day) = civil_from_days(days);
    let hour: u64 = (tod / 3600) as u64;
    let minute: u64 = ((tod % 3600) / 60) as u64;
    let second: u64 = (tod % 60) as u64;
    let mut r = signed_padded_chars(year, 4);
    r.push('-');
    let mc = decimal_padded_chars(month as u64, 2);
    append_chars(&mut r, mc.as_slice());
    r.push('-');
    let dc = decimal_padded_chars(day as u64, 2);
    append_chars(&mut r, dc.as_slice());
    r.push(' ');
    let hc = decimal_padded_chars(hour, 2);
    append_chars(&mut r, hc.as_slice());
    r.push(':');
    let nc = decimal_padded_chars(minute, 2);
    append_chars(&mut r, nc.as_slice());
    r.push(':');
    let sc = decimal_padded_chars(second, 2);
    append_chars(&mut r, sc.as_slice());
    let mut s = string_of(r.as_slice());
    s.append(" UTC");
    proof {
        assert(s@ =~= spec_format_time(secs as int));
    }
    s
}


/// `1024^k`.
pub open spec fn pow1024(k: nat) -> nat
    decreases k,
{
    if k == 0 { 1 } else { 1024 * pow1024((k - 1) as nat) }
}

/// The binary unit a size of `b` bytes is shown in: the largest `k <= 5`
/// with `b >= 1024^k`, searching up from `k`.
pub open spec fn size_unit(b: nat, k: nat) -> nat
    decreases 5 - k,
{
    if k < 5 && b >= pow1024(k + 1) { size_unit(b, k + 1) } else { k }
}

/// The unit letters, `B` for bytes up to `P` for pebibytes.
pub open spec fn unit_char(k: nat) -> char {
    if k == 0 { 'B' } else if k == 1 { 'K' } else if k == 2 { 'M' } else if k == 3 { 'G' } else if k == 4 { 'T' } else { 'P' }
}

proof fn lemma_pow1024_pos(k: nat)
    ensures
        pow1024(k) >= 1,
    decreases k,
{
    if k > 0 {
        lemma_pow1024_pos((k - 1) as nat);
    }
}

/// `b / p` rounded to the nearest integer, ties to even, times `p`.
pub open spec fn round_at(b: nat, p: nat) -> nat {
    let q = b / p;
    let r = b % p;
    if p > 1 && (r > p / 2 || (r == p / 2 && q % 2 == 1)) { (q + 1) * p } else { q * p }
}

/// `b` rounded to 53 significant bits, ties to even, starting from the
/// power of two `p`: the value `b as f64` holds.
pub open spec fn round_to_f64(b: nat, p: nat) -> nat
    decreases b - p,
{
    if p == 0 || b / p < 0x20_0000_0000_0000 {
        round_at(b, p)
    } else {
        proof {
            assert(p * 0x20_0000_0000_0000 <= b) by (nonlinear_arith)
                requires b / p >= 0x20_0000_0000_0000, p > 0;
        }
        round_to_f64(b, 2 * p)
    }
}

/// `format!("{:.1}", n / d)` for the exact value `n / d >= 1`: one
/// decimal place, rounded to nearest with ties to an even last digit.
pub open spec fn one_decimal(n: nat, d: nat) -> Seq<char> {
    let t = (10 * n) / d;
    let r = (10 * n) % d;
    let q = if 2 * r > d || (2 * r == d && t % 2 == 1) { t + 1 } else { t };
    decimal(q / 10) + seq!['.', digit_char(q % 10)]
}

/// `human_size(b)`: `0B` for zero; a whole number of bytes below 1024;
/// otherwise the size in the largest binary unit (up to `P`) it reaches,
/// with one decimal place, as floating-point division computes it.
pub open spec fn spec_human_size(b: nat) -> Seq<char> {
    let k = size_unit(b, 0);
    if b == 0 {
        seq!['0', 'B']
    } else if k == 0 {
        decimal(b) + seq!['B']
    } else {
        one_decimal(round_to_f64(b, 1), pow1024(k)) + seq![unit_char(k)]
    }
}

fn unit_char_exec(k: u64) -> (c: char)
    ensures
        c == unit_char(k as nat),
{
    if k == 0 { 'B' } else if k == 1 { 'K' } else if k == 2 { 'M' } else if k == 3 { 'G' } else if k == 4 { 'T' } else { 'P' }
}

/// `b as f64`, as an exact integer.
pub(crate) fn f64_value(b: u128) -> (n: u128)
    requires
        1 <= b <= 0x1_0000_0000_0000_0000_0000_0000_0000,
    ensures
        n == round_to_f64(b as nat, 1),
        n <= 2 * b,
{
    let mut p: u128 = 1;
    let bb: u128 = b;
    while bb / p >= 0x20_0000_0000_0000
        invariant
            1 <= p <= bb,
            round_to_f64(bb as nat, p as nat) == round_to_f64(b as nat, 1),
            bb == b,
        decreases bb - p,
    {
        proof {
            assert(p * 0x20_0000_0000_0000 <= bb) by (nonlinear_arith)
                requires bb / p >= 0x20_0000_0000_0000, p > 0;
        }
        p = 2 * p;
    }
    let q: u128 = bb / p;
    let r: u128 = bb % p;
    proof {
        assert(q * p <= bb) by (nonlinear_arith)
            requires q as int == (bb as int) / (p as int), p > 0;
        assert(q * p + p <= bb + p);
        assert((q + 1) * p == q * p + p) by (nonlinear_arith);
    }
    if p > 1 && (r > p / 2 || (r == p / 2 && q % 2 == 1)) {
        (q + 1) * p
    } else {
        q * p
    }
}

/// Renders a byte count the way a file listing does: `0B`, `512B`,
/// `1.5K`, `2.0M`, up to `P`.
pub fn human_size(bytes: u64) -> (s: String)
    ensures
        s@ == spec_human_size(bytes as nat),
{
    if bytes == 0 {
        proof {
            reveal_strlit("0B");
        }
        return String::from_str("0B");
    }
    let mut unit: u64 = 0;
    let mut d: u64 = 1;
    while unit < 5 && bytes / d >= 1024
        invariant
            unit <= 5,
            d == pow1024(unit as nat),
            size_unit(bytes as nat, unit as nat) == size_unit(bytes as nat, 0),
            1 <= d <= bytes,
        decreases 5 - unit,
    {
        proof {
            assert(d * 1024 <= bytes) by (nonlinear_arith)
                requires bytes / d >= 1024, d > 0;
            assert(pow1024((unit + 1) as nat) == 1024 * d);
        }
        d = d * 1024;
        unit = unit + 1;
    }
    proof {
        if unit < 5 {
            assert(bytes < pow1024((unit + 1) as nat)) by (nonlinear_arith)
                requires bytes / d < 1024, d > 0, pow1024((unit + 1) as nat) == 1024 * d;
        }
        assert(size_unit(bytes as nat, unit as nat) == unit);
    }
    let mut r: Vec<char>;
    if unit == 0 {
        r = decimal_chars(bytes);
        r.push('B');
    } else {
        let n: u128 = f64_value(bytes as u128);
        let dd: u128 = d as u128;
        proof {
            assert(dd >= 1024) by {
                assert(pow1024(unit as nat) >= 1024) by {
                    reveal_with_fuel(pow1024, 2);
                    assert(unit >= 1);
                    assert(pow1024(unit as nat) == 1024 * pow1024((unit - 1) as nat));
                    lemma_pow1024_pos((unit - 1) as nat);
                }
            }
        }
        let t: u128 = (10 * n) / dd;
        let rem: u128 = (10 * n) % dd;
        let q: u128 = if 2 * rem > dd || (2 * rem == dd && t % 2 == 1) { t + 1 } else { t };
        proof {
            assert(t * 1024 <= 10 * n) by (nonlinear_arith)
                requires t as int == (10 * n as int) / (dd as int), dd >= 1024;
            assert(q / 10 <= 0xffff_ffff_ffff_ffff);
        }
        r = decimal_chars((q / 10) as u64);
        r.push('.');
        r.push(digit_exec((q % 10) as u64));
        r.push(unit_char_exec(unit));
    }
    proof {
        assert(r@ =~= spec_human_size(bytes as nat));
    }
    string_of(r.as_slice())
}

} // verus!
