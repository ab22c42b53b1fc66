//! Character-level text helpers shared by the rest of the crate: the
//! classification predicates std offers on `char`, whitespace trimming,
//! splitting on a separator, and decimal rendering of integers, each with
//! the spec function that states what it computes.

use vstd::prelude::*;

verus! {

/// The characters of `s`, in order.
#[verifier::external_body]
pub fn chars_of(s: &str) -> (v: Vec<char>)
    ensures
        v@ == s@,
{
    s.chars().collect()
}

/// A `String` holding exactly the characters of `v`.
#[verifier::external_body]
pub fn string_of(v: &[char]) -> (s: String)
    ensures
        s@ == v@,
{
    v.iter().collect()
}

pub open spec fn is_ascii_alpha(c: char) -> bool {
    ('a' <= c && c <= 'z') || ('A' <= c && c <= 'Z')
}

pub open spec fn is_ascii_digit(c: char) -> bool {
    '0' <= c && c <= '9'
}

pub open spec fn is_ascii_alnum(c: char) -> bool {
    is_ascii_alpha(c) || is_ascii_digit(c)
}

/// `char::to_ascii_lowercase`: maps `A..=Z` to `a..=z`, everything else to
/// itself.
pub open spec fn ascii_lower(c: char) -> char {
    if 'A' <= c && c <= 'Z' {
        ((c as u32) + 32) as char
    } else {
        c
    }
}

pub open spec fn ascii_lower_seq(s: Seq<char>) -> Seq<char> {
    s.map_values(|c: char| ascii_lower(c))
}

/// `char::is_ascii_whitespace`: space, tab, line feed, form feed, carriage
/// return.
pub open spec fn is_ascii_ws(c: char) -> bool {
    c == ' ' || c == '\t' || c == '\n' || c == '\x0C' || c == '\r'
}

/// `char::is_whitespace`: the Unicode `White_Space` property.
pub open spec fn is_unicode_ws(c: char) -> bool {
    let n = c as u32;
    (0x09 <= n && n <= 0x0D) || n == 0x20 || n == 0x85 || n == 0xA0 || n == 0x1680
        || (0x2000 <= n && n <= 0x200A) || n == 0x2028 || n == 0x2029 || n == 0x202F
        || n == 0x205F || n == 0x3000
}

pub fn is_ascii_alpha_exec(c: char) -> (r: bool)
    ensures
        r == is_ascii_alpha(c),
{
    ('a' <= c && c <= 'z') || ('A' <= c && c <= 'Z')
}

pub fn is_ascii_digit_exec(c: char) -> (r: bool)
    ensures
        r == is_ascii_digit(c),
{
    '0' <= c && c <= '9'
}

pub fn ascii_lower_exec(c: char) -> (r: char)
    ensures
        r == ascii_lower(c),
{
    if 'A' <= c && c <= 'Z' {
        let n: u32 = (c as u32) + 32;
        proof {
            assert(0x61 <= n <= 0x7a);
        }
        char_from_ascii(n)
    } else {
        c
    }
}

/// The character with code point `n`, for an ASCII `n`.
pub fn char_from_ascii(n: u32) -> (c: char)
    requires
        n < 0x80,
    ensures
        c == n as char,
        c as u32 == n,
{
    (n as u8) as char
}

pub fn is_ascii_ws_exec(c: char) -> (r: bool)
    ensures
        r == is_ascii_ws(c),
{
    c == ' ' || c == '\t' || c == '\n' || c == '\x0C' || c == '\r'
}

pub fn is_unicode_ws_exec(c: char) -> (r: bool)
    ensures
        r == is_unicode_ws(c),
{
    let n = c as u32;
    (0x09 <= n && n <= 0x0D) || n == 0x20 || n == 0x85 || n == 0xA0 || n == 0x1680
        || (0x2000 <= n && n <= 0x200A) || n == 0x2028 || n == 0x2029 || n == 0x202F
        || n == 0x205F || n == 0x3000
}

pub fn is_ws_exec(c: char, ascii_only: bool) -> (r: bool)
    ensures
        r == is_ws(c, ascii_only),
{
    if ascii_only {
        is_ascii_ws_exec(c)
    } else {
        is_unicode_ws_exec(c)
    }
}

/// Number of leading characters of `s` satisfying `ws`.
pub open spec fn leading_count(s: Seq<char>, ascii_only: bool) -> nat
    decreases s.len(),
{
    if s.len() == 0 {
        0
    } else if (if ascii_only { is_ascii_ws(s[0]) } else { is_unicode_ws(s[0]) }) {
        1 + leading_count(s.drop_first(), ascii_only)
    } else {
        0
    }
}

/// Number of trailing characters of `s` satisfying `ws`.
pub open spec fn trailing_count(s: Seq<char>, ascii_only: bool) -> nat
    decreases s.len(),
{
    if s.len() == 0 {
        0
    } else if (if ascii_only { is_ascii_ws(s.last()) } else { is_unicode_ws(s.last()) }) {
        1 + trailing_count(s.drop_last(), ascii_only)
    } else {
        0
    }
}

pub open spec fn is_ws(c: char, ascii_only: bool) -> bool {
    if ascii_only { is_ascii_ws(c) } else { is_unicode_ws(c) }
}

/// `str::trim` (`ascii_only == false`) or `str::trim_ascii`
/// (`ascii_only == true`): `s` without its leading and trailing whitespace.
pub open spec fn trim(s: Seq<char>, ascii_only: bool) -> Seq<char> {
    let a = leading_count(s, ascii_only);
    if a == s.len() {
        Seq::empty()
    } else {
        s.subrange(a as int, s.len() - trailing_count(s, ascii_only))
    }
}

pub proof fn lemma_leading_count(s: Seq<char>, ascii_only: bool)
    ensures
        leading_count(s, ascii_only) <= s.len(),
        forall|j: int| 0 <= j < leading_count(s, ascii_only) ==> is_ws(#[trigger] s[j], ascii_only),
        leading_count(s, ascii_only) < s.len() ==> !is_ws(s[leading_count(s, ascii_only) as int], ascii_only),
    decreases s.len(),
{
    if s.len() > 0 {
        lemma_leading_count(s.drop_first(), ascii_only);
        if is_ws(s[0], ascii_only) {
            assert forall|j: int| 0 <= j < leading_count(s, ascii_only) implies is_ws(#[trigger] s[j], ascii_only) by {
                if j > 0 {
                    assert(s[j] == s.drop_first()[j - 1]);
                }
            }
        }
    }
}

pub proof fn lemma_leading_count_char(s: Seq<char>, ascii_only: bool, k: nat)
    requires
        k <= s.len(),
        forall|j: int| 0 <= j < k ==> is_ws(#[trigger] s[j], ascii_only),
        k < s.len() ==> !is_ws(s[k as int], ascii_only),
    ensures
        leading_count(s, ascii_only) == k,
    decreases s.len(),
{
    if s.len() > 0 && k > 0 {
        assert forall|j: int| 0 <= j < k - 1 implies is_ws(#[trigger] s.drop_first()[j], ascii_only) by {
            assert(s.drop_first()[j] == s[j + 1]);
        }
        lemma_leading_count_char(s.drop_first(), ascii_only, (k - 1) as nat);
    }
}

pub proof fn lemma_trailing_count_char(s: Seq<char>, ascii_only: bool, k: nat)
    requires
        k <= s.len(),
        forall|j: int| s.len() - k <= j < s.len() ==> is_ws(#[trigger] s[j], ascii_only),
        k < s.len() ==> !is_ws(s[s.len() - k - 1], ascii_only),
    ensures
        trailing_count(s, ascii_only) == k,
    decreases s.len(),
{
    if s.len() > 0 && k > 0 {
        assert forall|j: int| s.drop_last().len() - (k - 1) <= j < s.drop_last().len() implies is_ws(#[trigger] s.drop_last()[j], ascii_only) by {
            assert(s.drop_last()[j] == s[j]);
        }
        lemma_trailing_count_char(s.drop_last(), ascii_only, (k - 1) as nat);
    }
}

/// Trims `s` (as `trim` states), returning the kept characters.
pub fn trim_chars(s: &[char], ascii_only: bool) -> (r: Vec<char>)
    ensures
        r@ == trim(s@, ascii_only),
{
    let n = s.len();
    let mut a: usize = 0;
    while a < n && is_ws_exec(s[a], ascii_only)
        invariant
            a <= n,
            n == s@.len(),
            forall|j: int| 0 <= j < a ==> is_ws(#[trigger] s@[j], ascii_only),
        decreases n - a,
    {
        a = a + 1;
    }
    proof {
        lemma_leading_count_char(s@, ascii_only, a as nat);
    }
    let mut r: Vec<char> = Vec::new();
    if a == n {
        return r;
    }
    let mut b: usize = n;
    while b > a && is_ws_exec(s[b - 1], ascii_only)
        invariant
            a < n,
            a <= b <= n,
            n == s@.len(),
            !is_ws(s@[a as int], ascii_only),
            forall|j: int| b <= j < n ==> is_ws(#[trigger] s@[j], ascii_only),
        decreases b,
    {
        b = b - 1;
    }
    proof {
        lemma_trailing_count_char(s@, ascii_only, (n - b) as nat);
    }
    let mut i = a;
    while i < b
        invariant
            a <= i <= b <= n,
            n == s@.len(),
            r@ == s@.subrange(a as int, i as int),
        decreases b - i,
    {
        r.push(s[i]);
        i = i + 1;
    }
    r
}

/// Lowercases every ASCII letter of `s`.
pub fn ascii_lower_chars(s: &[char]) -> (r: Vec<char>)
    ensures
        r@ == ascii_lower_seq(s@),
{
    let mut r: Vec<char> = Vec::new();
    let mut i: usize = 0;
    while i < s.len()
        invariant
            i <= s@.len(),
            r@ == ascii_lower_seq(s@.subrange(0, i as int)),
        decreases s.len() - i,
    {
        r.push(ascii_lower_exec(s[i]));
        proof {
            assert(s@.subrange(0, i + 1) == s@.subrange(0, i as int).push(s@[i as int]));
        }
        i = i + 1;
    }
    proof {
        assert(s@.subrange(0, s@.len() as int) == s@);
    }
    r
}

/// `s.split(c)`: the pieces between occurrences of `c`, always at least one.
pub open spec fn split_char(s: Seq<char>, c: char) -> Seq<Seq<char>>
    decreases s.len(),
{
    if s.len() == 0 {
        seq![Seq::<char>::empty()]
    } else {
        let rest = split_char(s.drop_first(), c);
        if s[0] == c {
            seq![Seq::<char>::empty()] + rest
        } else {
            rest.update(0, seq![s[0]] + rest[0])
        }
    }
}

pub proof fn lemma_split_char_nonempty(s: Seq<char>, c: char)
    ensures
        split_char(s, c).len() >= 1,
    decreases s.len(),
{
    if s.len() > 0 {
        lemma_split_char_nonempty(s.drop_first(), c);
    }
}

/// The non-empty pieces of `split_char(s, c)`, in order.
pub open spec fn nonempty_pieces(p: Seq<Seq<char>>) -> Seq<Seq<char>> {
    p.filter(|x: Seq<char>| x.len() > 0)
}

/// `s.split(c).filter(|p| !p.is_empty())`.
pub open spec fn split_nonempty(s: Seq<char>, c: char) -> Seq<Seq<char>> {
    nonempty_pieces(split_char(s, c))
}

/// Splits `s` on `c`, returning every piece (as `split_char` states).
pub fn split_chars(s: &[char], c: char) -> (r: Vec<Vec<char>>)
    ensures
        r@.len() == split_char(s@, c).len(),
        forall|i: int| 0 <= i < r@.len() ==> #[trigger] r@[i]@ == split_char(s@, c)[i],
{
    let ghost whole = s@;
    let mut done: Vec<Vec<char>> = Vec::new();
    let mut cur: Vec<char> = Vec::new();
    let mut i: usize = 0;
    proof {
        assert(whole.skip(0) == whole);
        lemma_split_char_nonempty(whole, c);
    }
    while i < s.len()
        invariant
            i <= s@.len(),
            whole == s@,
            ({
                let rest = split_char(whole.skip(i as int), c);
                &&& rest.len() >= 1
                &&& split_char(whole, c).len() == done@.len() + rest.len()
                &&& forall|k: int| 0 <= k < done@.len() ==> #[trigger] done@[k]@ == split_char(whole, c)[k]
                &&& split_char(whole, c)[done@.len() as int] == cur@ + rest[0]
                &&& forall|k: int| 1 <= k < rest.len() ==> split_char(whole, c)[done@.len() + k] == #[trigger] rest[k]
            }),
        decreases s.len() - i,
    {
        let ghost suffix = whole.skip(i as int);
        let ghost rest1 = split_char(whole.skip(i + 1), c);
        let ghost old_done = done@;
        let ghost old_cur = cur@;
        let ghost total = split_char(whole, c);
        proof {
            assert(suffix.drop_first() == whole.skip(i + 1));
            assert(suffix[0] == s@[i as int]);
            lemma_split_char_nonempty(whole.skip(i + 1), c);
        }
        if s[i] == c {
            let piece = cur;
            done.push(piece);
            cur = Vec::new();
            proof {
                assert(split_char(suffix, c) == seq![Seq::<char>::empty()] + rest1);
                assert(old_cur + Seq::<char>::empty() =~= old_cur);
                assert(total[old_done.len() as int] == old_cur);
                assert(done@[old_done.len() as int]@ == old_cur);
                assert forall|k: int| 0 <= k < done@.len() implies #[trigger] done@[k]@ == total[k] by {
                    if k < old_done.len() {
                        assert(done@[k] == old_done[k]);
                    }
                }
                assert(total[done@.len() as int] == split_char(suffix, c)[1]);
                assert(cur@ + rest1[0] =~= rest1[0]);
                assert forall|k: int| 1 <= k < rest1.len() implies total[done@.len() + k] == #[trigger] rest1[k] by {
                    assert(split_char(suffix, c)[k + 1] == rest1[k]);
                }
            }
        } else {
            cur.push(s[i]);
            proof {
                assert(split_char(suffix, c) == rest1.update(0, seq![suffix[0]] + rest1[0]));
                assert(total[old_done.len() as int] == old_cur + (seq![suffix[0]] + rest1[0]));
                assert(cur@ == old_cur.push(suffix[0]));
                assert(cur@ + rest1[0] =~= old_cur + (seq![suffix[0]] + rest1[0]));
                assert forall|k: int| 1 <= k < rest1.len() implies total[done@.len() + k] == #[trigger] rest1[k] by {
                    assert(split_char(suffix, c)[k] == rest1[k]);
                }
            }
        }
        i = i + 1;
    }
    proof {
        assert(whole.skip(i as int).len() == 0);
        assert(split_char(whole.skip(i as int), c) == seq![Seq::<char>::empty()]);
        assert(cur@ + Seq::<char>::empty() == cur@);
    }
    done.push(cur);
    proof {
        assert forall|k: int| 0 <= k < done@.len() implies #[trigger] done@[k]@ == split_char(whole, c)[k] by {
        }
    }
    done
}

/// Keeps the non-empty vectors of `p`, in order, as strings.
pub fn keep_nonempty_strings(p: &Vec<Vec<char>>) -> (r: Vec<String>)
    ensures
        r@.len() == nonempty_pieces(p@.map_values(|x: Vec<char>| x@)).len(),
        forall|i: int| 0 <= i < r@.len() ==> #[trigger] r@[i]@ == nonempty_pieces(p@.map_values(|x: Vec<char>| x@))[i],
{
    let ghost pv = p@.map_values(|x: Vec<char>| x@);
    let mut r: Vec<String> = Vec::new();
    let mut i: usize = 0;
    while i < p.len()
        invariant
            i <= p@.len(),
            pv == p@.map_values(|x: Vec<char>| x@),
            r@.len() == nonempty_pieces(pv.subrange(0, i as int)).len(),
            forall|k: int| 0 <= k < r@.len() ==> #[trigger] r@[k]@ == nonempty_pieces(pv.subrange(0, i as int))[k],
        decreases p.len() - i,
    {
        proof {
            assert(pv.subrange(0, i + 1) == pv.subrange(0, i as int).push(pv[i as int]));
            reveal_with_fuel(Seq::filter, 1);
            assert(pv.subrange(0, i + 1).drop_last() == pv.subrange(0, i as int));
        }
        if p[i].len() > 0 {
            let s = string_of(p[i].as_slice());
            r.push(s);
        }
        i = i + 1;
    }
    proof {
        assert(pv.subrange(0, p@.len() as int) == pv);
    }
    r
}

/// Splits `s` on `c` and keeps only the non-empty pieces:
/// `s.split(c).filter(|p| !p.is_empty())`.
pub fn nonempty_parts(s: &[char], c: char) -> (r: Vec<Vec<char>>)
    ensures
        r@.map_values(|x: Vec<char>| x@) == split_nonempty(s@, c),
{
    let pieces = split_chars(s, c);
    let ghost pv = pieces@.map_values(|x: Vec<char>| x@);
    proof {
        assert(pv =~= split_char(s@, c));
    }
    let mut r: Vec<Vec<char>> = Vec::new();
    let mut i: usize = 0;
    while i < pieces.len()
        invariant
            i <= pieces@.len(),
            pv == pieces@.map_values(|x: Vec<char>| x@),
            r@.map_values(|x: Vec<char>| x@) == nonempty_pieces(pv.subrange(0, i as int)),
        decreases pieces.len() - i,
    {
        proof {
            assert(pv.subrange(0, i + 1) == pv.subrange(0, i as int).push(pv[i as int]));
            reveal_with_fuel(Seq::filter, 1);
            assert(pv.subrange(0, i + 1).drop_last() == pv.subrange(0, i as int));
        }
        let n = pieces[i].len();
        if n > 0 {
            let piece = slice_chars(pieces[i].as_slice(), 0, n);
            proof {
                assert(pieces@[i as int]@.subrange(0, n as int) == pieces@[i as int]@);
            }
            let ghost before = r@;
            r.push(piece);
            proof {
                assert(r@.map_values(|x: Vec<char>| x@) =~= before.map_values(|x: Vec<char>| x@).push(pv[i as int]));
            }
        }
        i = i + 1;
    }
    proof {
        assert(pv.subrange(0, pieces@.len() as int) == pv);
    }
    r
}

/// Splits `s` on `c` and keeps only the non-empty pieces, as strings:
/// `s.split(c).filter(|p| !p.is_empty())`.
pub fn split_nonempty_strings(s: &str, c: char) -> (r: Vec<String>)
    ensures
        r@.len() == split_nonempty(s@, c).len(),
        forall|i: int| 0 <= i < r@.len() ==> #[trigger] r@[i]@ == split_nonempty(s@, c)[i],
{
    let cs = chars_of(s);
    let pieces = split_chars(cs.as_slice(), c);
    proof {
        assert(pieces@.map_values(|x: Vec<char>| x@) == split_char(s@, c));
    }
    keep_nonempty_strings(&pieces)
}

/// The decimal digits of `n`, most significant first, without a sign.
pub open spec fn decimal(n: nat) -> Seq<char>
    decreases n,
{
    if n < 10 {
        seq![digit_char(n)]
    } else {
        decimal(n / 10).push(digit_char(n % 10))
    }
}

pub open spec fn digit_char(d: nat) -> char {
    ((d + 48) as u32) as char
}

/// `n` in decimal, left-padded with `0` to at least `width` digits.
pub open spec fn decimal_padded(n: nat, width: nat) -> Seq<char> {
    let d = decimal(n);
    if d.len() >= width {
        d
    } else {
        Seq::new((width - d.len()) as nat, |i: int| '0') + d
    }
}

/// `format!("{n:0width$}")` for a signed `n`: a `-` for a negative value,
/// then the magnitude's digits padded so that sign and digits together
/// take at least `width` characters.
pub open spec fn signed_padded(n: int, width: nat) -> Seq<char> {
    if n < 0 {
        let w: nat = if width >= 1 { (width - 1) as nat } else { 0 };
        seq!['-'] + decimal_padded((-n) as nat, w)
    } else {
        decimal_padded(n as nat, width)
    }
}

pub fn digit_exec(d: u64) -> (c: char)
    requires
        d < 10,
    ensures
        c == digit_char(d as nat),
{
    char_from_ascii((d + 48) as u32)
}

/// Renders `n` in decimal (as `decimal` states).
pub fn decimal_chars(n: u64) -> (r: Vec<char>)
    ensures
        r@ == decimal(n as nat),
    decreases n,
{
    if n < 10 {
        let mut r: Vec<char> = Vec::new();
        r.push(digit_exec(n));
        proof {
            assert(r@ == seq![digit_char(n as nat)]);
        }
        r
    } else {
        let mut r = decimal_chars(n / 10);
        r.push(digit_exec(n % 10));
        r
    }
}

/// Renders `n` in decimal, zero-padded to `width` digits.
pub fn decimal_padded_chars(n: u64, width: usize) -> (r: Vec<char>)
    ensures
        r@ == decimal_padded(n as nat, width as nat),
{
    let d = decimal_chars(n);
    if d.len() >= width {
        return d;
    }
    let pad = width - d.len();
    let mut r: Vec<char> = Vec::new();
    let mut i: usize = 0;
    while i < pad
        invariant
            i <= pad,
            r@ == Seq::new(i as nat, |k: int| '0'),
        decreases pad - i,
    {
        r.push('0');
        proof {
            assert(r@ == Seq::new((i + 1) as nat, |k: int| '0'));
        }
        i = i + 1;
    }
    let mut j: usize = 0;
    let ghost prefix = r@;
    while j < d.len()
        invariant
            j <= d@.len(),
            prefix == Seq::new(pad as nat, |k: int| '0'),
            r@ == prefix + d@.subrange(0, j as int),
        decreases d.len() - j,
    {
        r.push(d[j]);
        proof {
            assert(d@.subrange(0, j + 1) == d@.subrange(0, j as int).push(d@[j as int]));
        }
        j = j + 1;
    }
    proof {
        assert(d@.subrange(0, d@.len() as int) == d@);
    }
    r
}

/// Renders a signed `n` (as `signed_padded` states).
pub fn signed_padded_chars(n: i64, width: usize) -> (r: Vec<char>)
    ensures
        r@ == signed_padded(n as int, width as nat),
{
    if n < 0 {
        let mag: u64 = if n == i64::MIN { 0x8000_0000_0000_0000u64 } else { (-n) as u64 };
        let w: usize = if width >= 1 { width - 1 } else { 0 };
        let tail = decimal_padded_chars(mag, w);
        let mut r: Vec<char> = Vec::new();
        r.push('-');
        let mut j: usize = 0;
        while j < tail.len()
            invariant
                j <= tail@.len(),
                r@ == seq!['-'] + tail@.subrange(0, j as int),
            decreases tail.len() - j,
        {
            r.push(tail[j]);
            proof {
                assert(tail@.subrange(0, j + 1) == tail@.subrange(0, j as int).push(tail@[j as int]));
            }
            j = j + 1;
        }
        proof {
            assert(tail@.subrange(0, tail@.len() as int) == tail@);
        }
        r
    } else {
        decimal_padded_chars(n as u64, width)
    }
}

/// Appends all of `src` to `dst`.
pub fn append_chars(dst: &mut Vec<char>, src: &[char])
    ensures
        final(dst)@ == old(dst)@ + src@,
{
    let mut j: usize = 0;
    while j < src.len()
        invariant
            j <= src@.len(),
            dst@ == old(dst)@ + src@.subrange(0, j as int),
        decreases src.len() - j,
    {
        dst.push(src[j]);
        proof {
            assert(src@.subrange(0, j + 1) == src@.subrange(0, j as int).push(src@[j as int]));
        }
        j = j + 1;
    }
    proof {
        assert(src@.subrange(0, src@.len() as int) == src@);
    }
}

/// Appends the characters of `src` to `dst`.
pub fn append_str(dst: &mut Vec<char>, src: &str)
    ensures
        final(dst)@ == old(dst)@ + src@,
{
    let cs = chars_of(src);
    append_chars(dst, cs.as_slice());
}

/// Whether `a` and `b` hold the same characters.
pub fn chars_eq(a: &[char], b: &[char]) -> (r: bool)
    ensures
        r == (a@ == b@),
{
    if a.len() != b.len() {
        return false;
    }
    let mut i: usize = 0;
    while i < a.len()
        invariant
            i <= a@.len(),
            a@.len() == b@.len(),
            forall|k: int| 0 <= k < i ==> a@[k] == b@[k],
        decreases a.len() - i,
    {
        if a[i] != b[i] {
            return false;
        }
        i = i + 1;
    }
    proof {
        assert(a@ =~= b@);
    }
    true
}

/// Whether `s` starts with `p`.
pub fn starts_with_chars(s: &[char], p: &[char]) -> (r: bool)
    ensures
        r == (p@.len() <= s@.len() && s@.subrange(0, p@.len() as int) == p@),
{
    if p.len() > s.len() {
        return false;
    }
    let mut i: usize = 0;
    while i < p.len()
        invariant
            i <= p@.len() <= s@.len(),
            forall|k: int| 0 <= k < i ==> s@[k] == p@[k],
        decreases p.len() - i,
    {
        if s[i] != p[i] {
            proof {
                assert(s@.subrange(0, p@.len() as int)[i as int] != p@[i as int]);
            }
            return false;
        }
        i = i + 1;
    }
    proof {
        assert(s@.subrange(0, p@.len() as int) =~= p@);
    }
    true
}

/// Whether `s` ends with `p`.
pub fn ends_with_chars(s: &[char], p: &[char]) -> (r: bool)
    ensures
        r == (p@.len() <= s@.len() && s@.subrange(s@.len() - p@.len(), s@.len() as int) == p@),
{
    if p.len() > s.len() {
        return false;
    }
    let off = s.len() - p.len();
    let mut i: usize = 0;
    while i < p.len()
        invariant
            i <= p@.len() <= s@.len(),
            off == s@.len() - p@.len(),
            s@.len() == s.len(),
            forall|k: int| 0 <= k < i ==> s@[off + k] == p@[k],
        decreases p.len() - i,
    {
        let idx = off + i;
        if s[idx] != p[i] {
            proof {
                assert(s@.subrange(off as int, s@.len() as int)[i as int] != p@[i as int]);
            }
            return false;
        }
        i = i + 1;
    }
    proof {
        assert(s@.subrange(off as int, s@.len() as int) =~= p@);
    }
    true
}

/// The characters `s[from..to]`.
pub fn slice_chars(s: &[char], from: usize, to: usize) -> (r: Vec<char>)
    requires
        from <= to <= s@.len(),
    ensures
        r@ == s@.subrange(from as int, to as int),
{
    let mut r: Vec<char> = Vec::new();
    let mut i: usize = from;
    while i < to
        invariant
            from <= i <= to <= s@.len(),
            r@ == s@.subrange(from as int, i as int),
        decreases to - i,
    {
        r.push(s[i]);
        i = i + 1;
    }
    r
}


/// Whether `s` is exactly the text `lit`.
pub fn str_is(s: &str, lit: &str) -> (r: bool)
    ensures
        r == (s@ == lit@),
{
    let a = chars_of(s);
    let b = chars_of(lit);
    chars_eq(a.as_slice(), b.as_slice())
}

/// Whether the characters `a` are exactly the text `lit`.
pub fn chars_is(a: &[char], lit: &str) -> (r: bool)
    ensures
        r == (a@ == lit@),
{
    let b = chars_of(lit);
    chars_eq(a, b.as_slice())
}

/// What `str::to_lowercase` returns for `s`: the Unicode lowercase mapping
/// of each character, some of which map to more than one character.
pub uninterp spec fn spec_to_lowercase(s: Seq<char>) -> Seq<char>;

/// `s.to_lowercase()` (std's `str::to_lowercase`, whose result is named
/// `spec_to_lowercase` here).
#[verifier::external_body]
pub fn to_lowercase(s: &str) -> (r: String)
    ensures
        r@ == spec_to_lowercase(s@),
{
    s.to_lowercase()
}


/// How many leading characters of `s` satisfy `p`.
pub open spec fn lead_while(s: Seq<char>, p: spec_fn(char) -> bool) -> nat
    decreases s.len(),
{
    if s.len() > 0 && p(s[0]) { 1 + lead_while(s.drop_first(), p) } else { 0 }
}

/// How many trailing characters of `s` satisfy `p`.
pub open spec fn trail_while(s: Seq<char>, p: spec_fn(char) -> bool) -> nat
    decreases s.len(),
{
    if s.len() > 0 && p(s.last()) { 1 + trail_while(s.drop_last(), p) } else { 0 }
}

pub proof fn lemma_lead_while(s: Seq<char>, p: spec_fn(char) -> bool, k: nat)
    requires
        k <= s.len(),
        forall|j: int| 0 <= j < k ==> p(#[trigger] s[j]),
        k < s.len() ==> !p(s[k as int]),
    ensures
        lead_while(s, p) == k,
    decreases s.len(),
{
    if s.len() > 0 && k > 0 {
        assert forall|j: int| 0 <= j < k - 1 implies p(#[trigger] s.drop_first()[j]) by {
            assert(s.drop_first()[j] == s[j + 1]);
        }
        lemma_lead_while(s.drop_first(), p, (k - 1) as nat);
    }
}

pub proof fn lemma_trail_while(s: Seq<char>, p: spec_fn(char) -> bool, k: nat)
    requires
        k <= s.len(),
        forall|j: int| s.len() - k <= j < s.len() ==> p(#[trigger] s[j]),
        k < s.len() ==> !p(s[s.len() - k - 1]),
    ensures
        trail_while(s, p) == k,
    decreases s.len(),
{
    if s.len() > 0 && k > 0 {
        assert forall|j: int| s.drop_last().len() - (k - 1) <= j < s.drop_last().len() implies p(#[trigger] s.drop_last()[j]) by {
            assert(s.drop_last()[j] == s[j]);
        }
        lemma_trail_while(s.drop_last(), p, (k - 1) as nat);
    }
}

} // verus!
