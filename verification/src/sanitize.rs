//! Sanitizes untrusted text — file contents, filenames, anything that
//! ultimately comes from outside the program — before it reaches the
//! terminal. A raw tab or stray control character desyncs the terminal's
//! cursor from the UI's own column bookkeeping and corrupts the screen, so
//! tabs are expanded to spaces and every other control character (Unicode
//! category `Cc`) is replaced by a printable, dimmed escape.

use vstd::prelude::*;

use crate::style::{Color, Line, Span, SpanView, Style, fg_style, lines_view, spans_text};
use crate::text::{append_chars, char_from_ascii, chars_of, digit_char, split_char, split_chars, string_of};

verus! {

/// Columns a tab advances to the next stop.
pub const TAB_WIDTH: usize = 4;

/// Unicode's `Cc` category: what `char::is_control` reports.
pub open spec fn is_control(c: char) -> bool {
    c <= '\u{1F}' || ('\u{7F}' <= c && c <= '\u{9F}')
}

pub fn is_control_exec(c: char) -> (r: bool)
    ensures
        r == is_control(c),
{
    c <= '\u{1F}' || ('\u{7F}' <= c && c <= '\u{9F}')
}

/// An upper-case hexadecimal digit.
pub open spec fn hex_digit(d: nat) -> char {
    if d < 10 { digit_char(d) } else { ((d - 10 + 65) as u32) as char }
}

/// `n` in upper-case hexadecimal, most significant digit first.
pub open spec fn hex(n: nat) -> Seq<char>
    decreases n,
{
    if n < 16 { seq![hex_digit(n)] } else { hex(n / 16).push(hex_digit(n % 16)) }
}

/// `format!("{n:02X}")`.
pub open spec fn hex2(n: nat) -> Seq<char> {
    if hex(n).len() >= 2 { hex(n) } else { seq!['0'] + hex(n) }
}

/// The printable escape for a control character: caret notation for C0
/// controls and DEL (`^I`, `^[`, `^?`: the code point with bit `0x40`
/// flipped), `<XX>` hex for anything else (the C1 block has no caret
/// convention).
pub open spec fn spec_caret_escape(c: char) -> Seq<char> {
    if c == '\u{7F}' {
        seq!['^', '?']
    } else if c <= '\u{1F}' {
        seq!['^', ((c as u32) + 64) as char]
    } else {
        seq!['<'] + hex2(c as u32 as nat) + seq!['>']
    }
}

fn hex_digit_exec(d: u32) -> (c: char)
    requires
        d < 16,
    ensures
        c == hex_digit(d as nat),
{
    if d < 10 { char_from_ascii(d + 48) } else { char_from_ascii(d - 10 + 65) }
}

fn hex_chars(n: u32) -> (r: Vec<char>)
    ensures
        r@ == hex(n as nat),
    decreases n,
{
    if n < 16 {
        let mut r: Vec<char> = Vec::new();
        r.push(hex_digit_exec(n));
        r
    } else {
        let mut r = hex_chars(n / 16);
        r.push(hex_digit_exec(n % 16));
        r
    }
}

/// Renders a control character (tabs aside, which are expanded instead)
/// as a printable escape, as `spec_caret_escape` states.
pub fn caret_escape(c: char) -> (s: String)
    ensures
        s@ == spec_caret_escape(c),
{
    let code: u32 = c as u32;
    let mut r: Vec<char> = Vec::new();
    if code == 0x7F {
        r.push('^');
        r.push('?');
    } else if code <= 0x1F {
        r.push('^');
        r.push(char_from_ascii(code + 64));
    } else {
        r.push('<');
        let h = hex_chars(code);
        if h.len() < 2 {
            r.push('0');
        }
        append_chars(&mut r, h.as_slice());
        r.push('>');
    }
    proof {
        assert(r@ =~= spec_caret_escape(c));
    }
    string_of(r.as_slice())
}

/// The dimmed style escapes are drawn in.
pub open spec fn escape_style() -> Style {
    fg_style(Color::DarkGray)
}

/// Where sanitizing a line stands: the finished spans, the pending run of
/// plain text, and the display column reached.
pub struct SanState {
    pub done: Seq<SpanView>,
    pub plain: Seq<char>,
    pub col: nat,
}

/// Sanitizing one more character `c` of a line drawn in `style`.
pub open spec fn san_step(st: SanState, c: char, style: Style) -> SanState {
    if c == '\t' {
        let w = (4 - st.col % 4) as nat;
        SanState { done: st.done, plain: st.plain + Seq::new(w, |i: int| ' '), col: st.col + w }
    } else if is_control(c) {
        let esc = spec_caret_escape(c);
        let flushed = if st.plain.len() > 0 { st.done.push(SpanView { content: st.plain, style }) } else { st.done };
        SanState { done: flushed.push(SpanView { content: esc, style: escape_style() }), plain: Seq::empty(), col: st.col + esc.len() }
    } else {
        SanState { done: st.done, plain: st.plain.push(c), col: st.col + 1 }
    }
}

/// The state after sanitizing all of `s`.
pub open spec fn san_fold(s: Seq<char>, style: Style) -> SanState
    decreases s.len(),
{
    if s.len() == 0 {
        SanState { done: Seq::empty(), plain: Seq::empty(), col: 0 }
    } else {
        san_step(san_fold(s.drop_last(), style), s.last(), style)
    }
}

/// The spans one line sanitizes to: never empty, since a line with no
/// text still gets one (empty) span.
pub open spec fn sanitize_line(s: Seq<char>, style: Style) -> Seq<SpanView> {
    let st = san_fold(s, style);
    if st.plain.len() > 0 || st.done.len() == 0 { st.done.push(SpanView { content: st.plain, style }) } else { st.done }
}

/// What sanitizing `text` gives: one line per `\n`-separated piece when
/// `split_on_newline`, else exactly one line with `\n` escaped too.
pub open spec fn spec_sanitize_lines(text: Seq<char>, style: Style, split_on_newline: bool) -> Seq<Seq<SpanView>> {
    if split_on_newline {
        split_char(text, '\n').map_values(|l: Seq<char>| sanitize_line(l, style))
    } else {
        seq![sanitize_line(text, style)]
    }
}

fn sanitize_one(s: &[char], style: Style) -> (l: Line)
    ensures
        l.view() == sanitize_line(s@, style),
{
    let mut spans: Vec<Span> = Vec::new();
    let mut plain: Vec<char> = Vec::new();
    let mut col4: usize = 0;
    let ghost mut col: nat = 0;
    let mut i: usize = 0;
    while i < s.len()
        invariant
            i <= s@.len(),
            ({
                let st = san_fold(s@.subrange(0, i as int), style);
                &&& spans@.map_values(|sp: Span| sp.view()) == st.done
                &&& plain@ == st.plain
                &&& col == st.col
                &&& col4 == col % 4
            }),
        decreases s.len() - i,
    {
        proof {
            assert(s@.subrange(0, i + 1).drop_last() =~= s@.subrange(0, i as int));
            assert(s@.subrange(0, i + 1).last() == s@[i as int]);
        }
        let c = s[i];
        if c == '\t' {
            let w: usize = 4 - col4;
            let mut k: usize = 0;
            let ghost p0 = plain@;
            while k < w
                invariant
                    k <= w,
                    plain@ == p0 + Seq::new(k as nat, |j: int| ' '),
                decreases w - k,
            {
                plain.push(' ');
                proof {
                    assert(plain@ =~= p0 + Seq::new((k + 1) as nat, |j: int| ' '));
                }
                k = k + 1;
            }
            proof {
                col = col + w as nat;
            }
            col4 = 0;
        } else if is_control_exec(c) {
            let ghost before = spans@.map_values(|sp: Span| sp.view());
            if plain.len() > 0 {
                let pending = string_of(plain.as_slice());
                spans.push(Span::styled(pending, style));
                plain = Vec::new();
            }
            let esc = caret_escape(c);
            let n: usize = if c == '\u{7F}' || c <= '\u{1F}' { 2 } else { 4 };
            proof {
                if !(c == '\u{7F}' || c <= '\u{1F}') {
                    assert(hex((c as u32) as nat).len() == 2) by {
                        let v = (c as u32) as nat;
                        assert(0x80 <= v <= 0x9F);
                        assert(hex(v / 16).len() == 1);
                    }
                }
                assert(esc@.len() == n);
            }
            spans.push(Span::styled(esc, Style::new().fg(Color::DarkGray)));
            proof {
                col = col + n as nat;
                assert(spans@.map_values(|sp: Span| sp.view()) =~= san_fold(s@.subrange(0, i + 1), style).done);
            }
            col4 = (col4 + n) % 4;
        } else {
            plain.push(c);
            proof {
                col = col + 1;
            }
            col4 = (col4 + 1) % 4;
        }
        proof {
            assert(plain@ =~= san_fold(s@.subrange(0, i + 1), style).plain);
        }
        i = i + 1;
    }
    proof {
        assert(s@.subrange(0, s@.len() as int) =~= s@);
    }
    if plain.len() > 0 || spans.len() == 0 {
        let pending = string_of(plain.as_slice());
        spans.push(Span::styled(pending, style));
    }
    let l = Line { spans };
    proof {
        assert(l.view() =~= sanitize_line(s@, style));
    }
    l
}

fn sanitize_lines(text: &str, style: Style, split_on_newline: bool) -> (r: Vec<Line>)
    ensures
        lines_view(r@) == spec_sanitize_lines(text@, style, split_on_newline),
{
    let cs = chars_of(text);
    let mut out: Vec<Line> = Vec::new();
    if split_on_newline {
        let pieces = split_chars(cs.as_slice(), '\n');
        let ghost want = spec_sanitize_lines(text@, style, true);
        let mut i: usize = 0;
        while i < pieces.len()
            invariant
                i <= pieces@.len(),
                pieces@.len() == split_char(text@, '\n').len(),
                forall|k: int| 0 <= k < pieces@.len() ==> #[trigger] pieces@[k]@ == split_char(text@, '\n')[k],
                want == spec_sanitize_lines(text@, style, true),
                out@.len() == i,
                forall|k: int| 0 <= k < i ==> #[trigger] out@[k].view() == want[k],
            decreases pieces.len() - i,
        {
            let l = sanitize_one(pieces[i].as_slice(), style);
            out.push(l);
            i = i + 1;
        }
        proof {
            assert(lines_view(out@) =~= want);
        }
    } else {
        out.push(sanitize_one(cs.as_slice(), style));
        proof {
            assert(lines_view(out@) =~= spec_sanitize_lines(text@, style, false));
        }
    }
    out
}

/// Display-ready text: lines of styled spans. Built by running text
/// through this module's escaping (`from_text`, `from_label`), or — for
/// lines already known to be free of control characters, such as a
/// highlighter's re-slicing of sanitized text — by `assume_sanitized`.
#[derive(Clone, Debug)]
pub struct SanitizedText {
    pub lines: Vec<Line>,
}

/// Lines joined by `\n`, each one its spans' characters.
pub open spec fn join_lines(lines: Seq<Seq<SpanView>>) -> Seq<char>
    decreases lines.len(),
{
    if lines.len() == 0 {
        Seq::empty()
    } else if lines.len() == 1 {
        spans_text(lines[0])
    } else {
        join_lines(lines.drop_last()) + seq!['\n'] + spans_text(lines.last())
    }
}

impl SanitizedText {
    pub open spec fn view(&self) -> Seq<Seq<SpanView>> {
        lines_view(self.lines@)
    }

    /// No lines at all.
    pub fn new() -> (t: SanitizedText)
        ensures
            t.view().len() == 0,
    {
        SanitizedText { lines: Vec::new() }
    }

    /// Sanitizes `text` as multi-line content: `\n` starts a new line,
    /// tabs are expanded, every other control character is escaped.
    /// `style` applies to the text that is not an escape.
    pub fn from_text(text: &str, style: Style) -> (t: SanitizedText)
        ensures
            t.view() == spec_sanitize_lines(text@, style, true),
    {
        SanitizedText { lines: sanitize_lines(text, style, true) }
    }

    /// Sanitizes `text` as a single-line label (a filename, say): like
    /// `from_text`, except that `\n` and `\r` are escaped rather than
    /// breaking the line.
    pub fn from_label(text: &str, style: Style) -> (l: Line)
        ensures
            l.view() == sanitize_line(text@, style),
    {
        let cs = chars_of(text);
        sanitize_one(cs.as_slice(), style)
    }

    /// Wraps already-built lines as sanitized, without escaping or checking
    /// anything: only for lines known to hold no control characters.
    pub fn assume_sanitized(lines: Vec<Line>) -> (t: SanitizedText)
        ensures
            t.lines@ == lines@,
    {
        SanitizedText { lines }
    }

    /// The text back as one string, lines joined by `\n`.
    pub fn plain(&self) -> (s: String)
        ensures
            s@ == join_lines(self.view()),
    {
        let mut r: Vec<char> = Vec::new();
        let ghost v = self.view();
        let mut i: usize = 0;
        while i < self.lines.len()
            invariant
                i <= self.lines@.len(),
                v == self.view(),
                r@ == join_lines(v.subrange(0, i as int)),
            decreases self.lines.len() - i,
        {
            proof {
                assert(v.subrange(0, i + 1).drop_last() =~= v.subrange(0, i as int));
                assert(v.subrange(0, i + 1).last() == v[i as int]);
            }
            if i > 0 {
                r.push('\n');
            }
            let line = &self.lines[i];
            let ghost r0 = r@;
            let mut j: usize = 0;
            while j < line.spans.len()
                invariant
                    j <= line.spans@.len(),
                    r@ == r0 + spans_text(line.view().subrange(0, j as int)),
                decreases line.spans.len() - j,
            {
                proof {
                    assert(line.view().subrange(0, j + 1).drop_last() =~= line.view().subrange(0, j as int));
                }
                let cs = chars_of(line.spans[j].content.as_str());
                append_chars(&mut r, cs.as_slice());
                proof {
                    assert(r@ =~= r0 + spans_text(line.view().subrange(0, j + 1)));
                }
                j = j + 1;
            }
            proof {
                assert(line.view().subrange(0, line.spans@.len() as int) =~= line.view());
                if i == 0 {
                    assert(v.subrange(0, 1) =~= seq![v[0]]);
                    assert(r@ =~= join_lines(v.subrange(0, 1)));
                } else {
                    assert(r@ =~= join_lines(v.subrange(0, i + 1)));
                }
            }
            i = i + 1;
        }
        proof {
            assert(v.subrange(0, self.lines@.len() as int) =~= v);
        }
        string_of(r.as_slice())
    }

    /// The number of lines.
    pub fn line_count(&self) -> (n: usize)
        ensures
            n == self.view().len(),
    {
        self.lines.len()
    }
}


/// `s` holds no control character.
pub open spec fn no_controls(s: Seq<char>) -> bool {
    forall|i: int| 0 <= i < s.len() ==> !is_control(#[trigger] s[i])
}

/// No span of `sp` holds a control character.
pub open spec fn spans_clean(sp: Seq<SpanView>) -> bool {
    forall|i: int| 0 <= i < sp.len() ==> no_controls(#[trigger] sp[i].content)
}

proof fn lemma_hex_clean(n: nat)
    ensures
        no_controls(hex(n)),
    decreases n,
{
    if n >= 16 {
        lemma_hex_clean(n / 16);
        assert forall|i: int| 0 <= i < hex(n).len() implies !is_control(#[trigger] hex(n)[i]) by {
            if i < hex(n / 16).len() {
                assert(hex(n)[i] == hex(n / 16)[i]);
            }
        }
    }
}

proof fn lemma_escape_clean(c: char)
    ensures
        no_controls(spec_caret_escape(c)),
{
    if c != '\u{7F}' && c > '\u{1F}' {
        lemma_hex_clean(c as u32 as nat);
        let h = hex2(c as u32 as nat);
        assert(no_controls(h)) by {
            if hex(c as u32 as nat).len() < 2 {
                assert forall|i: int| 0 <= i < h.len() implies !is_control(#[trigger] h[i]) by {
                    if i > 0 {
                        assert(h[i] == hex(c as u32 as nat)[i - 1]);
                    }
                }
            }
        }
        let e = spec_caret_escape(c);
        assert forall|i: int| 0 <= i < e.len() implies !is_control(#[trigger] e[i]) by {
            if 0 < i < e.len() - 1 {
                assert(e[i] == h[i - 1]);
            }
        }
    }
}

proof fn lemma_fold_clean(s: Seq<char>, style: Style)
    ensures
        spans_clean(san_fold(s, style).done),
        no_controls(san_fold(s, style).plain),
    decreases s.len(),
{
    if s.len() > 0 {
        lemma_fold_clean(s.drop_last(), style);
        let st = san_fold(s.drop_last(), style);
        let c = s.last();
        let st2 = san_fold(s, style);
        if c == '\t' {
            assert forall|i: int| 0 <= i < st2.plain.len() implies !is_control(#[trigger] st2.plain[i]) by {
                if i < st.plain.len() {
                    assert(st2.plain[i] == st.plain[i]);
                }
            }
        } else if is_control(c) {
            lemma_escape_clean(c);
            assert forall|i: int| 0 <= i < st2.done.len() implies no_controls(#[trigger] st2.done[i].content) by {
                if i < st.done.len() {
                    assert(st2.done[i] == st.done[i]);
                }
            }
        } else {
            assert forall|i: int| 0 <= i < st2.plain.len() implies !is_control(#[trigger] st2.plain[i]) by {
                if i < st.plain.len() {
                    assert(st2.plain[i] == st.plain[i]);
                }
            }
        }
    }
}

/// Sanitized text never holds a control character, whatever it was made
/// from: every line `from_text` or `from_label` builds is free of them.
pub proof fn lemma_sanitized_has_no_controls(text: Seq<char>, style: Style, split_on_newline: bool)
    ensures
        forall|i: int| 0 <= i < spec_sanitize_lines(text, style, split_on_newline).len()
            ==> spans_clean(#[trigger] spec_sanitize_lines(text, style, split_on_newline)[i]),
{
    assert forall|l: Seq<char>| spans_clean(#[trigger] sanitize_line(l, style)) by {
        lemma_fold_clean(l, style);
        let st = san_fold(l, style);
        let r = sanitize_line(l, style);
        assert forall|i: int| 0 <= i < r.len() implies no_controls(#[trigger] r[i].content) by {
            if i < st.done.len() {
                assert(r[i] == st.done[i]);
            }
        }
    }
    if split_on_newline {
        let p = split_char(text, '\n');
        assert forall|i: int| 0 <= i < spec_sanitize_lines(text, style, true).len()
            implies spans_clean(#[trigger] spec_sanitize_lines(text, style, true)[i]) by {
            assert(spec_sanitize_lines(text, style, true)[i] == sanitize_line(p[i], style));
        }
    }
}

proof fn lemma_clean_fold(s: Seq<char>, style: Style)
    requires
        no_controls(s),
    ensures
        san_fold(s, style) == (SanState { done: Seq::empty(), plain: s, col: s.len() }),
    decreases s.len(),
{
    if s.len() > 0 {
        let d = s.drop_last();
        assert(no_controls(d)) by {
            assert forall|i: int| 0 <= i < d.len() implies !is_control(#[trigger] d[i]) by {
                assert(d[i] == s[i]);
            }
        }
        lemma_clean_fold(d, style);
        assert(!is_control(s[s.len() - 1]));
        assert(s.last() != '\t');
        assert(d.push(s.last()) =~= s);
        assert(san_fold(s, style) == san_step(san_fold(d, style), s.last(), style));
        assert(san_fold(s, style).plain =~= s);
    } else {
        assert(s =~= Seq::<char>::empty());
    }
}

/// A line with no control character in it (a tab is one) is drawn as it
/// is: one span holding the whole line in the style asked for.
pub proof fn lemma_clean_line_unchanged(s: Seq<char>, style: Style)
    requires
        no_controls(s),
    ensures
        sanitize_line(s, style) == seq![SpanView { content: s, style }],
{
    lemma_clean_fold(s, style);
    assert(Seq::<SpanView>::empty().push(SpanView { content: s, style }) =~= seq![SpanView { content: s, style }]);
}

} // verus!
