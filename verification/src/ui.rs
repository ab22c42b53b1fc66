//! What the terminal UI shows and where: the footer's wrapped help and
//! toggle lines, the preview's line-number gutter, each entry's row and
//! each box's title, how the width is shared between the columns and the
//! preview, and what a mouse click lands on. Drawing the result is left to
//! the caller; the layout solver itself is `ratatui`'s.

use vstd::prelude::*;

use crate::browser::{App, AppView, focused, selected_entry, spec_wrapped_line_count, wrapped_line_count};
use crate::entry::{Entry, entry_label, nerd_icon_span, spec_entry_label, spec_nerd_icon_span};
use crate::sanitize::{SanitizedText, sanitize_line};
use crate::style::{Color, Line, Span, SpanView, Style, fg_style, lines_view, plain_style};
use crate::text::{append_chars, chars_of, decimal, decimal_chars, string_of};

verus! {

/// Width of a column other than the focused one.
pub const COLUMN_WIDTH: u16 = 24;
/// Width of the focused column.
pub const FOCUSED_COLUMN_WIDTH: u16 = 40;
/// Least width kept for the preview.
pub const PREVIEW_MIN_WIDTH: u16 = 24;
/// Least width kept for the preview while it has focus.
pub const PREVIEW_FOCUSED_MIN_WIDTH: u16 = 80;

/// Indent of the footer's continuation lines.
pub const FOOTER_WRAP_INDENT: &'static str = "        ";

/// A rectangle of terminal cells.
#[derive(Clone, Copy, Debug, PartialEq, Eq, Structural)]
pub struct Rect {
    pub x: u16,
    pub y: u16,
    pub width: u16,
    pub height: u16,
}

pub open spec fn rect_tuple(r: Rect) -> (u16, u16, u16, u16) {
    (r.x, r.y, r.width, r.height)
}

/// Whether the cell `(x, y)` lies in `r`.
pub open spec fn contains(r: Rect, x: u16, y: u16) -> bool {
    x >= r.x && x < r.x + r.width && y >= r.y && y < r.y + r.height
}

pub fn rect_contains(r: Rect, x: u16, y: u16) -> (b: bool)
    ensures
        b == contains(r, x, y),
{
    x >= r.x && (x as u32) < r.x as u32 + r.width as u32 && y >= r.y && (y as u32) < r.y as u32 + r.height as u32
}

/// How `ratatui`'s `Layout` splits `area` (top to bottom when `vertical`,
/// else left to right) among `constraints`, each `(true, n)` for
/// `Constraint::Min(n)` and `(false, n)` for `Constraint::Length(n)`.
pub uninterp spec fn spec_layout_split(area: (u16, u16, u16, u16), vertical: bool, constraints: Seq<(bool, u16)>) -> Seq<(u16, u16, u16, u16)>;

/// Calls `ratatui::layout::Layout::split` on `area` with `constraints`
/// (see `spec_layout_split`). Claimed: the result is a function of these
/// arguments, with one rectangle per constraint, as its source builds it.
#[verifier::external_body]
fn split_layout(area: Rect, vertical: bool, constraints: &[(bool, u16)]) -> (r: Vec<Rect>)
    ensures
        r@.map_values(|q: Rect| rect_tuple(q)) == spec_layout_split(rect_tuple(area), vertical, constraints@),
        r@.len() == constraints@.len(),
{
    let cs: Vec<ratatui::layout::Constraint> = constraints.iter().map(|c| match c.0 {
        true => ratatui::layout::Constraint::Min(c.1),
        false => ratatui::layout::Constraint::Length(c.1),
    }).collect();
    let dir = match vertical {
        true => ratatui::layout::Direction::Vertical,
        false => ratatui::layout::Direction::Horizontal,
    };
    let rects = ratatui::layout::Layout::default().direction(dir).constraints(cs)
        .split(ratatui::layout::Rect::new(area.x, area.y, area.width, area.height));
    rects.iter().map(|q| Rect { x: q.x, y: q.y, width: q.width, height: q.height }).collect()
}

pub open spec fn spans_view(v: Seq<Span>) -> Seq<SpanView> {
    v.map_values(|s: Span| s.view())
}

pub open spec fn items_view(items: Seq<Vec<Span>>) -> Seq<Seq<SpanView>> {
    items.map_values(|it: Vec<Span>| spans_view(it@))
}

/// The characters an item takes.
pub open spec fn item_width(item: Seq<SpanView>) -> nat
    decreases item.len(),
{
    if item.len() == 0 { 0 } else { item_width(item.drop_last()) + item.last().content.len() }
}

pub open spec fn bullet_view() -> SpanView {
    SpanView { content: " • "@, style: fg_style(Color::DarkGray) }
}

/// What goes before the item at `index`: nothing for the first, a plain
/// space after a header first item, a bullet otherwise.
pub open spec fn sep_for(index: int, space_after_first: bool) -> Option<SpanView> {
    if index == 0 {
        None
    } else if index == 1 && space_after_first {
        Some(SpanView { content: " "@, style: plain_style() })
    } else {
        Some(bullet_view())
    }
}

/// The footer lines laid out so far: the finished lines, the line being
/// filled, and its width.
pub struct WrapState {
    pub lines: Seq<Seq<SpanView>>,
    pub current: Seq<SpanView>,
    pub width: nat,
}

/// One item placed: it starts a new line when the line being filled is not
/// empty and the item (with its separator) would overflow `width`.
pub open spec fn wrap_step(st: WrapState, index: int, item: Seq<SpanView>, width: u16, indent_w: nat, saf: bool) -> WrapState {
    let line_indent: nat = if st.lines.len() == 0 { 0 } else { indent_w };
    let sep = sep_for(index, saf);
    let sep_w: nat = match sep { Some(s) => s.content.len(), None => 0 };
    let st1 = if st.current.len() > 0 && line_indent + st.width + sep_w + item_width(item) > width {
        WrapState { lines: st.lines.push(st.current), current: Seq::empty(), width: 0 }
    } else {
        st
    };
    let cur = match sep { Some(s) => st1.current.push(s), None => st1.current };
    WrapState { lines: st1.lines, current: cur + item, width: st1.width + sep_w + item_width(item) }
}

pub open spec fn wrap_fold(items: Seq<Seq<SpanView>>, width: u16, indent_w: nat, saf: bool) -> WrapState
    decreases items.len(),
{
    if items.len() == 0 {
        WrapState { lines: Seq::empty(), current: Seq::empty(), width: 0 }
    } else {
        wrap_step(wrap_fold(items.drop_last(), width, indent_w, saf), items.len() - 1, items.last(), width, indent_w, saf)
    }
}

/// `items` laid out into as few lines as fit `width`, breaking only
/// between items; continuation lines start with `indent`.
pub open spec fn wrapped_lines(items: Seq<Seq<SpanView>>, width: u16, indent: Seq<char>, saf: bool) -> Seq<Seq<SpanView>> {
    let st = wrap_fold(items, width, indent.len(), saf);
    let ls = if st.current.len() > 0 || st.lines.len() == 0 { st.lines.push(st.current) } else { st.lines };
    Seq::new(ls.len(), |i: int| if i == 0 || indent.len() == 0 {
        ls[i]
    } else {
        seq![SpanView { content: indent, style: plain_style() }] + ls[i]
    })
}

fn copy_span(s: &Span) -> (r: Span)
    ensures
        r.view() == s.view(),
{
    Span { content: s.content.clone(), style: s.style }
}

fn span_of(text: &str, style: Style) -> (r: Span)
    ensures
        r.view() == (SpanView { content: text@, style }),
{
    Span { content: String::from_str(text), style }
}

/// A prefix of an item takes no more than the item.
pub proof fn lemma_item_width_prefix(item: Seq<SpanView>, k: int)
    requires
        0 <= k <= item.len(),
    ensures
        item_width(item.subrange(0, k)) <= item_width(item),
    decreases item.len() - k,
{
    if k < item.len() {
        lemma_item_width_prefix(item, k + 1);
        assert(item.subrange(0, k + 1).drop_last() =~= item.subrange(0, k));
    } else {
        assert(item.subrange(0, k) =~= item);
    }
}

/// `n`, or the largest `u64` when it is larger.
pub open spec fn sat(n: int) -> int {
    if n > u64::MAX { u64::MAX as int } else { n }
}

fn sat_add(a: u64, b: u64) -> (r: u64)
    ensures
        r == sat(a + b),
{
    if a > u64::MAX - b { u64::MAX } else { a + b }
}

/// The characters `item` takes (the largest `u64` for an item so long
/// that it would not fit: far wider than any terminal either way).
fn item_chars(item: &Vec<Span>) -> (n: u64)
    ensures
        n == sat(item_width(spans_view(item@)) as int),
{
    let ghost full = spans_view(item@);
    let mut n: u64 = 0;
    let mut i: usize = 0;
    while i < item.len()
        invariant
            i <= item@.len(),
            full == spans_view(item@),
            n == sat(item_width(full.subrange(0, i as int)) as int),
        decreases item.len() - i,
    {
        proof {
            assert(full.subrange(0, i + 1).drop_last() =~= full.subrange(0, i as int));
        }
        let c = chars_of(item[i].content.as_str());
        n = sat_add(n, c.len() as u64);
        i = i + 1;
    }
    proof {
        assert(full.subrange(0, item@.len() as int) =~= full);
    }
    n
}

/// Lays `items` out into lines of at most `width` characters where it
/// can, breaking only between items (see `wrapped_lines`). An item is
/// never split, so one wider than `width` gets a line of its own.
pub fn wrap_items(items: &Vec<Vec<Span>>, width: u16, indent: &str, space_after_first: bool) -> (r: Vec<Line>)
    ensures
        lines_view(r@) == wrapped_lines(items_view(items@), width, indent@, space_after_first),
{
    let ghost iv = items_view(items@);
    let ic = chars_of(indent);
    let indent_w: u64 = ic.len() as u64;
    let mut lines: Vec<Vec<Span>> = Vec::new();
    let mut current: Vec<Span> = Vec::new();
    let mut cw: u64 = 0;
    let mut i: usize = 0;
    proof {
        assert(items_view(lines@) =~= Seq::<Seq<SpanView>>::empty());
        assert(spans_view(current@) =~= Seq::<SpanView>::empty());
        assert(iv.subrange(0, 0) =~= Seq::<Seq<SpanView>>::empty());
    }
    while i < items.len()
        invariant
            i <= items@.len(),
            iv == items_view(items@),
            indent_w == indent@.len(),
            ({
                let w = wrap_fold(iv.subrange(0, i as int), width, indent@.len(), space_after_first);
                &&& items_view(lines@) == w.lines
                &&& spans_view(current@) == w.current
                &&& cw == sat(w.width as int)
            }),
        decreases items.len() - i,
    {
        proof {
            assert(iv.subrange(0, i + 1).drop_last() =~= iv.subrange(0, i as int));
            assert(iv[i as int] == spans_view(items@[i as int]@));
        }
        let item = &items[i];
        let iw = item_chars(item);
        let line_indent: u64 = if lines.len() == 0 { 0 } else { indent_w };
        let sep: Option<Span> = if i == 0 {
            None
        } else if i == 1 && space_after_first {
            Some(span_of(" ", Style::new()))
        } else {
            Some(span_of(" • ", Style::new().fg(Color::DarkGray)))
        };
        proof {
            reveal_strlit(" ");
            reveal_strlit(" • ");
        }
        let sep_w: u64 = match &sep {
            Some(sp) => chars_of(sp.content.as_str()).len() as u64,
            None => 0,
        };
        let ghost st = wrap_fold(iv.subrange(0, i as int), width, indent@.len(), space_after_first);
        let total = sat_add(sat_add(sat_add(line_indent, cw), sep_w), iw);
        if current.len() > 0 && total > width as u64 {
            let done = current;
            lines.push(done);
            current = Vec::new();
            cw = 0;
            proof {
                assert(items_view(lines@) =~= st.lines.push(st.current));
                assert(spans_view(current@) =~= Seq::<SpanView>::empty());
            }
        }
        match sep {
            Some(sp) => {
                cw = sat_add(cw, sep_w);
                let ghost old_cur = current@;
                current.push(sp);
                proof {
                    assert(spans_view(current@) =~= spans_view(old_cur).push(sp.view()));
                }
            },
            None => {},
        }
        cw = sat_add(cw, iw);
        let ghost before = spans_view(current@);
        let mut j: usize = 0;
        while j < item.len()
            invariant
                j <= item@.len(),
                spans_view(current@) == before + spans_view(item@).subrange(0, j as int),
            decreases item.len() - j,
        {
            let c = copy_span(&item[j]);
            let ghost old_cur = current@;
            current.push(c);
            proof {
                assert(spans_view(current@) =~= spans_view(old_cur).push(item@[j as int].view()));
                assert(spans_view(item@).subrange(0, j + 1) =~= spans_view(item@).subrange(0, j as int).push(item@[j as int].view()));
                assert(spans_view(current@) =~= before + spans_view(item@).subrange(0, j + 1));
            }
            j = j + 1;
        }
        proof {
            assert(spans_view(item@).subrange(0, item@.len() as int) =~= spans_view(item@));
            let want = wrap_step(st, i as int, iv[i as int], width, indent@.len(), space_after_first);
            assert(items_view(lines@) == want.lines);
            assert(spans_view(current@) =~= want.current);
            assert(cw == sat(want.width as int));
        }
        i = i + 1;
    }
    proof {
        assert(iv.subrange(0, items@.len() as int) =~= iv);
    }
    if current.len() > 0 || lines.len() == 0 {
        lines.push(current);
    }
    let ghost ls = items_view(lines@);
    let mut out: Vec<Line> = Vec::new();
    let indent_empty = indent_w == 0;
    let mut k: usize = 0;
    let mut rest = lines;
    let ghost all = rest@;
    let n0: usize = rest.len();
    while rest.len() > 0
        invariant
            k + rest@.len() == all.len(),
            all.len() == n0,
            rest@ == all.subrange(k as int, all.len() as int),
            ls == items_view(all),
            indent_empty == (indent@.len() == 0),
            out@.len() == k,
            forall|x: int| 0 <= x < k ==> (#[trigger] out@[x]).view() == (if x == 0 || indent@.len() == 0 {
                ls[x]
            } else {
                seq![SpanView { content: indent@, style: plain_style() }] + ls[x]
            }),
        decreases rest.len(),
    {
        let spans = rest.remove(0);
        proof {
            assert(spans@ == all[k as int]@);
        }
        if k == 0 || indent_empty {
            out.push(Line { spans });
        } else {
            let mut v: Vec<Span> = Vec::new();
            v.push(span_of(indent, Style::new()));
            let ghost sv = spans@;
            let mut spans = spans;
            v.append(&mut spans);
            proof {
                assert(spans_view(v@) =~= seq![SpanView { content: indent@, style: plain_style() }] + spans_view(sv));
            }
            out.push(Line { spans: v });
        }
        k = k + 1;
        proof {
            assert(rest@ =~= all.subrange(k as int, all.len() as int));
        }
    }
    proof {
        assert(lines_view(out@) =~= wrapped_lines(iv, width, indent@, space_after_first));
    }
    out
}

/// A toggle as the toggles menu shows it: its key and name, green and
/// bold when on, dimmed when off.
pub open spec fn spec_toggle_span(key: char, label: Seq<char>, on: bool) -> SpanView {
    SpanView {
        content: seq![key, ' '] + label,
        style: if on { Style { bold: true, ..fg_style(Color::Green) } } else { fg_style(Color::DarkGray) },
    }
}

pub fn toggle_span(key: char, label: &str, on: bool) -> (s: Span)
    ensures
        s.view() == spec_toggle_span(key, label@, on),
{
    let mut v: Vec<char> = Vec::new();
    v.push(key);
    v.push(' ');
    let l = chars_of(label);
    append_chars(&mut v, l.as_slice());
    let style = if on { Style::new().fg(Color::Green).bold() } else { Style::new().fg(Color::DarkGray) };
    proof {
        assert(v@ =~= seq![key, ' '] + label@);
    }
    Span { content: string_of(v.as_slice()), style }
}

pub open spec fn dim(text: Seq<char>) -> SpanView {
    SpanView { content: text, style: fg_style(Color::DarkGray) }
}

/// The toggles menu's items: a header, the source's toggles, the view
/// toggles, and how to leave.
pub open spec fn spec_toggle_items(v: AppView) -> Seq<Seq<SpanView>> {
    seq![seq![SpanView { content: "Toggles"@, style: Style { bold: true, ..fg_style(Color::White) } }]]
        + v.source_toggles.map_values(|p: (crate::toggle::Toggle, bool)| seq![spec_toggle_span(p.0.key, p.0.name@, p.1)])
        + seq![
            seq![spec_toggle_span('w', "wrap"@, v.wrap_preview)],
            seq![spec_toggle_span('n', "numbers"@, v.show_line_numbers)],
            seq![spec_toggle_span('z', "zoom"@, v.zoom_preview)],
            seq![dim("t to exit"@)],
        ]
}

fn push_item(items: &mut Vec<Vec<Span>>, s: Span)
    ensures
        items_view(final(items)@) == items_view(old(items)@).push(seq![s.view()]),
{
    let ghost o = items@;
    items.push(one(s));
    proof {
        assert(items_view(items@) =~= items_view(o).push(seq![s.view()]));
    }
}

fn one(s: Span) -> (v: Vec<Span>)
    ensures
        spans_view(v@) == seq![s.view()],
{
    let mut v: Vec<Span> = Vec::new();
    v.push(s);
    proof {
        assert(spans_view(v@) =~= seq![s.view()]);
    }
    v
}

pub fn toggles_footer_items(app: &App) -> (items: Vec<Vec<Span>>)
    ensures
        items_view(items@) == spec_toggle_items(app.view()),
{
    let mut items: Vec<Vec<Span>> = Vec::new();
    items.push(one(span_of("Toggles", Style::new().fg(Color::White).bold())));
    let ts = app.source_toggles();
    let ghost head = items_view(items@);
    let mut i: usize = 0;
    while i < ts.len()
        invariant
            i <= ts@.len(),
            ts@ == app.view().source_toggles,
            items_view(items@) == head + ts@.subrange(0, i as int).map_values(|p: (crate::toggle::Toggle, bool)| seq![spec_toggle_span(p.0.key, p.0.name@, p.1)]),
        decreases ts.len() - i,
    {
        let sp = toggle_span(ts[i].0.key, ts[i].0.name.as_str(), ts[i].1);
        let ghost old_items = items@;
        items.push(one(sp));
        proof {
            assert(items_view(items@) =~= items_view(old_items).push(seq![sp.view()]));
            assert(ts@.subrange(0, i + 1).map_values(|p: (crate::toggle::Toggle, bool)| seq![spec_toggle_span(p.0.key, p.0.name@, p.1)])
                =~= ts@.subrange(0, i as int).map_values(|p: (crate::toggle::Toggle, bool)| seq![spec_toggle_span(p.0.key, p.0.name@, p.1)]).push(seq![sp.view()]));
        }
        i = i + 1;
    }
    proof {
        assert(ts@.subrange(0, ts@.len() as int) =~= ts@);
    }
    push_item(&mut items, toggle_span('w', "wrap", app.wrap_preview()));
    push_item(&mut items, toggle_span('n', "numbers", app.show_line_numbers()));
    push_item(&mut items, toggle_span('z', "zoom", app.zoom_preview()));
    push_item(&mut items, span_of("t to exit", Style::new().fg(Color::DarkGray)));
    proof {
        assert(items_view(items@) =~= spec_toggle_items(app.view()));
    }
    items
}

/// The footer's items while the columns have focus: the focused column's
/// entry count, then the key hints.
pub open spec fn spec_column_items(count: nat) -> Seq<Seq<SpanView>> {
    seq![
        seq![SpanView { content: decimal(count) + " items"@, style: plain_style() }],
        seq![dim("h/j/k/l move"@)],
        seq![dim("gg/G top/bottom"@)],
        seq![dim("t toggles"@)],
        seq![dim("q quit"@)],
    ]
}

/// The footer's items while the preview has focus.
pub open spec fn spec_preview_items() -> Seq<Seq<SpanView>> {
    seq![
        seq![dim("j/k scroll"@)],
        seq![dim("h back"@)],
        seq![dim("gg/G top/bottom"@)],
        seq![dim("t toggles"@)],
        seq![dim("q quit"@)],
    ]
}

/// The footer: the toggles menu when it is open, else the toast in red
/// when one is showing, else the key hints for whichever pane has focus,
/// wrapped to `width`.
pub open spec fn spec_footer(v: AppView, width: u16) -> Seq<Seq<SpanView>> {
    if v.toggles_menu_open {
        wrapped_lines(spec_toggle_items(v), width, FOOTER_WRAP_INDENT@, true)
    } else if v.message is Some {
        seq![seq![SpanView { content: v.message->Some_0, style: fg_style(Color::Red) }]]
    } else if v.preview_focused {
        wrapped_lines(spec_preview_items(), width, Seq::empty(), false)
    } else {
        wrapped_lines(spec_column_items(focused(v).entries@.len()), width, FOOTER_WRAP_INDENT@, true)
    }
}

pub fn footer_text(app: &App, width: u16) -> (lines: Vec<Line>)
    requires
        app.wf(),
    ensures
        lines_view(lines@) == spec_footer(app.view(), width),
{
    if app.toggles_menu_open() {
        let items = toggles_footer_items(app);
        return wrap_items(&items, width, FOOTER_WRAP_INDENT, true);
    }
    match app.message() {
        Some(m) => {
            let sp = Span { content: m.clone(), style: Style::new().fg(Color::Red) };
            let mut out: Vec<Line> = Vec::new();
            out.push(Line { spans: one(sp) });
            proof {
                assert(lines_view(out@) =~= spec_footer(app.view(), width));
            }
            return out;
        },
        None => {},
    }
    let gray = Style::new().fg(Color::DarkGray);
    if app.preview_focused() {
        let mut items: Vec<Vec<Span>> = Vec::new();
        items.push(one(span_of("j/k scroll", gray)));
        items.push(one(span_of("h back", gray)));
        items.push(one(span_of("gg/G top/bottom", gray)));
        items.push(one(span_of("t toggles", gray)));
        items.push(one(span_of("q quit", gray)));
        proof {
            assert(items_view(items@) =~= spec_preview_items());
            reveal_strlit("");
        }
        return wrap_items(&items, width, "", false);
    }
    let cols = app.columns();
    let count = cols[cols.len() - 1].entries.len();
    let mut label = decimal_chars(count as u64);
    let tail = chars_of(" items");
    append_chars(&mut label, tail.as_slice());
    let mut items: Vec<Vec<Span>> = Vec::new();
    items.push(one(Span { content: string_of(label.as_slice()), style: Style::new() }));
    items.push(one(span_of("h/j/k/l move", gray)));
    items.push(one(span_of("gg/G top/bottom", gray)));
    items.push(one(span_of("t toggles", gray)));
    items.push(one(span_of("q quit", gray)));
    proof {
        assert(items_view(items@) =~= spec_column_items(focused(app.view()).entries@.len()));
    }
    wrap_items(&items, width, FOOTER_WRAP_INDENT, true)
}

/// One row of the line-number gutter: the number right-aligned in
/// `num_width` columns and a space, or blanks for a row with no number.
pub open spec fn spec_gutter_line(line_no: Option<nat>, num_width: nat) -> Seq<SpanView> {
    let text = match line_no {
        Some(n) => {
            let d = decimal(n);
            let pad: nat = if d.len() < num_width { (num_width - d.len()) as nat } else { 0 };
            Seq::new(pad, |i: int| ' ') + d + seq![' ']
        },
        None => Seq::new(num_width + 1, |i: int| ' '),
    };
    seq![dim(text)]
}

pub fn gutter_line(line_no: Option<usize>, num_width: usize) -> (l: Line)
    requires
        num_width < usize::MAX,
    ensures
        l.view() == spec_gutter_line(match line_no { Some(n) => Some(n as nat), None => None }, num_width as nat),
{
    let mut v: Vec<char> = Vec::new();
    match line_no {
        Some(n) => {
            let d = decimal_chars(n as u64);
            let pad: usize = if d.len() < num_width { num_width - d.len() } else { 0 };
            let mut i: usize = 0;
            while i < pad
                invariant
                    i <= pad,
                    v@ == Seq::new(i as nat, |k: int| ' '),
                decreases pad - i,
            {
                v.push(' ');
                proof {
                    assert(v@ =~= Seq::new((i + 1) as nat, |k: int| ' '));
                }
                i = i + 1;
            }
            append_chars(&mut v, d.as_slice());
            v.push(' ');
            proof {
                let dd = decimal(n as nat);
                let sp: nat = if dd.len() < num_width { (num_width - dd.len()) as nat } else { 0 };
                assert(v@ =~= Seq::new(sp, |k: int| ' ') + dd + seq![' ']);
            }
        },
        None => {
            let mut i: usize = 0;
            while i < num_width + 1
                invariant
                    num_width < usize::MAX,
                    i <= num_width + 1,
                    v@ == Seq::new(i as nat, |k: int| ' '),
                decreases num_width + 1 - i,
            {
                v.push(' ');
                proof {
                    assert(v@ =~= Seq::new((i + 1) as nat, |k: int| ' '));
                }
                i = i + 1;
            }
        },
    }
    let sp = Span { content: string_of(v.as_slice()), style: Style::new().fg(Color::DarkGray) };
    let l = Line { spans: one(sp) };
    proof {
        assert(l.view() =~= spec_gutter_line(match line_no { Some(n) => Some(n as nat), None => None }, num_width as nat));
    }
    l
}

/// An entry's row in a column: its icon (padded when it has none, in the
/// label's own color when it has no color of its own) and its label, the
/// label in `selected_label_fg` when the row is under the cursor.
pub open spec fn spec_entry_item(e: Entry, selected_label_fg: Option<Color>, nerd_font: bool) -> Seq<SpanView> {
    let (label, style) = spec_entry_label(e.name@, e.is_dir, e.is_link);
    let icon = spec_nerd_icon_span(nerd_font, e.nerd_icon, e.nerd_icon_color, style.fg, true);
    let label_style = match selected_label_fg { Some(c) => Style { fg: Some(c), ..style }, None => style };
    let head = match icon { Some(sp) => seq![sp], None => Seq::empty() };
    head + seq![SpanView { content: label, style: label_style }]
}

pub fn entry_item(entry: &Entry, selected_label_fg: Option<Color>, nerd_font: bool) -> (l: Line)
    ensures
        l.view() == spec_entry_item(*entry, selected_label_fg, nerd_font),
{
    let (label, style) = entry_label(entry);
    let mut spans: Vec<Span> = Vec::new();
    match nerd_icon_span(nerd_font, entry.nerd_icon, entry.nerd_icon_color, style.fg, true) {
        Some(icon) => spans.push(icon),
        None => {},
    }
    let label_style = match selected_label_fg {
        Some(c) => style.fg(c),
        None => style,
    };
    spans.push(Span { content: label, style: label_style });
    let l = Line { spans };
    proof {
        assert(l.view() =~= spec_entry_item(*entry, selected_label_fg, nerd_font));
    }
    l
}

/// Border and title styles of a box: cyan (the title bold) around the
/// focused pane, gray otherwise.
pub open spec fn spec_box_style(is_focused: bool) -> (Style, Style) {
    if is_focused {
        (fg_style(Color::Cyan), Style { bold: true, ..fg_style(Color::Cyan) })
    } else {
        (fg_style(Color::DarkGray), fg_style(Color::Gray))
    }
}

pub fn box_style(is_focused: bool) -> (r: (Style, Style))
    ensures
        r == spec_box_style(is_focused),
{
    if is_focused {
        (Style::new().fg(Color::Cyan), Style::new().fg(Color::Cyan).bold())
    } else {
        (Style::new().fg(Color::DarkGray), Style::new().fg(Color::Gray))
    }
}

/// A box's title: a space, the icon (if any), the title sanitized like a
/// file name, and a space, all in the box's title style.
pub open spec fn spec_title_line(icon: (Option<char>, Option<Color>), title: Seq<char>, is_focused: bool, nerd_font: bool) -> Seq<SpanView> {
    let ts = spec_box_style(is_focused).1;
    let sp = SpanView { content: " "@, style: ts };
    let icon_span = match spec_nerd_icon_span(nerd_font, icon.0, icon.1, None, false) { Some(x) => seq![x], None => Seq::empty() };
    seq![sp] + icon_span + sanitize_line(title, ts) + seq![sp]
}

pub fn title_line(icon: (Option<char>, Option<Color>), title: &str, is_focused: bool, nerd_font: bool) -> (l: Line)
    ensures
        l.view() == spec_title_line(icon, title@, is_focused, nerd_font),
{
    let (_border, ts) = box_style(is_focused);
    let mut spans: Vec<Span> = Vec::new();
    spans.push(span_of(" ", ts));
    match nerd_icon_span(nerd_font, icon.0, icon.1, None, false) {
        Some(x) => spans.push(x),
        None => {},
    }
    let label = SanitizedText::from_label(title, ts);
    let ghost before = spans_view(spans@);
    let mut rest = label.spans;
    spans.append(&mut rest);
    spans.push(span_of(" ", ts));
    let l = Line { spans };
    proof {
        assert(l.view() =~= spec_title_line(icon, title@, is_focused, nerd_font));
    }
    l
}

pub open spec fn tuple_rect(t: (u16, u16, u16, u16)) -> Rect {
    Rect { x: t.0, y: t.1, width: t.2, height: t.3 }
}

/// The full terminal split into the body (columns and preview) above and
/// the footer below, `footer_height` rows tall.
pub open spec fn spec_root_layout(term: Rect, footer_height: u16) -> (Rect, Rect) {
    let r = spec_layout_split(rect_tuple(term), true, seq![(true, 3u16), (false, footer_height)]);
    (tuple_rect(r[0]), tuple_rect(r[1]))
}

pub fn root_layout(term: Rect, footer_height: u16) -> (r: (Rect, Rect))
    ensures
        r == spec_root_layout(term, footer_height),
{
    let mut cs: Vec<(bool, u16)> = Vec::new();
    cs.push((true, 3));
    cs.push((false, footer_height));
    let parts = split_layout(term, true, cs.as_slice());
    proof {
        assert(cs@ =~= seq![(true, 3u16), (false, footer_height)]);
        let sp = spec_layout_split(rect_tuple(term), true, cs@);
        assert(rect_tuple(parts@[0]) == sp[0]);
        assert(rect_tuple(parts@[1]) == sp[1]);
    }
    (parts[0], parts[1])
}

/// The footer's height: its lines, at least one.
pub open spec fn footer_height(v: AppView, width: u16) -> u16 {
    let n = spec_footer(v, width).len();
    if n > 1 { n as u16 } else { 1 }
}

/// The part of the terminal above the footer.
pub open spec fn spec_body_area(term: Rect, v: AppView) -> Rect {
    spec_root_layout(term, footer_height(v, term.width)).0
}

pub fn body_area(term: Rect, app: &App) -> (r: Rect)
    requires
        app.wf(),
    ensures
        r == spec_body_area(term, app.view()),
{
    let footer = footer_text(app, term.width);
    let n = footer.len();
    let h: u16 = if n > 1 { n as u16 } else { 1 };
    root_layout(term, h).0
}

/// How many columns fit beside the preview: starting from one, another
/// for every further column width left over.
pub open spec fn grow_visible(visible: nat, total: nat, remaining: nat) -> nat
    decreases total - visible,
{
    if visible < total && remaining >= COLUMN_WIDTH {
        grow_visible(visible + 1, total, (remaining - COLUMN_WIDTH) as nat)
    } else {
        visible
    }
}

/// The widths the layout asks for: each visible column's (the deepest
/// one's wider unless the preview has focus), then at least the preview's
/// minimum for the preview.
pub struct ColumnPlan {
    pub start_idx: nat,
    pub visible: nat,
    pub constraints: Seq<(bool, u16)>,
}

pub open spec fn spec_column_plan(area_width: u16, total: nat, preview_focused: bool) -> ColumnPlan {
    let last_w: u16 = if preview_focused { COLUMN_WIDTH } else { FOCUSED_COLUMN_WIDTH };
    let pmin: u16 = if preview_focused { PREVIEW_FOCUSED_MIN_WIDTH } else { PREVIEW_MIN_WIDTH };
    let pw: u16 = if pmin < area_width { pmin } else { area_width };
    let avail: nat = (area_width - pw) as nat;
    let remaining: nat = if avail > last_w { (avail - last_w) as nat } else { 0 };
    let visible = grow_visible(if total > 0 { 1 } else { 0 }, total, remaining);
    let start: nat = (total - visible) as nat;
    ColumnPlan {
        start_idx: start,
        visible,
        constraints: Seq::new(visible, |o: int| (false, if start + o == total - 1 { last_w } else { COLUMN_WIDTH })).push((true, pw)),
    }
}

/// Where the visible columns and the preview go in `area`: the index of
/// the first visible column, each visible column's rectangle, and the
/// preview's. When not every column fits, the leftmost slide out of view.
pub fn column_layout(area: Rect, total: usize, preview_focused: bool) -> (r: (usize, Vec<Rect>, Rect))
    requires
        total >= 1,
    ensures
        ({
            let plan = spec_column_plan(area.width, total as nat, preview_focused);
            let sp = spec_layout_split(rect_tuple(area), false, plan.constraints);
            &&& r.0 == plan.start_idx
            &&& r.1@.len() == plan.visible
            &&& forall|k: int| 0 <= k < plan.visible ==> rect_tuple(#[trigger] r.1@[k]) == sp[k]
            &&& rect_tuple(r.2) == sp[plan.visible as int]
            &&& 1 <= plan.visible <= total
        }),
{
    let last_w: u16 = if preview_focused { COLUMN_WIDTH } else { FOCUSED_COLUMN_WIDTH };
    let pmin: u16 = if preview_focused { PREVIEW_FOCUSED_MIN_WIDTH } else { PREVIEW_MIN_WIDTH };
    let pw: u16 = if pmin < area.width { pmin } else { area.width };
    let avail: u16 = area.width - pw;
    let mut remaining: u16 = if avail > last_w { avail - last_w } else { 0 };
    let mut visible: usize = 1;
    let ghost rem0 = remaining as nat;
    while visible < total && remaining >= COLUMN_WIDTH
        invariant
            1 <= visible <= total,
            grow_visible(visible as nat, total as nat, remaining as nat) == grow_visible(1, total as nat, rem0),
        decreases total - visible,
    {
        remaining = remaining - COLUMN_WIDTH;
        visible = visible + 1;
    }
    let start: usize = total - visible;
    let ghost plan = spec_column_plan(area.width, total as nat, preview_focused);
    let mut cs: Vec<(bool, u16)> = Vec::new();
    let mut o: usize = 0;
    while o < visible
        invariant
            o <= visible,
            visible <= total,
            start == total - visible,
            cs@ == Seq::new(o as nat, |q: int| (false, if start + q == total - 1 { last_w } else { COLUMN_WIDTH })),
        decreases visible - o,
    {
        let w: u16 = if start + o == total - 1 { last_w } else { COLUMN_WIDTH };
        cs.push((false, w));
        proof {
            assert(cs@ =~= Seq::new((o + 1) as nat, |q: int| (false, if start + q == total - 1 { last_w } else { COLUMN_WIDTH })));
        }
        o = o + 1;
    }
    cs.push((true, pw));
    proof {
        assert(cs@ =~= plan.constraints);
    }
    let parts = split_layout(area, false, cs.as_slice());
    let ghost sp = spec_layout_split(rect_tuple(area), false, cs@);
    let mut rects: Vec<Rect> = Vec::new();
    let mut k: usize = 0;
    while k < visible
        invariant
            k <= visible,
            parts@.len() == visible + 1,
            parts@.map_values(|q: Rect| rect_tuple(q)) == sp,
            rects@.len() == k,
            forall|j: int| 0 <= j < k ==> rect_tuple(#[trigger] rects@[j]) == sp[j],
        decreases visible - k,
    {
        rects.push(parts[k]);
        proof {
            assert(rect_tuple(parts@[k as int]) == sp[k as int]);
        }
        k = k + 1;
    }
    proof {
        assert(rect_tuple(parts@[visible as int]) == sp[visible as int]);
    }
    (start, rects, parts[visible])
}

/// What a left click lands on.
#[derive(Clone, Copy, Debug, PartialEq, Eq, Structural)]
pub enum MouseTarget {
    /// A row of `columns[col_idx]`: its entry `row_idx`.
    Entry { col_idx: usize, row_idx: usize },
    /// Inside a column's box other than the focused one, off every row.
    Column { col_idx: usize },
    /// Anywhere in the preview pane.
    Preview,
}

/// The entry a click at row `y` inside the column's box `r` lands on:
/// none on the border, past the last entry, or in a column still loading.
pub open spec fn spec_hit_entry(v: AppView, col_idx: int, r: Rect, y: u16) -> Option<MouseTarget> {
    let c = v.columns[col_idx];
    let bottom: int = if r.height >= 1 { r.y + r.height - 1 } else { r.y as int };
    if c.loading || y <= r.y || y >= bottom {
        None
    } else {
        let row = (y - r.y - 1) + c.list_offset;
        if row >= c.entries@.len() { None } else { Some(MouseTarget::Entry { col_idx: col_idx as usize, row_idx: row as usize }) }
    }
}

/// A click inside a column's box on its visible row `k` (the `k`-th row
/// below the top border, above the bottom border) lands on the entry drawn
/// on that row: the list is drawn from `list_offset` on, so row `k` shows
/// entry `list_offset + k`; a row past the last entry lands on none.
pub proof fn lemma_click_row_is_drawn_entry(v: AppView, col_idx: int, r: Rect, k: int)
    requires
        0 <= col_idx < v.columns.len(),
        !v.columns[col_idx].loading,
        0 <= k,
        r.y + 1 + k < r.y + r.height - 1,
        r.y + 1 + k <= u16::MAX,
    ensures
        spec_hit_entry(v, col_idx, r, (r.y + 1 + k) as u16) == (if v.columns[col_idx].list_offset + k < v.columns[col_idx].entries@.len() {
            Some(MouseTarget::Entry { col_idx: col_idx as usize, row_idx: (v.columns[col_idx].list_offset + k) as usize })
        } else {
            None
        }),
{
}

/// The first of `rects`, from `k` on, that holds `(x, y)`.
pub open spec fn first_containing(rects: Seq<Rect>, x: u16, y: u16, k: int) -> Option<int>
    decreases rects.len() - k,
{
    if k >= rects.len() || k < 0 {
        None
    } else if contains(rects[k], x, y) {
        Some(k)
    } else {
        first_containing(rects, x, y, k + 1)
    }
}

/// What a click at `(x, y)` on a terminal of `term` lands on, by the same
/// layout the screen is drawn with.
pub open spec fn spec_hit_test(term: Rect, v: AppView, x: u16, y: u16, rects: Seq<Rect>, preview: Rect, start: nat) -> Option<MouseTarget> {
    let body = spec_body_area(term, v);
    if !contains(body, x, y) {
        None
    } else if v.preview_focused && v.zoom_preview {
        Some(MouseTarget::Preview)
    } else {
        match first_containing(rects, x, y, 0) {
            Some(k) => {
                let ci = start + k;
                match spec_hit_entry(v, ci, rects[k], y) {
                    Some(t) => Some(t),
                    None => if ci == v.columns.len() - 1 && !v.preview_focused { None } else { Some(MouseTarget::Column { col_idx: ci as usize }) },
                }
            },
            None => if contains(preview, x, y) { Some(MouseTarget::Preview) } else { None },
        }
    }
}

/// What a left click at `(x, y)` on a terminal of `term` lands on.
pub open spec fn spec_target(term: Rect, v: AppView, x: u16, y: u16) -> Option<MouseTarget> {
    let body = spec_body_area(term, v);
    let plan = spec_column_plan(body.width, v.columns.len(), v.preview_focused);
    let sp = spec_layout_split(rect_tuple(body), false, plan.constraints);
    spec_hit_test(term, v, x, y, Seq::new(plan.visible, |k: int| tuple_rect(sp[k])), tuple_rect(sp[plan.visible as int]), plan.start_idx)
}

/// Whether `(x, y)` lies in the preview pane.
pub open spec fn spec_in_preview(term: Rect, v: AppView, x: u16, y: u16) -> bool {
    let body = spec_body_area(term, v);
    let plan = spec_column_plan(body.width, v.columns.len(), v.preview_focused);
    let sp = spec_layout_split(rect_tuple(body), false, plan.constraints);
    if v.preview_focused && v.zoom_preview { contains(body, x, y) } else { contains(tuple_rect(sp[plan.visible as int]), x, y) }
}

fn hit_entry(app: &App, col_idx: usize, r: Rect, y: u16) -> (t: Option<MouseTarget>)
    requires
        app.wf(),
        col_idx < app.view().columns.len(),
    ensures
        t == spec_hit_entry(app.view(), col_idx as int, r, y),
{
    let c = &app.columns()[col_idx];
    let bottom: u32 = if r.height >= 1 { r.y as u32 + r.height as u32 - 1 } else { r.y as u32 };
    if c.loading || y <= r.y || y as u32 >= bottom {
        return None;
    }
    let row_in_view: usize = (y - r.y - 1) as usize;
    if row_in_view >= c.entries.len() || c.list_offset >= c.entries.len() - row_in_view {
        return None;
    }
    Some(MouseTarget::Entry { col_idx, row_idx: row_in_view + c.list_offset })
}

/// What a left click at `(x, y)` on a terminal of `term` lands on.
pub fn hit_test(term: Rect, app: &App, x: u16, y: u16) -> (t: Option<MouseTarget>)
    requires
        app.wf(),
    ensures
        t == spec_target(term, app.view(), x, y),
{
    let body = body_area(term, app);
    if !rect_contains(body, x, y) {
        return None;
    }
    if app.preview_focused() && app.zoom_preview() {
        return Some(MouseTarget::Preview);
    }
    let total = app.columns().len();
    let (start, rects, preview) = column_layout(body, total, app.preview_focused());
    let ghost plan = spec_column_plan(body.width, total as nat, app.view().preview_focused);
    let ghost sp = spec_layout_split(rect_tuple(body), false, plan.constraints);
    let ghost rs = Seq::new(plan.visible, |k: int| tuple_rect(sp[k]));
    proof {
        assert forall|k: int| 0 <= k < rects@.len() implies #[trigger] rects@[k] == rs[k] by {
            assert(rect_tuple(rects@[k]) == sp[k]);
        }
        assert(rects@ =~= rs);
        assert(preview == tuple_rect(sp[plan.visible as int]));
    }
    let mut k: usize = 0;
    while k < rects.len()
        invariant
            k <= rects@.len(),
            rects@ == rs,
            app.wf(),
            body == spec_body_area(term, app.view()),
            contains(body, x, y),
            !(app.view().preview_focused && app.view().zoom_preview),
            total == app.view().columns.len(),
            plan == spec_column_plan(body.width, total as nat, app.view().preview_focused),
            sp == spec_layout_split(rect_tuple(body), false, plan.constraints),
            rs == Seq::new(plan.visible, |j: int| tuple_rect(sp[j])),
            preview == tuple_rect(sp[plan.visible as int]),
            start == plan.start_idx,
            plan.visible == rects@.len(),
            1 <= plan.visible <= total,
            first_containing(rs, x, y, 0) == first_containing(rs, x, y, k as int),
        decreases rects.len() - k,
    {
        if rect_contains(rects[k], x, y) {
            let ci = start + k;
            let hit = hit_entry(app, ci, rects[k], y);
            match hit {
                Some(t) => {
                    return Some(t);
                },
                None => {
                    if ci == total - 1 && !app.preview_focused() {
                        return None;
                    }
                    return Some(MouseTarget::Column { col_idx: ci });
                },
            }
        }
        k = k + 1;
    }
    if rect_contains(preview, x, y) { Some(MouseTarget::Preview) } else { None }
}

/// Whether `(x, y)` lies in the preview pane (the whole body while the
/// preview is zoomed), for routing the scroll wheel.
pub fn point_in_preview(term: Rect, app: &App, x: u16, y: u16) -> (b: bool)
    requires
        app.wf(),
    ensures
        b == spec_in_preview(term, app.view(), x, y),
{
    let body = body_area(term, app);
    if app.preview_focused() && app.zoom_preview() {
        return rect_contains(body, x, y);
    }
    let (_start, _rects, preview) = column_layout(body, app.columns().len(), app.preview_focused());
    proof {
        let plan = spec_column_plan(body.width, app.view().columns.len(), app.view().preview_focused);
        let sp = spec_layout_split(rect_tuple(body), false, plan.constraints);
        assert(preview == tuple_rect(sp[plan.visible as int]));
    }
    rect_contains(preview, x, y)
}

/// How many rows the preview line `l` takes once wrapped at `width`: at
/// least one.
pub open spec fn line_rows(l: Seq<SpanView>, width: u16) -> nat {
    let n = spec_wrapped_line_count(seq![l], width);
    if n > 1 { n } else { 1 }
}

/// The gutter's label for every row of the wrapped preview: a line's
/// number on its first row, nothing on its continuation rows.
pub open spec fn gutter_labels(lines: Seq<Seq<SpanView>>, width: u16) -> Seq<Option<nat>>
    decreases lines.len(),
{
    if lines.len() == 0 {
        Seq::empty()
    } else {
        let k = lines.len() - 1;
        gutter_labels(lines.drop_last(), width) + Seq::new(line_rows(lines.last(), width), |i: int| if i == 0 { Some(k as nat + 1) } else { None })
    }
}

/// The gutter for the `height` rows shown from `scroll` on: numbers
/// follow the preview's own lines, so with wrapping on only a line's first
/// row is numbered.
pub open spec fn spec_gutter_lines(v: AppView, height: nat, text_width: u16, num_width: nat) -> Seq<Seq<SpanView>> {
    let scroll = v.preview_scroll as nat;
    let total = v.preview.len();
    if !v.wrap_preview {
        Seq::new(height, |r: int| spec_gutter_line(if scroll + r + 1 <= total { Some((scroll + r + 1) as nat) } else { None }, num_width))
    } else {
        let labels = gutter_labels(v.preview, text_width);
        Seq::new(height, |r: int| spec_gutter_line(if scroll + r < labels.len() { labels[scroll + r] } else { None }, num_width))
    }
}

fn one_line(l: &Line) -> (v: Vec<Line>)
    ensures
        lines_view(v@) == seq![l.view()],
{
    let mut spans: Vec<Span> = Vec::new();
    let mut i: usize = 0;
    while i < l.spans.len()
        invariant
            i <= l.spans@.len(),
            spans_view(spans@) == spans_view(l.spans@).subrange(0, i as int),
        decreases l.spans.len() - i,
    {
        let ghost o = spans@;
        spans.push(copy_span(&l.spans[i]));
        proof {
            assert(spans_view(spans@) =~= spans_view(o).push(l.spans@[i as int].view()));
            assert(spans_view(l.spans@).subrange(0, i + 1) =~= spans_view(l.spans@).subrange(0, i as int).push(l.spans@[i as int].view()));
            assert(spans_view(spans@) =~= spans_view(l.spans@).subrange(0, i + 1));
        }
        i = i + 1;
    }
    proof {
        assert(spans_view(l.spans@).subrange(0, l.spans@.len() as int) =~= spans_view(l.spans@));
    }
    let mut v: Vec<Line> = Vec::new();
    v.push(Line { spans });
    proof {
        assert(lines_view(v@) =~= seq![l.view()]);
    }
    v
}

pub proof fn lemma_labels_len(lines: Seq<Seq<SpanView>>, width: u16, k: int)
    requires
        0 <= k < lines.len(),
    ensures
        gutter_labels(lines.subrange(0, k + 1), width) == gutter_labels(lines.subrange(0, k), width)
            + Seq::new(line_rows(lines[k], width), |i: int| if i == 0 { Some(k as nat + 1) } else { None }),
{
    assert(lines.subrange(0, k + 1).drop_last() =~= lines.subrange(0, k));
}

pub proof fn lemma_labels_prefix(lines: Seq<Seq<SpanView>>, width: u16, k: int)
    requires
        0 <= k <= lines.len(),
    ensures
        gutter_labels(lines.subrange(0, k), width).len() <= gutter_labels(lines, width).len(),
        forall|i: int| 0 <= i < gutter_labels(lines.subrange(0, k), width).len()
            ==> #[trigger] gutter_labels(lines.subrange(0, k), width)[i] == gutter_labels(lines, width)[i],
    decreases lines.len() - k,
{
    if k < lines.len() {
        lemma_labels_prefix(lines, width, k + 1);
        lemma_labels_len(lines, width, k);
        let a = gutter_labels(lines.subrange(0, k), width);
        let b = gutter_labels(lines.subrange(0, k + 1), width);
        assert forall|i: int| 0 <= i < a.len() implies #[trigger] a[i] == gutter_labels(lines, width)[i] by {
            assert(a[i] == b[i]);
        }
    } else {
        assert(lines.subrange(0, k) =~= lines);
    }
}

/// The line-number gutter for the `height` rows of the preview shown, its
/// text `text_width` wide (see `spec_gutter_lines`).
pub fn gutter_lines(app: &App, height: u16, text_width: u16) -> (r: Vec<Line>)
    ensures
        ({
            let v = app.view();
            let n = if v.preview.len() > 1 { v.preview.len() } else { 1 };
            let num_width = if crate::browser::decimal_len(n) > 3 { crate::browser::decimal_len(n) } else { 3 };
            lines_view(r@) == spec_gutter_lines(v, height as nat, text_width, num_width)
        }),
{
    let scroll: usize = app.preview_scroll() as usize;
    let h: usize = height as usize;
    let preview = app.preview();
    let total = preview.line_count();
    let num_width = app.preview_line_number_width();
    let ghost v = app.view();
    let mut out: Vec<Line> = Vec::new();
    if !app.wrap_preview() {
        let mut row: usize = 0;
        while row < h
            invariant
                row <= h,
                scroll <= u16::MAX,
                h <= u16::MAX,
                3 <= num_width <= 20,
                total == v.preview.len(),
                scroll == v.preview_scroll,
                lines_view(out@) == Seq::new(row as nat, |r: int| spec_gutter_line(if scroll + r + 1 <= total { Some((scroll + r + 1) as nat) } else { None }, num_width as nat)),
            decreases h - row,
        {
            let line_no = scroll + row + 1;
            let l = gutter_line(if line_no <= total { Some(line_no) } else { None }, num_width);
            let ghost o = out@;
            out.push(l);
            proof {
                assert(lines_view(out@) =~= lines_view(o).push(l.view()));
                assert(lines_view(out@) =~= Seq::new((row + 1) as nat, |r: int| spec_gutter_line(if scroll + r + 1 <= total { Some((scroll + r + 1) as nat) } else { None }, num_width as nat)));
            }
            row = row + 1;
        }
        return out;
    }
    let ghost pv = v.preview;
    let ghost labels_all = gutter_labels(pv, text_width);
    let mut vr: usize = 0;
    let mut idx: usize = 0;
    let end: usize = scroll + h;
    let nlines: usize = preview.lines.len();
    proof {
        assert(pv.subrange(0, 0) =~= Seq::<Seq<SpanView>>::empty());
        assert(lines_view(out@) =~= Seq::<Seq<SpanView>>::empty());
    }
    while idx < preview.lines.len() && vr < end
        invariant
            idx <= preview.lines@.len(),
            nlines == preview.lines@.len(),
            pv == lines_view(preview.lines@),
            pv == v.preview,
            labels_all == gutter_labels(pv, text_width),
            end == scroll + h,
            scroll <= u16::MAX,
            h <= u16::MAX,
            3 <= num_width <= 20,
            vr <= end,
            vr <= gutter_labels(pv.subrange(0, idx as int), text_width).len(),
            vr < gutter_labels(pv.subrange(0, idx as int), text_width).len() ==> vr >= end,
            ({
                let labels = gutter_labels(pv.subrange(0, idx as int), text_width);
                let shown: int = if vr <= scroll { 0 } else { vr - scroll };
                lines_view(out@) == Seq::new(shown as nat, |r: int| spec_gutter_line(labels[scroll + r], num_width as nat))
            }),
        decreases preview.lines.len() - idx,
    {
        let single = one_line(&preview.lines[idx]);
        let n = wrapped_line_count(single.as_slice(), text_width);
        let rows: usize = if n > 1 { n } else { 1 };
        let ghost before = gutter_labels(pv.subrange(0, idx as int), text_width);
        proof {
            lemma_labels_len(pv, text_width, idx as int);
            assert(lines_view(single@) == seq![pv[idx as int]]);
        }
        let ghost after = gutter_labels(pv.subrange(0, idx + 1), text_width);
        proof {
            let shown: int = if vr <= scroll { 0 } else { vr - scroll };
            assert(lines_view(out@) =~= Seq::new(shown as nat, |r: int| spec_gutter_line(after[scroll + r], num_width as nat)));
        }
        let mut sub: usize = 0;
        while sub < rows && vr < end
            invariant
                sub <= rows,
                idx < nlines,
                nlines == pv.len(),
                rows == line_rows(pv[idx as int], text_width),
                after == before + Seq::new(rows as nat, |i: int| if i == 0 { Some(idx as nat + 1) } else { None }),
                vr == before.len() + sub,
                vr <= end,
                end == scroll + h,
                3 <= num_width <= 20,
                ({
                    let shown: int = if vr <= scroll { 0 } else { vr - scroll };
                    lines_view(out@) == Seq::new(shown as nat, |r: int| spec_gutter_line(after[scroll + r], num_width as nat))
                }),
            decreases rows - sub,
        {
            if vr >= scroll {
                let l = gutter_line(if sub == 0 { Some(idx + 1) } else { None }, num_width);
                let ghost o = out@;
                out.push(l);
                proof {
                    assert(lines_view(out@) =~= lines_view(o).push(l.view()));
                    assert(after[vr as int] == (if sub == 0 { Some(idx as nat + 1) } else { None::<nat> }));
                    assert(lines_view(out@) =~= Seq::new((vr + 1 - scroll) as nat, |r: int| spec_gutter_line(after[scroll + r], num_width as nat)));
                }
            }
            vr = vr + 1;
            sub = sub + 1;
        }
        idx = idx + 1;
    }
    proof {
        lemma_labels_prefix(pv, text_width, idx as int);
        let labels = gutter_labels(pv.subrange(0, idx as int), text_width);
        if idx == preview.lines@.len() {
            assert(pv.subrange(0, idx as int) =~= pv);
        }
        let shown: int = if vr <= scroll { 0 } else { vr - scroll };
        assert(lines_view(out@) =~= Seq::new(shown as nat, |r: int| spec_gutter_line(
            if scroll + r < labels_all.len() { labels_all[scroll + r] } else { None }, num_width as nat)));
    }
    while out.len() < h
        invariant
            3 <= num_width <= 20,
            out@.len() <= h,
            labels_all == gutter_labels(pv, text_width),
            lines_view(out@) == Seq::new(out@.len(), |r: int| spec_gutter_line(
                if scroll + r < labels_all.len() { labels_all[scroll + r] } else { None }, num_width as nat)),
            vr <= scroll + out@.len() || out@.len() == h,
            vr >= labels_all.len() || out@.len() == h,
        decreases h - out.len(),
    {
        let ghost k = out@.len();
        let l = gutter_line(None, num_width);
        let ghost o = out@;
        out.push(l);
        proof {
            assert(lines_view(out@) =~= lines_view(o).push(l.view()));
            assert(lines_view(out@) =~= Seq::new(out@.len(), |r: int| spec_gutter_line(
                if scroll + r < labels_all.len() { labels_all[scroll + r] } else { None }, num_width as nat)));
        }
    }
    out
}

/// A mouse event, as the browser distinguishes them.
#[derive(Clone, Copy, Debug, PartialEq, Eq, Structural)]
pub enum MouseInput {
    LeftDown,
    ScrollDown,
    ScrollUp,
    Other,
}

/// What a mouse event at `(x, y)` does from `o`: a left click acts on what
/// it lands on; the wheel scrolls the preview when over it and moves the
/// cursor otherwise.
pub open spec fn moused(term: Rect, o: AppView, n: AppView, kind: MouseInput, x: u16, y: u16, now: u64, acts: Seq<crate::browser::AppAction>) -> bool {
    match kind {
        MouseInput::LeftDown => match spec_target(term, o, x, y) {
            Some(MouseTarget::Entry { col_idx, row_idx }) => crate::browser::clicked_entry(o, n, col_idx, row_idx, now, acts),
            Some(MouseTarget::Column { col_idx }) => crate::browser::clicked_column(o, n, col_idx, now, acts),
            Some(MouseTarget::Preview) => crate::browser::entered(o, n, acts),
            None => n == o && acts.len() == 0,
        },
        MouseInput::ScrollDown => if spec_in_preview(term, o, x, y) {
            n == crate::browser::scrolled_by(o, 1) && acts.len() == 0
        } else {
            crate::browser::moved(o, n, 1, now, acts)
        },
        MouseInput::ScrollUp => if spec_in_preview(term, o, x, y) {
            n == crate::browser::scrolled_by(o, -1i32) && acts.len() == 0
        } else {
            crate::browser::moved(o, n, -1i32, now, acts)
        },
        MouseInput::Other => n == o && acts.len() == 0,
    }
}

/// Handles a mouse event at `(x, y)` on a terminal of `term`.
pub fn handle_mouse(app: &mut App, term: Rect, kind: MouseInput, x: u16, y: u16, now: u64) -> (acts: Vec<crate::browser::AppAction>)
    requires
        old(app).wf(),
    ensures
        final(app).wf(),
        moused(term, old(app).view(), final(app).view(), kind, x, y, now, acts@),
{
    match kind {
        MouseInput::LeftDown => match hit_test(term, app, x, y) {
            Some(MouseTarget::Entry { col_idx, row_idx }) => app.click_entry(col_idx, row_idx, now),
            Some(MouseTarget::Column { col_idx }) => app.click_column(col_idx, now),
            Some(MouseTarget::Preview) => app.click_preview(now),
            None => Vec::new(),
        },
        MouseInput::ScrollDown => {
            if point_in_preview(term, app, x, y) {
                app.preview_scroll_by(1);
                Vec::new()
            } else {
                app.move_selection(1, now)
            }
        },
        MouseInput::ScrollUp => {
            if point_in_preview(term, app, x, y) {
                app.preview_scroll_by(-1);
                Vec::new()
            } else {
                app.move_selection(-1, now)
            }
        },
        MouseInput::Other => Vec::new(),
    }
}

/// How one column is drawn: its box's title and border, a loading
/// placeholder or its entries' rows, and the cursor row's highlight.
pub struct ColumnRender {
    pub title: Line,
    pub border_style: Style,
    pub loading: bool,
    pub items: Vec<Line>,
    pub selected: Option<usize>,
    pub highlight: Style,
}

/// The cursor row's label color: brighter in the focused column.
pub open spec fn selected_label_fg(is_focused: bool) -> Color {
    if is_focused { Color::Rgb(235, 240, 245) } else { Color::Rgb(210, 212, 216) }
}

/// The cursor row's background, bold.
pub open spec fn highlight_style(is_focused: bool) -> Style {
    if is_focused {
        Style { bold: true, ..Style { bg: Some(Color::Rgb(45, 65, 90)), ..plain_style() } }
    } else {
        Style { bold: true, ..Style { bg: Some(Color::Rgb(55, 58, 64)), ..plain_style() } }
    }
}

/// How the column `col_idx` is drawn (see `ColumnRender`); it counts as
/// focused when it is the deepest and the preview does not have focus.
pub fn column_render(app: &App, col_idx: usize, nerd_font: bool) -> (r: ColumnRender)
    requires
        app.wf(),
        col_idx < app.view().columns.len(),
    ensures
        ({
            let v = app.view();
            let c = v.columns[col_idx as int];
            let is_focused = col_idx == v.columns.len() - 1 && !v.preview_focused;
            &&& r.title.view() == spec_title_line(crate::browser::spec_column_icon(v, col_idx as int),
                crate::browser::spec_column_label(v, col_idx as int), is_focused, nerd_font)
            &&& r.border_style == spec_box_style(is_focused).0
            &&& r.loading == c.loading
            &&& r.selected == c.selected
            &&& r.highlight == highlight_style(is_focused)
            &&& r.items@.len() == (if c.loading { 0 } else { c.entries@.len() })
            &&& forall|i: int| 0 <= i < r.items@.len() ==> (#[trigger] r.items@[i]).view()
                == spec_entry_item(c.entries@[i], if c.selected == Some(i as usize) { Some(selected_label_fg(is_focused)) } else { None }, nerd_font)
        }),
{
    let total = app.columns().len();
    let is_focused = col_idx == total - 1 && !app.preview_focused();
    let label = app.column_label(col_idx);
    let icon = app.column_icon(col_idx);
    let title = title_line(icon, label.as_str(), is_focused, nerd_font);
    let (border_style, _ts) = box_style(is_focused);
    let c = &app.columns()[col_idx];
    let fg = if is_focused { Color::Rgb(235, 240, 245) } else { Color::Rgb(210, 212, 216) };
    let highlight = if is_focused {
        Style::new().bg(Color::Rgb(45, 65, 90)).bold()
    } else {
        Style::new().bg(Color::Rgb(55, 58, 64)).bold()
    };
    let mut items: Vec<Line> = Vec::new();
    if !c.loading {
        let mut i: usize = 0;
        while i < c.entries.len()
            invariant
                i <= c.entries@.len(),
                items@.len() == i,
                forall|k: int| 0 <= k < i ==> (#[trigger] items@[k]).view()
                    == spec_entry_item(c.entries@[k], if c.selected == Some(k as usize) { Some(fg) } else { None }, nerd_font),
            decreases c.entries.len() - i,
        {
            let sel = match c.selected {
                Some(s) => s == i,
                None => false,
            };
            items.push(entry_item(&c.entries[i], if sel { Some(fg) } else { None }, nerd_font));
            i = i + 1;
        }
    }
    ColumnRender { title, border_style, loading: c.loading, items, selected: c.selected, highlight }
}

/// How the preview pane is drawn: its title and border, whether the
/// loading placeholder shows, and how its text area is shared with the
/// line-number gutter.
pub struct PreviewRender {
    pub title: Line,
    pub border_style: Style,
    pub loading: bool,
    pub gutter_width: u16,
    pub text_width: u16,
}

/// Works out how the preview pane is drawn in a box whose inside is
/// `inner_width` by `inner_height` (see `PreviewRender`), and records the
/// text area as the viewport scrolling works against: the whole inside
/// while loading, else the inside less the gutter.
pub fn preview_render(app: &mut App, inner_width: u16, inner_height: u16, nerd_font: bool, now: u64) -> (r: PreviewRender)
    requires
        old(app).wf(),
    ensures
        final(app).wf(),
        ({
            let o = old(app).view();
            let title = match selected_entry(o) {
                Some(e) => e.name@,
                None => crate::browser::spec_column_label(o, o.columns.len() - 1),
            };
            let icon = match selected_entry(o) {
                Some(e) => (e.nerd_icon, e.nerd_icon_color),
                None => (None, None),
            };
            let loading = o.loading_shows_at matches Some(t) && now >= t;
            let n = if o.preview.len() > 1 { o.preview.len() } else { 1 };
            let digits = if crate::browser::decimal_len(n) > 3 { crate::browser::decimal_len(n) } else { 3 };
            let gw: u16 = if !o.show_line_numbers || o.override_numbers_off { 0 } else { (digits as u16 + 1) as u16 };
            let g: u16 = if loading { 0 } else if gw < inner_width { gw } else { inner_width };
            &&& r.title.view() == spec_title_line(icon, title, o.preview_focused, nerd_font)
            &&& r.border_style == spec_box_style(o.preview_focused).0
            &&& r.loading == loading
            &&& r.gutter_width == g
            &&& r.text_width == inner_width - g
            &&& final(app).view() == (AppView { viewport_height: inner_height, viewport_width: (inner_width - g) as u16, ..o })
        }),
{
    let title_text: String = match app.selected_entry() {
        Some(e) => e.name.clone(),
        None => app.cwd(),
    };
    let icon = app.preview_title_icon();
    let focused_pane = app.preview_focused();
    let title = title_line(icon, title_text.as_str(), focused_pane, nerd_font);
    let (border_style, _ts) = box_style(focused_pane);
    let loading = app.preview_shows_loading(now);
    let g: u16 = if loading {
        0
    } else {
        let gw = app.preview_gutter_width();
        if gw < inner_width { gw } else { inner_width }
    };
    app.set_viewport(inner_height, inner_width - g);
    PreviewRender { title, border_style, loading, gutter_width: g, text_width: inner_width - g }
}

/// The preview's text area inside `inner`, with the gutter's strip on its
/// left when the gutter is `gutter` wide (none when 0).
pub fn preview_text_area(inner: Rect, gutter: u16) -> (r: (Option<Rect>, Rect))
    ensures
        gutter == 0 ==> r == (None::<Rect>, inner),
        gutter > 0 ==> ({
            let sp = spec_layout_split(rect_tuple(inner), false, seq![(false, gutter), (true, 0u16)]);
            r == (Some(tuple_rect(sp[0])), tuple_rect(sp[1]))
        }),
{
    if gutter == 0 {
        return (None, inner);
    }
    let mut cs: Vec<(bool, u16)> = Vec::new();
    cs.push((false, gutter));
    cs.push((true, 0));
    let parts = split_layout(inner, false, cs.as_slice());
    proof {
        assert(cs@ =~= seq![(false, gutter), (true, 0u16)]);
        let sp = spec_layout_split(rect_tuple(inner), false, cs@);
        assert(rect_tuple(parts@[0]) == sp[0]);
        assert(rect_tuple(parts@[1]) == sp[1]);
    }
    (Some(parts[0]), parts[1])
}

} // verus!
