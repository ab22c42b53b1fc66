//! The browser's navigation state: the stack of opened columns, the
//! selection in each, the preview pane and its scrolling, the toggles,
//! and the toast message.
//!
//! Fetching listings and previews from a node source is I/O and happens
//! elsewhere: every operation here returns the fetches it wants started
//! as [`AppAction`]s, and each result is handed back as an [`AppUpdate`],
//! tagged with the epoch it was asked for under so that a result a newer
//! action has made stale is dropped. Time comes in as a count of
//! milliseconds on a clock that only moves forward.

use vstd::prelude::*;

use crate::cancel::Cancelled;
use crate::entry::Entry;
use crate::error::SourceError;
use crate::manual::{join_id, join_slash};
use crate::sanitize::SanitizedText;
use crate::style::{Line, SpanView, lines_view};
use crate::error::debug_str;
use crate::fs_format::round_to_f64;
use crate::registry::{NodeSourceType, ToggleState, node_source_types, toggle_known};
use crate::strorder::{insert_sorted, sorted_strs, strs_view};
use crate::text::{append_chars, chars_of, str_is, string_of};
use crate::toggle::Toggle;

verus! {

/// How long an error toast stays on screen.
pub const TOAST_DURATION_MS: u64 = 2000;

/// How long a preview fetch must stay in flight before its loading
/// placeholder replaces the previous preview, so a quick fetch never
/// flashes it.
pub const PREVIEW_LOADING_DEBOUNCE_MS: u64 = 80;

/// An id's segments as plain text.
pub open spec fn ids(id: Seq<String>) -> Seq<Seq<char>> {
    id.map_values(|s: String| s@)
}

/// One opened directory in the stack of columns.
pub struct Column {
    pub id: Vec<String>,
    pub entries: Vec<Entry>,
    pub selected: Option<usize>,
    /// True while the listing is still being fetched (only ever the
    /// deepest column, right after it was opened).
    pub loading: bool,
    /// The first entry row shown, as the last render left it; used to map
    /// a click on a row back to an entry.
    pub list_offset: usize,
}

/// A column's selection is within its entries.
pub open spec fn col_ok(c: Column) -> bool {
    c.selected matches Some(s) ==> s < c.entries@.len()
}

/// Results of fetches the browser asked for, each tagged with the epoch
/// current when it was asked for.
pub enum AppUpdate {
    PreviewLoaded { epoch: u64, text: SanitizedText, override_disable_line_numbers: bool },
    ColumnLoaded { epoch: u64, id: Vec<String>, result: Result<Vec<Entry>, SourceError> },
    ColumnsReloaded { epoch: u64, results: Vec<(Vec<String>, Result<Vec<Entry>, SourceError>)> },
}

/// Work the browser wants done on its behalf.
pub enum AppAction {
    /// Fetch the preview of the node `id` and deliver it as
    /// `PreviewLoaded` tagged `epoch`; `cancelled` is flagged once the
    /// fetch is superseded.
    FetchPreview { epoch: u64, id: Vec<String>, cancelled: Cancelled },
    /// List the node `id` and deliver it as `ColumnLoaded` tagged `epoch`.
    FetchColumn { epoch: u64, id: Vec<String> },
    /// List each of `ids` in turn and deliver them together as
    /// `ColumnsReloaded` tagged `epoch`.
    ReloadColumns { epoch: u64, ids: Vec<Vec<String>> },
    /// Set the source toggle `toggle` to `value`.
    SetSourceToggle { toggle: Toggle, value: bool },
}

/// The plain-value picture of the browser's state.
pub struct AppView {
    pub epoch: u64,
    pub root_entry: Entry,
    pub source_toggles: Seq<(Toggle, bool)>,
    pub wrap_preview: bool,
    pub show_line_numbers: bool,
    pub zoom_preview: bool,
    pub columns: Seq<Column>,
    pub preview: Seq<Seq<SpanView>>,
    pub override_numbers_off: bool,
    pub preview_loading: bool,
    /// When the loading placeholder starts showing, while a fetch is in
    /// flight.
    pub loading_shows_at: Option<u64>,
    pub preview_focused: bool,
    pub preview_scroll: u16,
    /// The scroll position and the largest scroll of the preview it was
    /// taken on, to be carried over (as a fraction) to the next preview.
    pub scroll_restore: Option<(u16, u16)>,
    pub viewport_height: u16,
    pub viewport_width: u16,
    /// The name last selected in each column, by column id.
    pub memory: Seq<(Seq<Seq<char>>, Seq<char>)>,
    pub message: Option<Seq<char>>,
    pub message_expires_at: Option<u64>,
    pub should_quit: bool,
    pub pending_g: bool,
    pub toggles_menu_open: bool,
}

/// No column id is remembered twice.
pub open spec fn keys_distinct(m: Seq<(Seq<Seq<char>>, Seq<char>)>) -> bool {
    forall|i: int, j: int| 0 <= i < j < m.len() ==> #[trigger] m[i].0 != #[trigger] m[j].0
}

/// The name remembered for the column `k`.
pub open spec fn memory_lookup(m: Seq<(Seq<Seq<char>>, Seq<char>)>, k: Seq<Seq<char>>) -> Option<Seq<char>> {
    if exists|i: int| 0 <= i < m.len() && #[trigger] m[i].0 == k {
        Some(m[choose|i: int| 0 <= i < m.len() && #[trigger] m[i].0 == k].1)
    } else {
        None
    }
}

pub proof fn lemma_lookup_at(m: Seq<(Seq<Seq<char>>, Seq<char>)>, i: int, k: Seq<Seq<char>>)
    requires
        keys_distinct(m),
        0 <= i < m.len(),
        m[i].0 == k,
    ensures
        (choose|j: int| 0 <= j < m.len() && #[trigger] m[j].0 == k) == i,
        memory_lookup(m, k) == Some(m[i].1),
{
    let j = choose|j: int| 0 <= j < m.len() && #[trigger] m[j].0 == k;
    if j < i {
        assert(m[j].0 != m[i].0);
    } else if i < j {
        assert(m[i].0 != m[j].0);
    }
}

/// The next epoch after `e`.
pub open spec fn next_epoch(e: u64) -> u64 {
    if e == u64::MAX { 0 } else { (e + 1) as u64 }
}

/// The focused column: the deepest one.
pub open spec fn focused(v: AppView) -> Column {
    v.columns.last()
}

/// The entry under the cursor in the focused column, if any.
pub open spec fn selected_entry(v: AppView) -> Option<Entry> {
    let c = v.columns.last();
    match c.selected {
        Some(i) => if i < c.entries@.len() { Some(c.entries@[i as int]) } else { None },
        None => None,
    }
}

/// How many rows a preview of `lines` takes in a pane `width` columns
/// wide: one per line, or more once long lines wrap.
pub uninterp spec fn spec_wrapped_line_count(lines: Seq<Seq<SpanView>>, width: u16) -> nat;

/// Calls `ratatui`'s `Paragraph::line_count` on `lines` with wrapping on
/// (`trim: false`): how many rows they take once wrapped at `width`
/// columns. Claimed: that the count is a function of the lines and the
/// width alone, and (as its source shows) 0 at width 0.
#[verifier::external_body]
pub(crate) fn wrapped_line_count(lines: &[Line], width: u16) -> (n: usize)
    ensures
        n == spec_wrapped_line_count(lines_view(lines@), width),
        width == 0 ==> n == 0,
{
    let text = ratatui::text::Text::from(lines.iter().map(|l| ratatui::text::Line::from(
        l.spans.iter().map(|s| ratatui::text::Span::raw(s.content.clone())).collect::<Vec<_>>())).collect::<Vec<_>>());
    ratatui::widgets::Paragraph::new(text).wrap(ratatui::widgets::Wrap { trim: false }).line_count(width)
}

/// How many rows the preview takes: its lines, or its wrapped rows when
/// wrapping is on (kept as the 16-bit count the pane works in).
pub open spec fn total_rows(v: AppView) -> u16 {
    if v.wrap_preview {
        spec_wrapped_line_count(v.preview, v.viewport_width) as u16
    } else {
        v.preview.len() as u16
    }
}

/// The furthest the preview can scroll: its rows beyond one viewport.
pub open spec fn max_scroll(v: AppView) -> u16 {
    let t = total_rows(v);
    if t > v.viewport_height { (t - v.viewport_height) as u16 } else { 0 }
}

/// `2` to the power `e`.
pub open spec fn two_to(e: nat) -> nat
    decreases e,
{
    if e == 0 { 1 } else { 2 * two_to((e - 1) as nat) }
}

proof fn lemma_two_to_pos(e: nat)
    ensures
        two_to(e) >= 1,
    decreases e,
{
    if e > 0 {
        lemma_two_to_pos((e - 1) as nat);
    }
}

/// The least `e` from `e` up (and below 80) at which `s * 2^e` reaches
/// `2^52 * m`: the scale at which the quotient `s / m` has the 53
/// significant bits of a double.
pub open spec fn ratio_exp(s: nat, m: nat, e: nat) -> nat
    decreases 80 - e,
{
    if e >= 80 || s * two_to(e) >= 0x10_0000_0000_0000 * m { e } else { ratio_exp(s, m, e + 1) }
}

/// `s * 2^e / m` rounded to the nearest integer, ties to even.
pub open spec fn ratio_mantissa(s: nat, m: nat, e: nat) -> nat {
    let t = (s * two_to(e)) / m;
    let r = (s * two_to(e)) % m;
    if 2 * r > m || (2 * r == m && t % 2 == 1) { t + 1 } else { t }
}

/// The scroll position that keeps the fraction `scroll / max` of the
/// previous preview on a preview whose largest scroll is `new_max`, as
/// double-precision arithmetic computes it: the fraction (at most 1) is
/// rounded to a double, as `q / 2^e`; its product with `new_max` is
/// rounded to a double again; that is rounded to the nearest row, halves
/// away from zero, and kept within `new_max`.
pub open spec fn restored_scroll(scroll: u16, max: u16, new_max: u16) -> u16 {
    if max == 0 {
        0
    } else {
        let s: nat = if scroll < max { scroll as nat } else { max as nat };
        if s == 0 {
            0
        } else {
            let e = ratio_exp(s, max as nat, 0);
            let q = ratio_mantissa(s, max as nat, e);
            let w = round_to_f64(q * (new_max as nat), 1);
            let r = (2 * w + two_to(e)) / (2 * two_to(e));
            let c: int = if r > 65535 { 65535 } else { r as int };
            if c < new_max { c as u16 } else { new_max }
        }
    }
}

/// Everything but the preview's own state is left as it was.
pub open spec fn same_outside_preview(o: AppView, n: AppView) -> bool {
    &&& n.root_entry == o.root_entry
    &&& n.source_toggles == o.source_toggles
    &&& n.wrap_preview == o.wrap_preview
    &&& n.show_line_numbers == o.show_line_numbers
    &&& n.zoom_preview == o.zoom_preview
    &&& n.columns == o.columns
    &&& n.preview_focused == o.preview_focused
    &&& n.viewport_height == o.viewport_height
    &&& n.viewport_width == o.viewport_width
    &&& n.memory == o.memory
    &&& n.message == o.message
    &&& n.message_expires_at == o.message_expires_at
    &&& n.should_quit == o.should_quit
    &&& n.pending_g == o.pending_g
    &&& n.toggles_menu_open == o.toggles_menu_open
}

/// Re-fetching the preview for what is now selected, from `o` to `n`:
/// with nothing selected the preview is cleared at once; otherwise a
/// fetch is asked for under a fresh epoch and the loading placeholder
/// shows from `now` (or a debounce later). The scroll goes back to the
/// top unless it is to be preserved.
pub open spec fn dispatched(o: AppView, n: AppView, debounce: bool, preserve: bool, now: u64, a: Option<AppAction>) -> bool {
    &&& same_outside_preview(o, n)
    &&& n.preview_scroll == (if preserve { o.preview_scroll } else { 0 })
    &&& match selected_entry(o) {
        None => {
            &&& a is None
            &&& n.epoch == o.epoch
            &&& n.preview == Seq::<Seq<SpanView>>::empty()
            &&& !n.override_numbers_off
            &&& !n.preview_loading
            &&& n.loading_shows_at is None
            &&& n.scroll_restore is None
        },
        Some(e) => {
            &&& n.epoch == next_epoch(o.epoch)
            &&& a matches Some(AppAction::FetchPreview { epoch, id, cancelled }) && epoch == n.epoch && ids(id@) == ids(e.id@)
            &&& n.preview == o.preview
            &&& n.override_numbers_off == o.override_numbers_off
            &&& n.preview_loading
            &&& n.loading_shows_at == Some(if debounce {
                if now <= u64::MAX - PREVIEW_LOADING_DEBOUNCE_MS { (now + PREVIEW_LOADING_DEBOUNCE_MS) as u64 } else { u64::MAX }
            } else {
                now
            })
            &&& n.scroll_restore == (if preserve { o.scroll_restore } else { None })
        },
    }
}

/// Copies an id segment by segment.
pub fn clone_ids(id: &[String]) -> (r: Vec<String>)
    ensures
        ids(r@) == ids(id@),
{
    let mut r: Vec<String> = Vec::new();
    let mut i: usize = 0;
    while i < id.len()
        invariant
            i <= id@.len(),
            ids(r@) == ids(id@).subrange(0, i as int),
        decreases id.len() - i,
    {
        let ghost before = r@;
        r.push(id[i].clone());
        proof {
            assert(ids(r@) =~= ids(before).push(id@[i as int]@));
            assert(ids(id@).subrange(0, i + 1) =~= ids(id@).subrange(0, i as int).push(ids(id@)[i as int]));
        }
        i = i + 1;
    }
    proof {
        assert(ids(id@).subrange(0, id@.len() as int) =~= ids(id@));
    }
    r
}

/// Whether two ids are the same, segment by segment.
pub fn ids_eq(a: &[String], b: &[String]) -> (r: bool)
    ensures
        r == (ids(a@) == ids(b@)),
{
    if a.len() != b.len() {
        proof {
            assert(ids(a@).len() != ids(b@).len());
        }
        return false;
    }
    let mut i: usize = 0;
    while i < a.len()
        invariant
            i <= a@.len(),
            a@.len() == b@.len(),
            forall|k: int| 0 <= k < i ==> a@[k]@ == b@[k]@,
        decreases a.len() - i,
    {
        if !str_is(a[i].as_str(), b[i].as_str()) {
            proof {
                assert(ids(a@)[i as int] != ids(b@)[i as int]);
            }
            return false;
        }
        i = i + 1;
    }
    proof {
        assert(ids(a@) =~= ids(b@));
    }
    true
}

/// The browser's state. See the module documentation.
pub struct App {
    epoch: u64,
    root_entry: Entry,
    source_toggles: Vec<(Toggle, bool)>,
    wrap_preview: bool,
    show_line_numbers: bool,
    zoom_preview: bool,
    columns: Vec<Column>,
    preview: SanitizedText,
    preview_override_disable_line_numbers: bool,
    preview_loading: bool,
    loading_shows_at: Option<u64>,
    preview_cancel: Option<Cancelled>,
    preview_focused: bool,
    preview_scroll: u16,
    scroll_restore: Option<(u16, u16)>,
    preview_viewport_height: u16,
    preview_viewport_width: u16,
    /// The selected name last seen under each column id: a map held as a
    /// `Vec` of pairs with distinct ids (`keys_distinct`): vstd states what a
    /// `HashMap` holds only for key types known to obey its key model, and
    /// nothing establishes that for `String` keys without an assumption.
    cursor_memory: Vec<(Vec<String>, String)>,
    message: Option<String>,
    message_expires_at: Option<u64>,
    should_quit: bool,
    pending_g: bool,
    toggles_menu_open: bool,
}

pub open spec fn memory_view(m: Seq<(Vec<String>, String)>) -> Seq<(Seq<Seq<char>>, Seq<char>)> {
    m.map_values(|p: (Vec<String>, String)| (ids(p.0@), p.1@))
}

/// The browser's state is well formed: at least one column, every
/// selection within its column, no column remembered twice.
pub open spec fn view_ok(v: AppView) -> bool {
    &&& v.columns.len() >= 1
    &&& forall|i: int| 0 <= i < v.columns.len() ==> #[trigger] col_ok(v.columns[i])
    &&& keys_distinct(v.memory)
}

impl App {
    /// The state is well formed (see `view_ok`); every operation keeps it so.
    pub open spec fn wf(&self) -> bool {
        view_ok(self.view())
    }

    pub closed spec fn view(&self) -> AppView {
        AppView {
            epoch: self.epoch,
            root_entry: self.root_entry,
            source_toggles: self.source_toggles@,
            wrap_preview: self.wrap_preview,
            show_line_numbers: self.show_line_numbers,
            zoom_preview: self.zoom_preview,
            columns: self.columns@,
            preview: self.preview.view(),
            override_numbers_off: self.preview_override_disable_line_numbers,
            preview_loading: self.preview_loading,
            loading_shows_at: self.loading_shows_at,
            preview_focused: self.preview_focused,
            preview_scroll: self.preview_scroll,
            scroll_restore: self.scroll_restore,
            viewport_height: self.preview_viewport_height,
            viewport_width: self.preview_viewport_width,
            memory: memory_view(self.cursor_memory@),
            message: match self.message { Some(m) => Some(m@), None => None },
            message_expires_at: self.message_expires_at,
            should_quit: self.should_quit,
            pending_g: self.pending_g,
            toggles_menu_open: self.toggles_menu_open,
        }
    }

    /// The furthest the preview can scroll.
    fn preview_max_scroll(&self) -> (m: u16)
        ensures
            m == max_scroll(self.view()),
    {
        let total: u16 = if self.wrap_preview {
            wrapped_line_count(self.preview.lines.as_slice(), self.preview_viewport_width) as u16
        } else {
            self.preview.line_count() as u16
        };
        if total > self.preview_viewport_height { total - self.preview_viewport_height } else { 0 }
    }

    /// Remembers `name` as the entry last selected in column `id`.
    fn remember(&mut self, id: &[String], name: &str)
        requires
            old(self).wf(),
        ensures
            final(self).wf(),
            final(self).view().memory == memory_put(old(self).view().memory, ids(id@), name@),
            final(self).view() == (AppView { memory: final(self).view().memory, ..old(self).view() }),
    {
        let mut i: usize = 0;
        while i < self.cursor_memory.len()
            invariant
                i <= self.cursor_memory@.len(),
                view_ok(self.view()),
                *self == *old(self),
                forall|k: int| 0 <= k < i ==> #[trigger] memory_view(self.cursor_memory@)[k].0 != ids(id@),
            decreases self.cursor_memory.len() - i,
        {
            if ids_eq(self.cursor_memory[i].0.as_slice(), id) {
                let mut m = Vec::new();
                std::mem::swap(&mut m, &mut self.cursor_memory);
                let ghost before = memory_view(m@);
                m.set(i, (clone_ids(id), String::from_str(name)));
                proof {
                    assert(memory_view(m@) =~= before.update(i as int, (ids(id@), name@)));
                    lemma_lookup_at(before, i as int, ids(id@));
                    assert(memory_put(before, ids(id@), name@) == before.update(i as int, (ids(id@), name@)));
                    assert(keys_distinct(memory_view(m@))) by {
                        assert forall|a: int, b: int| 0 <= a < b < memory_view(m@).len()
                            implies #[trigger] memory_view(m@)[a].0 != #[trigger] memory_view(m@)[b].0 by {
                            if a != i && b != i {
                                assert(before[a].0 != before[b].0);
                            } else if a == i {
                                assert(before[a].0 != before[b].0);
                            } else {
                                assert(before[a].0 != before[b].0);
                            }
                        }
                    }
                }
                self.cursor_memory = m;
                return;
            }
            i = i + 1;
        }
        let mut m = Vec::new();
        std::mem::swap(&mut m, &mut self.cursor_memory);
        let ghost before = memory_view(m@);
        m.push((clone_ids(id), String::from_str(name)));
        proof {
            assert(memory_view(m@) =~= before.push((ids(id@), name@)));
            assert(!exists|k: int| 0 <= k < before.len() && #[trigger] before[k].0 == ids(id@));
            assert(keys_distinct(memory_view(m@))) by {
                assert forall|a: int, b: int| 0 <= a < b < memory_view(m@).len()
                    implies #[trigger] memory_view(m@)[a].0 != #[trigger] memory_view(m@)[b].0 by {
                    if b < before.len() {
                        assert(before[a].0 != before[b].0);
                    } else {
                        assert(memory_view(m@)[a].0 == before[a].0);
                    }
                }
            }
        }
        self.cursor_memory = m;
    }
}

/// The index of the remembered entry for column `id` among `entries`,
/// or 0 when nothing is remembered or it is gone.
fn resolve_selection(memory: &Vec<(Vec<String>, String)>, id: &[String], entries: &[Entry]) -> (r: usize)
    requires
        keys_distinct(memory_view(memory@)),
    ensures
        r == resolved_index(memory_view(memory@), ids(id@), entries@),
        entries@.len() > 0 ==> r < entries@.len(),
{
    let mut i: usize = 0;
    while i < memory.len()
        invariant
            i <= memory@.len(),
            keys_distinct(memory_view(memory@)),
            forall|k: int| 0 <= k < i ==> #[trigger] memory_view(memory@)[k].0 != ids(id@),
        decreases memory.len() - i,
    {
        if ids_eq(memory[i].0.as_slice(), id) {
            proof {
                lemma_lookup_at(memory_view(memory@), i as int, ids(id@));
            }
            let name = memory[i].1.as_str();
            let mut j: usize = 0;
            while j < entries.len()
                invariant
                    j <= entries@.len(),
                    memory_lookup(memory_view(memory@), ids(id@)) == Some(name@),
                    forall|k: int| 0 <= k < j ==> #[trigger] entries@[k].name@ != name@,
                decreases entries.len() - j,
            {
                if str_is(entries[j].name.as_str(), name) {
                    proof {
                        let nm = name@;
                        let c = choose|x: int| 0 <= x < entries@.len() && #[trigger] entries@[x].name@ == nm
                            && forall|l: int| 0 <= l < x ==> #[trigger] entries@[l].name@ != nm;
                        assert(0 <= j < entries@.len() && entries@[j as int].name@ == nm
                            && forall|l: int| 0 <= l < j ==> #[trigger] entries@[l].name@ != nm);
                        assert(c == j) by {
                            if c < j {
                                assert(entries@[c].name@ != nm);
                            } else if c > j {
                                assert(entries@[j as int].name@ != nm);
                            }
                        }
                    }
                    return j;
                }
                j = j + 1;
            }
            return 0;
        }
        i = i + 1;
    }
    0
}


/// The entry index a reloaded column `k` starts on: that of the entry whose
/// name was last selected there, or 0.
pub open spec fn resolved_index(m: Seq<(Seq<Seq<char>>, Seq<char>)>, k: Seq<Seq<char>>, entries: Seq<Entry>) -> usize {
    match memory_lookup(m, k) {
        Some(name) => if exists|j: int| 0 <= j < entries.len() && #[trigger] entries[j].name@ == name {
            (choose|j: int| 0 <= j < entries.len() && #[trigger] entries[j].name@ == name
                && forall|l: int| 0 <= l < j ==> #[trigger] entries[l].name@ != name) as usize
        } else {
            0
        },
        None => 0,
    }
}

/// The memory with `name` remembered for column `k`, replacing what was
/// remembered for it.
pub open spec fn memory_put(m: Seq<(Seq<Seq<char>>, Seq<char>)>, k: Seq<Seq<char>>, name: Seq<char>) -> Seq<(Seq<Seq<char>>, Seq<char>)> {
    if exists|i: int| 0 <= i < m.len() && #[trigger] m[i].0 == k {
        m.update(choose|i: int| 0 <= i < m.len() && #[trigger] m[i].0 == k, (k, name))
    } else {
        m.push((k, name))
    }
}

/// When a toast shown at `now` expires.
pub open spec fn toast_expiry(now: u64) -> u64 {
    if now <= u64::MAX - TOAST_DURATION_MS { (now + TOAST_DURATION_MS) as u64 } else { u64::MAX }
}

/// The actions as a sequence: none, or the one.
pub open spec fn opt_seq(a: Option<AppAction>) -> Seq<AppAction> {
    match a {
        Some(x) => seq![x],
        None => Seq::empty(),
    }
}

/// `o` with the toast set to `msg` from `now` on (or cleared).
pub open spec fn with_message(o: AppView, msg: Option<Seq<char>>, now: u64) -> AppView {
    AppView {
        message: msg,
        message_expires_at: match msg {
            Some(_) => Some(toast_expiry(now)),
            None => None,
        },
        ..o
    }
}

/// `o` with the focused column's cursor on `idx` and its name remembered.
pub open spec fn with_selection(o: AppView, idx: usize) -> AppView {
    let c = o.columns.last();
    AppView {
        columns: o.columns.update(o.columns.len() - 1, Column { selected: Some(idx), ..c }),
        memory: memory_put(o.memory, ids(c.id@), c.entries@[idx as int].name@),
        ..o
    }
}

/// The preview's scroll moved by `delta`, kept within the preview.
pub open spec fn scrolled(scroll: u16, delta: i32, max: u16) -> u16 {
    let t = scroll + delta;
    if t < 0 { 0 } else if t > max { max } else { t as u16 }
}

/// The digits of `n` in decimal.
pub open spec fn decimal_len(n: nat) -> nat
    decreases n,
{
    if n < 10 { 1 } else { 1 + decimal_len(n / 10) }
}

impl App {
    /// Shows `msg` as a toast from `now` on, or clears the toast.
    fn set_message(&mut self, msg: Option<String>, now: u64)
        ensures
            final(self).view() == with_message(old(self).view(), match msg { Some(m) => Some(m@), None => None }, now),
    {
        self.message_expires_at = match msg {
            Some(_) => Some(if now <= u64::MAX - TOAST_DURATION_MS { now + TOAST_DURATION_MS } else { u64::MAX }),
            None => None,
        };
        self.message = msg;
    }

    /// Where the focused column's cursor is, if it is on an entry.
    fn selected_index(&self) -> (r: Option<usize>)
        requires
            self.wf(),
        ensures
            r matches Some(i) ==> i < focused(self.view()).entries@.len()
                && selected_entry(self.view()) == Some(focused(self.view()).entries@[i as int]),
            r is None <==> selected_entry(self.view()) is None,
    {
        let last = self.columns.len() - 1;
        match self.columns[last].selected {
            Some(i) => if i < self.columns[last].entries.len() { Some(i) } else { None },
            None => None,
        }
    }

    /// Starts fetching the preview for what is now selected (or clears the
    /// preview when nothing is), superseding any fetch in flight.
    #[verifier::spinoff_prover]
    #[verifier::rlimit(40)]
    fn dispatch_preview(&mut self, debounce: bool, preserve: bool, now: u64) -> (a: Option<AppAction>)
        requires
            old(self).wf(),
        ensures
            final(self).wf(),
            dispatched(old(self).view(), final(self).view(), debounce, preserve, now, a),
    {
        let sel = self.selected_index();
        if !preserve {
            self.preview_scroll = 0;
            self.scroll_restore = None;
        }
        match self.preview_cancel.take() {
            Some(c) => c.cancel(),
            None => {},
        }
        match sel {
            None => {
                self.preview = SanitizedText::new();
                proof {
                    assert(self.preview.view() =~= Seq::<Seq<SpanView>>::empty());
                }
                self.preview_override_disable_line_numbers = false;
                self.preview_loading = false;
                self.loading_shows_at = None;
                self.scroll_restore = None;
                None
            },
            Some(i) => {
                let last = self.columns.len() - 1;
                let id = clone_ids(self.columns[last].entries[i].id.as_slice());
                let cancelled = Cancelled::new();
                self.preview_cancel = Some(cancelled.clone());
                let e: u64 = if self.epoch == u64::MAX { 0 } else { self.epoch + 1 };
                self.epoch = e;
                self.preview_loading = true;
                self.loading_shows_at = Some(if debounce {
                    if now <= u64::MAX - PREVIEW_LOADING_DEBOUNCE_MS { now + PREVIEW_LOADING_DEBOUNCE_MS } else { u64::MAX }
                } else {
                    now
                });
                Some(AppAction::FetchPreview { epoch: e, id, cancelled })
            },
        }
    }

    /// Moves the focused column's cursor to `idx` and remembers the name
    /// there, without fetching a preview.
    fn set_focused_selection(&mut self, idx: usize)
        requires
            old(self).wf(),
            idx < focused(old(self).view()).entries@.len(),
        ensures
            final(self).wf(),
            final(self).view() == with_selection(old(self).view(), idx),
    {
        let ghost o = self.view();
        let mut col = match self.columns.pop() {
            Some(c) => c,
            None => {
                proof {
                    assert(false);
                }
                return;
            },
        };
        col.selected = Some(idx);
        let id = clone_ids(col.id.as_slice());
        let name = col.entries[idx].name.clone();
        self.columns.push(col);
        proof {
            assert(self.columns@ =~= o.columns.update(o.columns.len() - 1, Column { selected: Some(idx), ..o.columns.last() }));
            assert forall|k: int| 0 <= k < self.columns@.len() implies #[trigger] col_ok(self.columns@[k]) by {
                if k < self.columns@.len() - 1 {
                    assert(col_ok(o.columns[k]));
                }
            }
        }
        self.remember(id.as_slice(), name.as_str());
    }

    /// The entry under the cursor in the focused column, if any.
    pub fn selected_entry(&self) -> (r: Option<&Entry>)
        requires
            self.wf(),
        ensures
            match r {
                Some(e) => selected_entry(self.view()) == Some(*e),
                None => selected_entry(self.view()) is None,
            },
    {
        match self.selected_index() {
            Some(i) => {
                let last = self.columns.len() - 1;
                Some(&self.columns[last].entries[i])
            },
            None => None,
        }
    }

    /// How long the toast has left on screen, if one is showing.
    pub fn message_ttl(&self, now: u64) -> (r: Option<u64>)
        ensures
            r == (match self.view().message_expires_at {
                Some(t) => Some(if t > now { (t - now) as u64 } else { 0 }),
                None => None,
            }),
    {
        match self.message_expires_at {
            Some(t) => Some(if t > now { t - now } else { 0 }),
            None => None,
        }
    }

    /// Clears the toast once its time is up.
    pub fn tick(&mut self, now: u64)
        ensures
            final(self).view() == (if old(self).view().message_expires_at matches Some(t) && now >= t {
                AppView { message: None, message_expires_at: None, ..old(self).view() }
            } else {
                old(self).view()
            }),
    {
        if let Some(t) = self.message_expires_at {
            if now >= t {
                self.message = None;
                self.message_expires_at = None;
            }
        }
    }

    /// Whether the loading placeholder should replace the previous preview:
    /// only once a fetch has been in flight for the debounce window.
    pub fn preview_shows_loading(&self, now: u64) -> (r: bool)
        ensures
            r == (self.view().loading_shows_at matches Some(t) && now >= t),
    {
        match self.loading_shows_at {
            Some(t) => now >= t,
            None => false,
        }
    }

    /// How long until the loading placeholder shows, while a fetch is in
    /// flight.
    pub fn preview_loading_ttl(&self, now: u64) -> (r: Option<u64>)
        ensures
            r == (match self.view().loading_shows_at {
                Some(t) => Some(if t > now { (t - now) as u64 } else { 0 }),
                None => None,
            }),
    {
        match self.loading_shows_at {
            Some(t) => Some(if t > now { t - now } else { 0 }),
            None => None,
        }
    }

    /// Moves keyboard focus onto the preview pane, when a file is selected
    /// (a directory is opened as a column instead).
    pub fn focus_preview(&mut self)
        requires
            old(self).wf(),
        ensures
            final(self).wf(),
            final(self).view() == (if selected_entry(old(self).view()) matches Some(e) && !e.is_dir {
                AppView { preview_focused: true, preview_scroll: 0, ..old(self).view() }
            } else {
                old(self).view()
            }),
    {
        let go = match self.selected_entry() {
            Some(e) => !e.is_dir,
            None => false,
        };
        if go {
            self.preview_focused = true;
            self.preview_scroll = 0;
        }
    }

    pub fn unfocus_preview(&mut self)
        ensures
            final(self).view() == (AppView { preview_focused: false, ..old(self).view() }),
    {
        self.preview_focused = false;
    }

    /// Scrolls the preview by `delta` rows, staying within it.
    pub fn preview_scroll_by(&mut self, delta: i32)
        ensures
            final(self).view() == (AppView {
                preview_scroll: scrolled(old(self).view().preview_scroll, delta, max_scroll(old(self).view())),
                ..old(self).view()
            }),
    {
        let max: u16 = self.preview_max_scroll();
        let t: i64 = self.preview_scroll as i64 + delta as i64;
        self.preview_scroll = if t < 0 { 0 } else if t > max as i64 { max } else { t as u16 };
    }

    pub fn preview_scroll_top(&mut self)
        ensures
            final(self).view() == (AppView { preview_scroll: 0, ..old(self).view() }),
    {
        self.preview_scroll = 0;
    }

    pub fn preview_scroll_bottom(&mut self)
        ensures
            final(self).view() == (AppView { preview_scroll: max_scroll(old(self).view()), ..old(self).view() }),
    {
        self.preview_scroll = self.preview_max_scroll();
    }

    /// Moves the focused column's cursor by `delta`, stopping at either
    /// end; a move that changes nothing fetches nothing.
    pub fn move_selection(&mut self, delta: i32, now: u64) -> (acts: Vec<AppAction>)
        requires
            old(self).wf(),
        ensures
            final(self).wf(),
            moved(old(self).view(), final(self).view(), delta, now, acts@),
    {
        let last = self.columns.len() - 1;
        let len = self.columns[last].entries.len();
        if len == 0 {
            return Vec::new();
        }
        let cur: usize = match self.columns[last].selected { Some(i) => i, None => 0 };
        let t: i128 = cur as i128 + delta as i128;
        let next: i128 = if t < 0 { 0 } else if t > len as i128 - 1 { len as i128 - 1 } else { t };
        if next == cur as i128 {
            return Vec::new();
        }
        self.set_focused_selection(next as usize);
        let a = self.dispatch_preview(true, false, now);
        opt_vec(a)
    }

    /// Puts the cursor on the focused column's first entry.
    pub fn select_first(&mut self, now: u64) -> (acts: Vec<AppAction>)
        requires
            old(self).wf(),
        ensures
            final(self).wf(),
            selected_first(old(self).view(), final(self).view(), now, acts@),
    {
        let last = self.columns.len() - 1;
        if self.columns[last].entries.len() == 0 {
            return Vec::new();
        }
        self.set_focused_selection(0);
        let a = self.dispatch_preview(true, false, now);
        opt_vec(a)
    }

    /// Puts the cursor on the focused column's last entry.
    pub fn select_last(&mut self, now: u64) -> (acts: Vec<AppAction>)
        requires
            old(self).wf(),
        ensures
            final(self).wf(),
            selected_last(old(self).view(), final(self).view(), now, acts@),
    {
        let last = self.columns.len() - 1;
        let len = self.columns[last].entries.len();
        if len == 0 {
            return Vec::new();
        }
        self.set_focused_selection(len - 1);
        let a = self.dispatch_preview(true, false, now);
        opt_vec(a)
    }

    pub fn toggle_toggles_menu(&mut self)
        ensures
            final(self).view() == (AppView { toggles_menu_open: !old(self).view().toggles_menu_open, ..old(self).view() }),
    {
        self.toggles_menu_open = !self.toggles_menu_open;
    }

    /// Flips preview wrapping, keeping the scroll within the preview.
    pub fn toggle_wrap(&mut self)
        ensures
            ({
                let m = AppView { wrap_preview: !old(self).view().wrap_preview, ..old(self).view() };
                final(self).view() == (AppView {
                    preview_scroll: if m.preview_scroll < max_scroll(m) { m.preview_scroll } else { max_scroll(m) },
                    ..m
                })
            }),
    {
        self.wrap_preview = !self.wrap_preview;
        let max = self.preview_max_scroll();
        if self.preview_scroll >= max {
            self.preview_scroll = max;
        }
    }

    /// Flips the line-number gutter, keeping the scroll within the preview.
    pub fn toggle_line_numbers(&mut self)
        ensures
            ({
                let m = AppView { show_line_numbers: !old(self).view().show_line_numbers, ..old(self).view() };
                final(self).view() == (AppView {
                    preview_scroll: if m.preview_scroll < max_scroll(m) { m.preview_scroll } else { max_scroll(m) },
                    ..m
                })
            }),
    {
        self.show_line_numbers = !self.show_line_numbers;
        let max = self.preview_max_scroll();
        if self.preview_scroll >= max {
            self.preview_scroll = max;
        }
    }

    /// Flips the zoomed preview, keeping the scroll within the preview.
    pub fn toggle_zoom(&mut self)
        ensures
            ({
                let m = AppView { zoom_preview: !old(self).view().zoom_preview, ..old(self).view() };
                final(self).view() == (AppView {
                    preview_scroll: if m.preview_scroll < max_scroll(m) { m.preview_scroll } else { max_scroll(m) },
                    ..m
                })
            }),
    {
        self.zoom_preview = !self.zoom_preview;
        let max = self.preview_max_scroll();
        if self.preview_scroll >= max {
            self.preview_scroll = max;
        }
    }

    /// Digits used for line numbers in the preview gutter: enough for the
    /// highest line number, never fewer than 3.
    pub fn preview_line_number_width(&self) -> (w: usize)
        ensures
            3 <= w <= 20,
            ({
                let n = if self.view().preview.len() > 1 { self.view().preview.len() } else { 1 };
                w == (if decimal_len(n) > 3 { decimal_len(n) } else { 3 })
            }),
    {
        let lc = self.preview.line_count();
        let mut n: usize = if lc > 1 { lc } else { 1 };
        let ghost n0 = n as nat;
        let mut d: usize = 1;
        proof {
            lemma_decimal_len_le(n0);
            lemma_decimal_len_u64(n0);
        }
        while n >= 10
            invariant
                1 <= d,
                n >= 1,
                decimal_len(n0) == d - 1 + decimal_len(n as nat),
                decimal_len(n0) <= n0,
                n0 <= usize::MAX,
            decreases n,
        {
            proof {
                assert(decimal_len(n as nat) == 1 + decimal_len((n / 10) as nat));
                assert(decimal_len((n / 10) as nat) >= 1);
            }
            n = n / 10;
            d = d + 1;
        }
        if d > 3 { d } else { 3 }
    }
}

pub open spec fn pow10(k: nat) -> nat
    decreases k,
{
    if k == 0 { 1 } else { 10 * pow10((k - 1) as nat) }
}

pub proof fn lemma_decimal_len_bound(n: nat, k: nat)
    requires
        k >= 1,
        n < pow10(k),
    ensures
        decimal_len(n) <= k,
    decreases k,
{
    if n >= 10 {
        let p = pow10((k - 1) as nat);
        assert(n / 10 < p) by (nonlinear_arith)
            requires
                n < 10 * p,
        ;
        if k == 1 {
            assert(false);
        } else {
            lemma_decimal_len_bound(n / 10, (k - 1) as nat);
        }
    }
}

/// A count held in a `u64` has at most 20 digits.
pub proof fn lemma_decimal_len_u64(n: nat)
    requires
        n <= u64::MAX,
    ensures
        decimal_len(n) <= 20,
{
    reveal_with_fuel(pow10, 21);
    assert(pow10(20) == 100000000000000000000nat);
    lemma_decimal_len_bound(n, 20);
}

pub proof fn lemma_decimal_len_le(n: nat)
    requires
        n >= 1,
    ensures
        decimal_len(n) <= n,
    decreases n,
{
    if n >= 10 {
        lemma_decimal_len_le(n / 10);
    }
}

/// The action, if any, as a vector.
pub fn opt_vec(a: Option<AppAction>) -> (v: Vec<AppAction>)
    ensures
        v@ == opt_seq(a),
        v@.len() <= 1,
        a is None <==> v@.len() == 0,
        a matches Some(x) ==> v@[0] == x,
{
    let mut v: Vec<AppAction> = Vec::new();
    match a {
        Some(x) => {
            v.push(x);
            proof {
                assert(v@ =~= seq![x]);
            }
        },
        None => {
            proof {
                assert(v@ =~= Seq::<AppAction>::empty());
            }
        },
    }
    v
}

/// The toast for a listing that failed.
pub open spec fn error_reading_message(id: Seq<Seq<char>>, err: Seq<char>) -> Seq<char> {
    "Error reading /"@ + join_slash(id) + ": "@ + err
}

/// The toast for a directory that turned out to be empty when opened.
pub open spec fn empty_dir_message(id: Seq<Seq<char>>) -> Seq<char> {
    "Directory is empty: /"@ + join_slash(id)
}

/// `c` is the column a listing `result` for `id` makes, its cursor placed
/// by the memory `m`.
pub open spec fn column_from(c: Column, id: Vec<String>, result: Result<Vec<Entry>, SourceError>, m: Seq<(Seq<Seq<char>>, Seq<char>)>) -> bool {
    &&& c.id == id
    &&& !c.loading
    &&& c.list_offset == 0
    &&& match result {
        Ok(es) => c.entries == es && c.selected == (if es@.len() == 0 { None } else { Some(resolved_index(m, ids(id@), es@)) }),
        Err(_) => c.entries@.len() == 0 && c.selected is None,
    }
}

/// The toast a listing `result` for `id` raises, if any.
pub open spec fn column_error(id: Seq<String>, result: Result<Vec<Entry>, SourceError>) -> Option<Seq<char>> {
    match result {
        Ok(_) => None,
        Err(e) => Some(error_reading_message(ids(id), e.message@)),
    }
}

/// `o` with the deepest column closed and focus back on the columns.
pub open spec fn popped(o: AppView) -> AppView {
    AppView { columns: o.columns.drop_last(), preview_focused: false, ..o }
}

/// `o` with the columns cut back to the first `k` and focus on them.
pub open spec fn truncated(o: AppView, k: int) -> AppView {
    AppView { columns: o.columns.subrange(0, k), preview_focused: false, ..o }
}

/// The label on the column `idx`'s box: the name of the entry that opened
/// it in the column before (its id's last segment when that entry is
/// gone), or the root entry's name for the first column.
pub open spec fn spec_column_label(v: AppView, idx: int) -> Seq<char> {
    if idx == 0 {
        v.root_entry.name@
    } else {
        let id = ids(v.columns[idx].id@);
        let es = v.columns[idx - 1].entries@;
        if exists|j: int| 0 <= j < es.len() && ids(#[trigger] es[j].id@) == id {
            es[choose|j: int| 0 <= j < es.len() && ids(#[trigger] es[j].id@) == id
                && forall|l: int| 0 <= l < j ==> ids(#[trigger] es[l].id@) != id].name@
        } else if id.len() > 0 {
            id.last()
        } else {
            Seq::empty()
        }
    }
}

/// The icon on the column `idx`'s box, found the way its label is (none
/// when the entry is gone).
pub open spec fn spec_column_icon(v: AppView, idx: int) -> (Option<char>, Option<crate::style::Color>) {
    if idx == 0 {
        (v.root_entry.nerd_icon, v.root_entry.nerd_icon_color)
    } else {
        let id = ids(v.columns[idx].id@);
        let es = v.columns[idx - 1].entries@;
        if exists|j: int| 0 <= j < es.len() && ids(#[trigger] es[j].id@) == id {
            let e = es[choose|j: int| 0 <= j < es.len() && ids(#[trigger] es[j].id@) == id
                && forall|l: int| 0 <= l < j ==> ids(#[trigger] es[l].id@) != id];
            (e.nerd_icon, e.nerd_icon_color)
        } else {
            (None, None)
        }
    }
}

/// The first index of `es` whose id is `id`.
fn find_entry_by_id(es: &[Entry], id: &[String]) -> (r: Option<usize>)
    ensures
        r is None <==> !exists|j: int| 0 <= j < es@.len() && ids(#[trigger] es@[j].id@) == ids(id@),
        r matches Some(j) ==> j == (choose|x: int| 0 <= x < es@.len() && ids(#[trigger] es@[x].id@) == ids(id@)
            && forall|l: int| 0 <= l < x ==> ids(#[trigger] es@[l].id@) != ids(id@)),
        r matches Some(j) ==> j < es@.len(),
{
    let mut j: usize = 0;
    while j < es.len()
        invariant
            j <= es@.len(),
            forall|l: int| 0 <= l < j ==> ids(#[trigger] es@[l].id@) != ids(id@),
        decreases es.len() - j,
    {
        if ids_eq(es[j].id.as_slice(), id) {
            proof {
                let k = ids(id@);
                let c = choose|x: int| 0 <= x < es@.len() && ids(#[trigger] es@[x].id@) == k
                    && forall|l: int| 0 <= l < x ==> ids(#[trigger] es@[l].id@) != k;
                assert(0 <= j < es@.len() && ids(es@[j as int].id@) == k && forall|l: int| 0 <= l < j ==> ids(#[trigger] es@[l].id@) != k);
                assert(c == j) by {
                    if c < j {
                        assert(ids(es@[c].id@) != k);
                    } else if c > j {
                        assert(ids(es@[j as int].id@) != k);
                    }
                }
            }
            return Some(j);
        }
        j = j + 1;
    }
    None
}

/// A key press, as the browser distinguishes them.
#[derive(Clone, Copy, Debug, PartialEq, Eq, Structural)]
pub enum KeyInput {
    /// A character key; `ctrl` when Control was held.
    Char { c: char, ctrl: bool },
    Esc,
    Up,
    Down,
    Left,
    Right,
    Enter,
    Backspace,
    PageUp,
    PageDown,
    Home,
    End,
    Other,
}

/// Rows moved by a page key.
pub const PAGE_SIZE: i32 = 10;

/// Rows moved by a half-page key.
pub const HALF_PAGE_SIZE: i32 = 5;

impl App {
    /// The label on the column `idx`'s box.
    pub fn column_label(&self, idx: usize) -> (s: String)
        requires
            self.wf(),
            idx < self.view().columns.len(),
        ensures
            s@ == spec_column_label(self.view(), idx as int),
    {
        if idx == 0 {
            return self.root_entry.name.clone();
        }
        let id = self.columns[idx].id.as_slice();
        match find_entry_by_id(self.columns[idx - 1].entries.as_slice(), id) {
            Some(j) => self.columns[idx - 1].entries[j].name.clone(),
            None => {
                if id.len() > 0 {
                    id[id.len() - 1].clone()
                } else {
                    proof {
                        assert(ids(id@).len() == 0);
                    }
                    String::new()
                }
            },
        }
    }

    /// The icon on the column `idx`'s box.
    pub fn column_icon(&self, idx: usize) -> (r: (Option<char>, Option<crate::style::Color>))
        requires
            self.wf(),
            idx < self.view().columns.len(),
        ensures
            r == spec_column_icon(self.view(), idx as int),
    {
        if idx == 0 {
            return (self.root_entry.nerd_icon, self.root_entry.nerd_icon_color);
        }
        match find_entry_by_id(self.columns[idx - 1].entries.as_slice(), self.columns[idx].id.as_slice()) {
            Some(j) => (self.columns[idx - 1].entries[j].nerd_icon, self.columns[idx - 1].entries[j].nerd_icon_color),
            None => (None, None),
        }
    }

    /// The label of the focused column: where the browser stands.
    pub fn cwd(&self) -> (s: String)
        requires
            self.wf(),
        ensures
            s@ == spec_column_label(self.view(), self.view().columns.len() - 1),
    {
        self.column_label(self.columns.len() - 1)
    }

    /// The icon on the preview pane's title: the selected entry's.
    pub fn preview_title_icon(&self) -> (r: (Option<char>, Option<crate::style::Color>))
        requires
            self.wf(),
        ensures
            r == (match selected_entry(self.view()) {
                Some(e) => (e.nerd_icon, e.nerd_icon_color),
                None => (None, None),
            }),
    {
        match self.selected_entry() {
            Some(e) => (e.nerd_icon, e.nerd_icon_color),
            None => (None, None),
        }
    }

    /// The width of the preview's line-number gutter, its trailing space
    /// included: 0 when line numbers are off, or when the preview shown is
    /// not numbered content.
    pub fn preview_gutter_width(&self) -> (w: u16)
        ensures
            ({
                let n = if self.view().preview.len() > 1 { self.view().preview.len() } else { 1 };
                let digits = if decimal_len(n) > 3 { decimal_len(n) } else { 3 };
                w == (if !self.view().show_line_numbers || self.view().override_numbers_off { 0 } else { (digits as u16 + 1) as u16 })
            }),
    {
        if !self.show_line_numbers || self.preview_override_disable_line_numbers {
            return 0;
        }
        let d = self.preview_line_number_width();
        d as u16 + 1
    }

    /// Closes the deepest column after its listing came back unusable,
    /// shows `msg`, and re-previews the entry the cursor is back on.
    fn fail_column_load(&mut self, msg: String, now: u64) -> (a: Option<AppAction>)
        requires
            old(self).wf(),
            old(self).view().columns.len() >= 2,
        ensures
            final(self).wf(),
            dispatched(with_message(popped(old(self).view()), Some(msg@), now), final(self).view(), false, false, now, a),
    {
        let ghost o = self.view();
        self.columns.pop();
        self.preview_focused = false;
        proof {
            assert(self.view().columns =~= o.columns.drop_last());
            assert forall|k: int| 0 <= k < self.view().columns.len() implies #[trigger] col_ok(self.view().columns[k]) by {
                assert(col_ok(o.columns[k]));
            }
        }
        self.set_message(Some(msg), now);
        self.dispatch_preview(false, false, now)
    }

    /// Opens the selected directory as a new column (listed in the
    /// background), or moves focus onto the preview for a file.
    pub fn enter(&mut self, now: u64) -> (acts: Vec<AppAction>)
        requires
            old(self).wf(),
        ensures
            final(self).wf(),
            entered(old(self).view(), final(self).view(), acts@),
    {
        let ghost o = self.view();
        let i = match self.selected_index() {
            Some(i) => i,
            None => {
                return Vec::new();
            },
        };
        let last = self.columns.len() - 1;
        if !self.columns[last].entries[i].is_dir {
            self.focus_preview();
            return Vec::new();
        }
        let id = clone_ids(self.columns[last].entries[i].id.as_slice());
        let id2 = clone_ids(id.as_slice());
        self.columns.push(Column { id, entries: Vec::new(), selected: None, loading: true, list_offset: 0 });
        self.preview_focused = false;
        proof {
            assert(self.view().columns.drop_last() =~= o.columns);
            assert forall|k: int| 0 <= k < self.view().columns.len() implies #[trigger] col_ok(self.view().columns[k]) by {
                if k < o.columns.len() {
                    assert(col_ok(o.columns[k]));
                }
            }
        }
        let cleared = self.dispatch_preview(false, false, now);
        proof {
            assert(cleared is None);
        }
        let e: u64 = if self.epoch == u64::MAX { 0 } else { self.epoch + 1 };
        self.epoch = e;
        let mut acts: Vec<AppAction> = Vec::new();
        acts.push(AppAction::FetchColumn { epoch: e, id: id2 });
        acts
    }

    /// Same as `enter`: a click on the preview pane opens what it shows.
    pub fn click_preview(&mut self, now: u64) -> (acts: Vec<AppAction>)
        requires
            old(self).wf(),
        ensures
            final(self).wf(),
            entered(old(self).view(), final(self).view(), acts@),
    {
        self.enter(now)
    }

    /// Closes the deepest column; the first column can never be closed.
    pub fn go_up(&mut self, now: u64) -> (acts: Vec<AppAction>)
        requires
            old(self).wf(),
        ensures
            final(self).wf(),
            went_up(old(self).view(), final(self).view(), now, acts@),
    {
        if self.columns.len() <= 1 {
            return Vec::new();
        }
        let ghost o = self.view();
        self.columns.pop();
        self.preview_focused = false;
        proof {
            assert(self.view().columns =~= o.columns.drop_last());
            assert forall|k: int| 0 <= k < self.view().columns.len() implies #[trigger] col_ok(self.view().columns[k]) by {
                assert(col_ok(o.columns[k]));
            }
        }
        self.set_message(None, now);
        let a = self.dispatch_preview(false, false, now);
        opt_vec(a)
    }

    /// Cuts the stack of columns back so that the column `col_idx` is the
    /// deepest, focused one.
    fn truncate_to(&mut self, col_idx: usize)
        requires
            old(self).wf(),
            col_idx < old(self).view().columns.len(),
        ensures
            final(self).wf(),
            final(self).view() == truncated(old(self).view(), col_idx + 1),
    {
        let ghost o = self.view();
        let n: usize = self.columns.len();
        let keep: usize = col_idx + 1;
        self.columns.truncate(keep);
        self.preview_focused = false;
        proof {
            assert(self.view().columns =~= o.columns.subrange(0, col_idx + 1));
            assert forall|k: int| 0 <= k < self.view().columns.len() implies #[trigger] col_ok(self.view().columns[k]) by {
                assert(col_ok(o.columns[k]));
            }
        }
    }

    /// A click on the row `row_idx` of the column `col_idx`: in the focused
    /// column, a click on the selected row opens it and any other moves
    /// the cursor there; in an earlier column, the stack is cut back to
    /// that column first.
    pub fn click_entry(&mut self, col_idx: usize, row_idx: usize, now: u64) -> (acts: Vec<AppAction>)
        requires
            old(self).wf(),
        ensures
            final(self).wf(),
            clicked_entry(old(self).view(), final(self).view(), col_idx, row_idx, now, acts@),
    {
        if col_idx >= self.columns.len() {
            return Vec::new();
        }
        if row_idx >= self.columns[col_idx].entries.len() {
            return Vec::new();
        }
        if col_idx == self.columns.len() - 1 {
            if self.columns[col_idx].selected == Some(row_idx) {
                return self.enter(now);
            }
            self.set_focused_selection(row_idx);
            let a = self.dispatch_preview(true, false, now);
            return opt_vec(a);
        }
        self.truncate_to(col_idx);
        self.set_focused_selection(row_idx);
        let a = self.dispatch_preview(false, false, now);
        opt_vec(a)
    }

    /// A click inside an earlier column that hit no row: focus moves there
    /// with its selection as it was.
    pub fn click_column(&mut self, col_idx: usize, now: u64) -> (acts: Vec<AppAction>)
        requires
            old(self).wf(),
        ensures
            final(self).wf(),
            clicked_column(old(self).view(), final(self).view(), col_idx, now, acts@),
    {
        if col_idx >= self.columns.len() {
            return Vec::new();
        }
        self.truncate_to(col_idx);
        let a = self.dispatch_preview(false, false, now);
        opt_vec(a)
    }
}

/// The first index of `ts` whose toggle is bound to `key`.
pub open spec fn toggle_with_key(ts: Seq<(Toggle, bool)>, key: char) -> Option<int> {
    if exists|j: int| 0 <= j < ts.len() && (#[trigger] ts[j]).0.key == key {
        Some(choose|j: int| 0 <= j < ts.len() && (#[trigger] ts[j]).0.key == key
            && forall|l: int| 0 <= l < j ==> (#[trigger] ts[l]).0.key != key)
    } else {
        None
    }
}

/// Each column's id, in order.
pub open spec fn column_ids(cs: Seq<Column>) -> Seq<Seq<Seq<char>>> {
    cs.map_values(|c: Column| ids(c.id@))
}

/// The toast a reload of every column raises: the last failure's.
pub open spec fn last_error(rs: Seq<(Vec<String>, Result<Vec<Entry>, SourceError>)>) -> Option<Seq<char>>
    decreases rs.len(),
{
    if rs.len() == 0 {
        None
    } else {
        match column_error(rs.last().0@, rs.last().1) {
            Some(m) => Some(m),
            None => last_error(rs.drop_last()),
        }
    }
}

/// The id of the selected entry, if any.
pub open spec fn selected_id(v: AppView) -> Option<Seq<Seq<char>>> {
    match selected_entry(v) {
        Some(e) => Some(ids(e.id@)),
        None => None,
    }
}

/// What `enter` does from `o`: see there.
pub open spec fn entered(o: AppView, n: AppView, acts: Seq<AppAction>) -> bool {
    match selected_entry(o) {
        None => n == o && acts.len() == 0,
        Some(e) => if !e.is_dir {
            n == (AppView { preview_focused: true, preview_scroll: 0, ..o }) && acts.len() == 0
        } else {
            let c = n.columns.last();
            &&& n.columns.len() == o.columns.len() + 1
            &&& n.columns.drop_last() == o.columns
            &&& ids(c.id@) == ids(e.id@) && c.entries@.len() == 0 && c.selected is None && c.loading && c.list_offset == 0
            &&& !n.preview_focused
            &&& n.preview == Seq::<Seq<SpanView>>::empty()
            &&& !n.preview_loading && n.loading_shows_at is None && n.preview_scroll == 0 && n.scroll_restore is None
            &&& !n.override_numbers_off
            &&& n.epoch == next_epoch(o.epoch)
            &&& acts.len() == 1
            &&& acts[0] matches AppAction::FetchColumn { epoch, id } && epoch == n.epoch && ids(id@) == ids(e.id@)
            &&& n.memory == o.memory && n.message == o.message && n.message_expires_at == o.message_expires_at
            &&& n.source_toggles == o.source_toggles && n.wrap_preview == o.wrap_preview
            &&& n.show_line_numbers == o.show_line_numbers && n.zoom_preview == o.zoom_preview
            &&& n.root_entry == o.root_entry && n.should_quit == o.should_quit && n.pending_g == o.pending_g
            &&& n.toggles_menu_open == o.toggles_menu_open
            &&& n.viewport_height == o.viewport_height && n.viewport_width == o.viewport_width
        },
    }
}

/// What `click_entry(col_idx, row_idx)` does from `o`: see there.
pub open spec fn clicked_entry(o: AppView, n: AppView, col_idx: usize, row_idx: usize, now: u64, acts: Seq<AppAction>) -> bool {
    if col_idx >= o.columns.len() || row_idx >= o.columns[col_idx as int].entries@.len() {
        n == o && acts.len() == 0
    } else if col_idx == o.columns.len() - 1 {
        if o.columns[col_idx as int].selected == Some(row_idx) {
            entered(o, n, acts)
        } else {
            acts.len() <= 1 && dispatched(with_selection(o, row_idx), n, true, false, now, one_act(acts))
        }
    } else {
        acts.len() <= 1 && dispatched(with_selection(truncated(o, col_idx + 1), row_idx), n, false, false, now, one_act(acts))
    }
}

/// What `click_column(col_idx)` does from `o`: see there.
pub open spec fn clicked_column(o: AppView, n: AppView, col_idx: usize, now: u64, acts: Seq<AppAction>) -> bool {
    if col_idx >= o.columns.len() {
        n == o && acts.len() == 0
    } else {
        acts.len() <= 1 && dispatched(truncated(o, col_idx + 1), n, false, false, now, one_act(acts))
    }
}

/// The actions, read as the one optional preview fetch they may hold.
pub open spec fn one_act(acts: Seq<AppAction>) -> Option<AppAction> {
    if acts.len() == 0 { None } else { Some(acts[0]) }
}

/// What `move_selection(delta)` does from `o`: see there.
pub open spec fn moved(o: AppView, n: AppView, delta: i32, now: u64, acts: Seq<AppAction>) -> bool {
    let c = focused(o);
    let len = c.entries@.len();
    let cur: int = match c.selected { Some(i) => i as int, None => 0 };
    let t = cur + delta;
    let next: int = if t < 0 { 0 } else if t > len - 1 { len - 1 } else { t };
    if len == 0 || next == cur {
        n == o && acts.len() == 0
    } else {
        acts.len() <= 1 && dispatched(with_selection(o, next as usize), n, true, false, now, one_act(acts))
    }
}

/// What `select_first` does from `o`.
pub open spec fn selected_first(o: AppView, n: AppView, now: u64, acts: Seq<AppAction>) -> bool {
    if focused(o).entries@.len() == 0 {
        n == o && acts.len() == 0
    } else {
        acts.len() <= 1 && dispatched(with_selection(o, 0), n, true, false, now, one_act(acts))
    }
}

/// What `select_last` does from `o`.
pub open spec fn selected_last(o: AppView, n: AppView, now: u64, acts: Seq<AppAction>) -> bool {
    let len = focused(o).entries@.len();
    if len == 0 {
        n == o && acts.len() == 0
    } else {
        acts.len() <= 1 && dispatched(with_selection(o, (len - 1) as usize), n, true, false, now, one_act(acts))
    }
}

/// What `go_up` does from `o`.
pub open spec fn went_up(o: AppView, n: AppView, now: u64, acts: Seq<AppAction>) -> bool {
    if o.columns.len() <= 1 {
        n == o && acts.len() == 0
    } else {
        acts.len() <= 1 && dispatched(with_message(popped(o), None, now), n, false, false, now, one_act(acts))
    }
}

/// `o` with the preview scrolled by `delta`.
pub open spec fn scrolled_by(o: AppView, delta: i32) -> AppView {
    AppView { preview_scroll: scrolled(o.preview_scroll, delta, max_scroll(o)), ..o }
}

/// `m` with the scroll kept within the preview.
pub open spec fn clamp_scroll(m: AppView) -> AppView {
    AppView { preview_scroll: if m.preview_scroll < max_scroll(m) { m.preview_scroll } else { max_scroll(m) }, ..m }
}

/// What `toggle_source_toggle(key)` does from `o`.
pub open spec fn source_toggled(o: AppView, n: AppView, key: char, acts: Seq<AppAction>) -> bool {
    match toggle_with_key(o.source_toggles, key) {
        None => n == o && acts.len() == 0,
        Some(j) => {
            let value = !o.source_toggles[j].1;
            &&& n == (AppView {
                source_toggles: o.source_toggles.update(j, (o.source_toggles[j].0, value)),
                epoch: next_epoch(o.epoch),
                ..o
            })
            &&& acts.len() == 2
            &&& acts[0] matches AppAction::SetSourceToggle { toggle, value: v }
                && toggle == o.source_toggles[j].0 && v == value
            &&& acts[1] matches AppAction::ReloadColumns { epoch, ids: ids_ }
                && epoch == n.epoch && ids_@.map_values(|x: Vec<String>| ids(x@)) == column_ids(o.columns)
        },
    }
}

/// What a key press does, before anything it sets in motion.
#[derive(Clone, Copy, Debug, PartialEq, Eq, Structural)]
pub enum KeyCommand {
    Quit,
    ScrollPreview(i32),
    MoveSelection(i32),
    UnfocusPreview,
    GoUp,
    Enter,
    ScrollTop,
    ScrollBottom,
    SelectFirst,
    SelectLast,
    AwaitSecondG,
    ToggleWrap,
    ToggleNumbers,
    ToggleZoom,
    ToggleMenu,
    SourceToggle(char),
    Nothing,
}

/// The command a key press means, given whether the preview pane has
/// focus and whether a first `g` was just pressed.
/// A vertical move: it scrolls the preview when that has focus, and
/// moves the cursor otherwise.
pub open spec fn vertical_cmd(focused: bool, n: i32) -> KeyCommand {
    if focused { KeyCommand::ScrollPreview(n) } else { KeyCommand::MoveSelection(n) }
}

pub open spec fn spec_key_command(key: KeyInput, focused: bool, was_g: bool) -> KeyCommand {
    match key {
        KeyInput::Esc => KeyCommand::Quit,
        KeyInput::Char { c, ctrl } => {
            if c == 'q' {
                KeyCommand::Quit
            } else if c == 'c' && ctrl {
                KeyCommand::Quit
            } else if c == 'd' && ctrl {
                vertical_cmd(focused, HALF_PAGE_SIZE)
            } else if c == 'u' && ctrl {
                vertical_cmd(focused, (0 - HALF_PAGE_SIZE) as i32)
            } else if c == 'j' {
                vertical_cmd(focused, 1i32)
            } else if c == 'k' {
                vertical_cmd(focused, -1i32)
            } else if c == 'h' {
                if focused { KeyCommand::UnfocusPreview } else { KeyCommand::GoUp }
            } else if c == 'l' {
                if focused { KeyCommand::Nothing } else { KeyCommand::Enter }
            } else if c == 'g' {
                if !was_g { KeyCommand::AwaitSecondG } else if focused { KeyCommand::ScrollTop } else { KeyCommand::SelectFirst }
            } else if c == 'G' {
                if focused { KeyCommand::ScrollBottom } else { KeyCommand::SelectLast }
            } else if c == 'w' {
                KeyCommand::ToggleWrap
            } else if c == 'n' {
                KeyCommand::ToggleNumbers
            } else if c == 'z' {
                KeyCommand::ToggleZoom
            } else if c == 't' {
                KeyCommand::ToggleMenu
            } else {
                KeyCommand::SourceToggle(c)
            }
        },
        KeyInput::Down => vertical_cmd(focused, 1i32),
        KeyInput::Up => vertical_cmd(focused, -1i32),
        KeyInput::Left | KeyInput::Backspace => if focused { KeyCommand::UnfocusPreview } else { KeyCommand::GoUp },
        KeyInput::Right | KeyInput::Enter => if focused { KeyCommand::Nothing } else { KeyCommand::Enter },
        KeyInput::PageDown => vertical_cmd(focused, PAGE_SIZE),
        KeyInput::PageUp => vertical_cmd(focused, (0 - PAGE_SIZE) as i32),
        KeyInput::End => if focused { KeyCommand::ScrollBottom } else { KeyCommand::SelectLast },
        KeyInput::Home => if focused { KeyCommand::ScrollTop } else { KeyCommand::SelectFirst },
        KeyInput::Other => KeyCommand::Nothing,
    }
}

/// The vim keys mean what the arrow keys mean (`j` Down, `k` Up, `h` Left
/// and Backspace, `l` Right and Enter, `G` End, a second `g` Home), and the
/// arrow keys move by one row: down is `+1`, up is `-1`, on the selection
/// or, when the preview has focus, on its scroll; Left goes back out,
/// Right goes in; a page is ten rows and Ctrl-D / Ctrl-U move half a
/// page; `q` and Esc quit.
pub proof fn lemma_vim_keys_are_arrow_keys(ctrl: bool, focused: bool, was_g: bool)
    ensures
        spec_key_command(KeyInput::Char { c: 'j', ctrl }, focused, was_g) == spec_key_command(KeyInput::Down, focused, was_g),
        spec_key_command(KeyInput::Char { c: 'k', ctrl }, focused, was_g) == spec_key_command(KeyInput::Up, focused, was_g),
        spec_key_command(KeyInput::Char { c: 'h', ctrl }, focused, was_g) == spec_key_command(KeyInput::Left, focused, was_g),
        spec_key_command(KeyInput::Backspace, focused, was_g) == spec_key_command(KeyInput::Left, focused, was_g),
        spec_key_command(KeyInput::Char { c: 'l', ctrl }, focused, was_g) == spec_key_command(KeyInput::Right, focused, was_g),
        spec_key_command(KeyInput::Enter, focused, was_g) == spec_key_command(KeyInput::Right, focused, was_g),
        spec_key_command(KeyInput::Char { c: 'G', ctrl }, focused, was_g) == spec_key_command(KeyInput::End, focused, was_g),
        spec_key_command(KeyInput::Char { c: 'g', ctrl }, focused, true) == spec_key_command(KeyInput::Home, focused, was_g),
        spec_key_command(KeyInput::Down, focused, was_g) == (if focused { KeyCommand::ScrollPreview(1i32) } else { KeyCommand::MoveSelection(1i32) }),
        spec_key_command(KeyInput::Up, focused, was_g) == (if focused { KeyCommand::ScrollPreview(-1i32) } else { KeyCommand::MoveSelection(-1i32) }),
        spec_key_command(KeyInput::Left, focused, was_g) == (if focused { KeyCommand::UnfocusPreview } else { KeyCommand::GoUp }),
        spec_key_command(KeyInput::Right, focused, was_g) == (if focused { KeyCommand::Nothing } else { KeyCommand::Enter }),
        spec_key_command(KeyInput::End, focused, was_g) == (if focused { KeyCommand::ScrollBottom } else { KeyCommand::SelectLast }),
        spec_key_command(KeyInput::Home, focused, was_g) == (if focused { KeyCommand::ScrollTop } else { KeyCommand::SelectFirst }),
        spec_key_command(KeyInput::PageDown, focused, was_g) == (if focused { KeyCommand::ScrollPreview(10i32) } else { KeyCommand::MoveSelection(10i32) }),
        spec_key_command(KeyInput::PageUp, focused, was_g) == (if focused { KeyCommand::ScrollPreview(-10i32) } else { KeyCommand::MoveSelection(-10i32) }),
        spec_key_command(KeyInput::Char { c: 'd', ctrl: true }, focused, was_g) == (if focused { KeyCommand::ScrollPreview(5i32) } else { KeyCommand::MoveSelection(5i32) }),
        spec_key_command(KeyInput::Char { c: 'u', ctrl: true }, focused, was_g) == (if focused { KeyCommand::ScrollPreview(-5i32) } else { KeyCommand::MoveSelection(-5i32) }),
        spec_key_command(KeyInput::Char { c: 'q', ctrl }, focused, was_g) == KeyCommand::Quit,
        spec_key_command(KeyInput::Esc, focused, was_g) == KeyCommand::Quit,
{
}

/// The command a key press means (see `spec_key_command`).
pub fn key_command(key: KeyInput, focused: bool, was_g: bool) -> (r: KeyCommand)
    ensures
        r == spec_key_command(key, focused, was_g),
{
    let vertical = |n: i32| -> (r: KeyCommand)
        ensures
            r == (if focused { KeyCommand::ScrollPreview(n) } else { KeyCommand::MoveSelection(n) }),
    { if focused { KeyCommand::ScrollPreview(n) } else { KeyCommand::MoveSelection(n) } };
    match key {
        KeyInput::Esc => KeyCommand::Quit,
        KeyInput::Char { c, ctrl } => {
            if c == 'q' {
                KeyCommand::Quit
            } else if c == 'c' && ctrl {
                KeyCommand::Quit
            } else if c == 'd' && ctrl {
                vertical(HALF_PAGE_SIZE)
            } else if c == 'u' && ctrl {
                vertical(-HALF_PAGE_SIZE)
            } else if c == 'j' {
                vertical(1)
            } else if c == 'k' {
                vertical(-1)
            } else if c == 'h' {
                if focused { KeyCommand::UnfocusPreview } else { KeyCommand::GoUp }
            } else if c == 'l' {
                if focused { KeyCommand::Nothing } else { KeyCommand::Enter }
            } else if c == 'g' {
                if !was_g { KeyCommand::AwaitSecondG } else if focused { KeyCommand::ScrollTop } else { KeyCommand::SelectFirst }
            } else if c == 'G' {
                if focused { KeyCommand::ScrollBottom } else { KeyCommand::SelectLast }
            } else if c == 'w' {
                KeyCommand::ToggleWrap
            } else if c == 'n' {
                KeyCommand::ToggleNumbers
            } else if c == 'z' {
                KeyCommand::ToggleZoom
            } else if c == 't' {
                KeyCommand::ToggleMenu
            } else {
                KeyCommand::SourceToggle(c)
            }
        },
        KeyInput::Down => vertical(1),
        KeyInput::Up => vertical(-1),
        KeyInput::Left | KeyInput::Backspace => if focused { KeyCommand::UnfocusPreview } else { KeyCommand::GoUp },
        KeyInput::Right | KeyInput::Enter => if focused { KeyCommand::Nothing } else { KeyCommand::Enter },
        KeyInput::PageDown => vertical(PAGE_SIZE),
        KeyInput::PageUp => vertical(-PAGE_SIZE),
        KeyInput::End => if focused { KeyCommand::ScrollBottom } else { KeyCommand::SelectLast },
        KeyInput::Home => if focused { KeyCommand::ScrollTop } else { KeyCommand::SelectFirst },
        KeyInput::Other => KeyCommand::Nothing,
    }
}

/// What running `cmd` does from `o` (the `g` prefix already cleared).
pub open spec fn ran(o: AppView, n: AppView, cmd: KeyCommand, now: u64, acts: Seq<AppAction>) -> bool {
    match cmd {
        KeyCommand::Quit => n == (AppView { should_quit: true, ..o }) && acts.len() == 0,
        KeyCommand::ScrollPreview(d) => n == scrolled_by(o, d) && acts.len() == 0,
        KeyCommand::MoveSelection(d) => moved(o, n, d, now, acts),
        KeyCommand::UnfocusPreview => n == (AppView { preview_focused: false, ..o }) && acts.len() == 0,
        KeyCommand::GoUp => went_up(o, n, now, acts),
        KeyCommand::Enter => entered(o, n, acts),
        KeyCommand::ScrollTop => n == (AppView { preview_scroll: 0, ..o }) && acts.len() == 0,
        KeyCommand::ScrollBottom => n == (AppView { preview_scroll: max_scroll(o), ..o }) && acts.len() == 0,
        KeyCommand::SelectFirst => selected_first(o, n, now, acts),
        KeyCommand::SelectLast => selected_last(o, n, now, acts),
        KeyCommand::AwaitSecondG => n == (AppView { pending_g: true, ..o }) && acts.len() == 0,
        KeyCommand::ToggleWrap => n == clamp_scroll(AppView { wrap_preview: !o.wrap_preview, ..o }) && acts.len() == 0,
        KeyCommand::ToggleNumbers => n == clamp_scroll(AppView { show_line_numbers: !o.show_line_numbers, ..o }) && acts.len() == 0,
        KeyCommand::ToggleZoom => n == clamp_scroll(AppView { zoom_preview: !o.zoom_preview, ..o }) && acts.len() == 0,
        KeyCommand::ToggleMenu => n == (AppView { toggles_menu_open: !o.toggles_menu_open, ..o }) && acts.len() == 0,
        KeyCommand::SourceToggle(c) => source_toggled(o, n, c, acts),
        KeyCommand::Nothing => n == o && acts.len() == 0,
    }
}

impl App {
    /// Flips the source toggle bound to `key` (if the source has one) and
    /// reloads every open column, to be applied all at once.
    pub fn toggle_source_toggle(&mut self, key: char) -> (acts: Vec<AppAction>)
        requires
            old(self).wf(),
        ensures
            final(self).wf(),
            source_toggled(old(self).view(), final(self).view(), key, acts@),
    {
        let ghost o = self.view();
        let mut j: usize = 0;
        while j < self.source_toggles.len() && self.source_toggles[j].0.key != key
            invariant
                j <= self.source_toggles@.len(),
                o == self.view(),
                forall|l: int| 0 <= l < j ==> (#[trigger] self.source_toggles@[l]).0.key != key,
            decreases self.source_toggles.len() - j,
        {
            j = j + 1;
        }
        if j == self.source_toggles.len() {
            proof {
                assert(!exists|x: int| 0 <= x < o.source_toggles.len() && (#[trigger] o.source_toggles[x]).0.key == key);
            }
            return Vec::new();
        }
        proof {
            let c = choose|x: int| 0 <= x < o.source_toggles.len() && (#[trigger] o.source_toggles[x]).0.key == key
                && forall|l: int| 0 <= l < x ==> (#[trigger] o.source_toggles[l]).0.key != key;
            assert(0 <= j < o.source_toggles.len() && o.source_toggles[j as int].0.key == key);
            assert(c == j) by {
                if c < j {
                    assert(o.source_toggles[c].0.key != key);
                } else if c > j {
                    assert(o.source_toggles[j as int].0.key != key);
                }
            }
        }
        let value = !self.source_toggles[j].1;
        let t = Toggle { name: self.source_toggles[j].0.name.clone(), key: self.source_toggles[j].0.key };
        let t2 = Toggle { name: self.source_toggles[j].0.name.clone(), key: self.source_toggles[j].0.key };
        self.source_toggles.set(j, (t, value));
        let e: u64 = if self.epoch == u64::MAX { 0 } else { self.epoch + 1 };
        self.epoch = e;
        let mut id_list: Vec<Vec<String>> = Vec::new();
        let mut k: usize = 0;
        while k < self.columns.len()
            invariant
                k <= self.columns@.len(),
                id_list@.map_values(|x: Vec<String>| ids(x@)) == column_ids(self.columns@).subrange(0, k as int),
            decreases self.columns.len() - k,
        {
            let ghost before = id_list@;
            id_list.push(clone_ids(self.columns[k].id.as_slice()));
            proof {
                assert(id_list@.map_values(|x: Vec<String>| ids(x@)) =~= before.map_values(|x: Vec<String>| ids(x@)).push(ids(self.columns@[k as int].id@)));
                assert(column_ids(self.columns@).subrange(0, k + 1) =~= column_ids(self.columns@).subrange(0, k as int).push(ids(self.columns@[k as int].id@)));
            }
            k = k + 1;
        }
        proof {
            assert(column_ids(self.columns@).subrange(0, self.columns@.len() as int) =~= column_ids(self.columns@));
            assert(self.view().source_toggles =~= o.source_toggles.update(j as int, (o.source_toggles[j as int].0, value)));
        }
        let mut acts: Vec<AppAction> = Vec::new();
        acts.push(AppAction::SetSourceToggle { toggle: t2, value });
        acts.push(AppAction::ReloadColumns { epoch: e, ids: id_list });
        acts
    }

    /// Handles a key press: works out its command (see `key_command`) and
    /// runs it.
    #[verifier::spinoff_prover]
    #[verifier::rlimit(100)]
    pub fn handle_key(&mut self, key: KeyInput, now: u64) -> (acts: Vec<AppAction>)
        requires
            old(self).wf(),
        ensures
            final(self).wf(),
            ran(AppView { pending_g: false, ..old(self).view() }, final(self).view(),
                spec_key_command(key, old(self).view().preview_focused, old(self).view().pending_g), now, acts@),
    {
        let was_g = self.pending_g;
        self.pending_g = false;
        let cmd = key_command(key, self.preview_focused, was_g);
        match cmd {
            KeyCommand::Quit => {
                self.should_quit = true;
                Vec::new()
            },
            KeyCommand::ScrollPreview(d) => {
                self.preview_scroll_by(d);
                Vec::new()
            },
            KeyCommand::MoveSelection(d) => self.move_selection(d, now),
            KeyCommand::UnfocusPreview => {
                self.unfocus_preview();
                Vec::new()
            },
            KeyCommand::GoUp => self.go_up(now),
            KeyCommand::Enter => self.enter(now),
            KeyCommand::ScrollTop => {
                self.preview_scroll_top();
                Vec::new()
            },
            KeyCommand::ScrollBottom => {
                self.preview_scroll_bottom();
                Vec::new()
            },
            KeyCommand::SelectFirst => self.select_first(now),
            KeyCommand::SelectLast => self.select_last(now),
            KeyCommand::AwaitSecondG => {
                self.pending_g = true;
                Vec::new()
            },
            KeyCommand::ToggleWrap => {
                self.toggle_wrap();
                Vec::new()
            },
            KeyCommand::ToggleNumbers => {
                self.toggle_line_numbers();
                Vec::new()
            },
            KeyCommand::ToggleZoom => {
                self.toggle_zoom();
                Vec::new()
            },
            KeyCommand::ToggleMenu => {
                self.toggle_toggles_menu();
                Vec::new()
            },
            KeyCommand::SourceToggle(c) => self.toggle_source_toggle(c),
            KeyCommand::Nothing => Vec::new(),
        }
    }
}

/// What applying `update` does from `o`: see `apply_update`.
pub open spec fn applied(o: AppView, n: AppView, update: AppUpdate, now: u64, acts: Seq<AppAction>) -> bool {
    match update {
        AppUpdate::PreviewLoaded { epoch, text, override_disable_line_numbers } => {
            if epoch != o.epoch {
                n == o && acts.len() == 0
            } else {
                let m = AppView {
                    preview: text.view(),
                    override_numbers_off: override_disable_line_numbers,
                    preview_loading: false,
                    loading_shows_at: None,
                    scroll_restore: None,
                    ..o
                };
                &&& acts.len() == 0
                &&& n == (match o.scroll_restore {
                    Some((sc, mx)) => AppView { preview_scroll: restored_scroll(sc, mx, max_scroll(m)), ..m },
                    None => m,
                })
            }
        },
        AppUpdate::ColumnLoaded { epoch, id, result } => {
            if epoch != o.epoch {
                n == o && acts.len() == 0
            } else {
                match result {
                    Ok(es) => if es@.len() == 0 {
                        acts.len() <= 1 && dispatched(with_message(popped(o), Some(empty_dir_message(ids(id@))), now), n, false, false, now, one_act(acts))
                    } else {
                        let c = o.columns.last();
                        let m = AppView {
                            columns: o.columns.update(o.columns.len() - 1, Column {
                                entries: es,
                                selected: Some(resolved_index(o.memory, ids(id@), es@)),
                                loading: false,
                                ..c
                            }),
                            ..o
                        };
                        acts.len() <= 1 && dispatched(m, n, true, false, now, one_act(acts))
                    },
                    Err(e) => acts.len() <= 1 && dispatched(with_message(popped(o), Some(error_reading_message(ids(id@), e.message@)), now), n, false, false, now, one_act(acts)),
                }
            }
        },
        AppUpdate::ColumnsReloaded { epoch, results } => {
            if epoch != o.epoch {
                n == o && acts.len() == 0
            } else {
                let rs = results@;
                &&& acts.len() <= 1
                &&& n.columns.len() == rs.len()
                &&& forall|k: int| 0 <= k < rs.len() ==> column_from(#[trigger] n.columns[k], rs[k].0, rs[k].1, o.memory)
                &&& ({
                    let m = with_message(AppView { columns: n.columns, ..o }, last_error(rs), now);
                    if selected_id(m) == selected_id(o) {
                        dispatched(AppView { scroll_restore: Some((o.preview_scroll, max_scroll(m))), ..m }, n, true, true, now, one_act(acts))
                    } else {
                        dispatched(AppView { preview_focused: false, ..m }, n, true, false, now, one_act(acts))
                    }
                })
            }
        },
    }
}

/// The toggles and view settings to start with, once the command line's
/// `--toggle-on`/`--toggle-off` requests are applied.
pub struct ToggleSetup {
    pub wrap_preview: bool,
    pub show_line_numbers: bool,
    pub zoom_preview: bool,
    /// The source's toggles with their values.
    pub source_toggles: Vec<(Toggle, bool)>,
    /// The source toggles to set, in order, before anything is listed.
    pub writes: Vec<(Toggle, bool)>,
}

/// The plain-value picture of a [`ToggleSetup`] while requests are applied.
pub struct SetupView {
    pub wrap: bool,
    pub numbers: bool,
    pub zoom: bool,
    pub toggles: Seq<(Seq<char>, char, bool)>,
    pub writes: Seq<(Seq<char>, bool)>,
}

pub open spec fn toggles_plain(ts: Seq<(Toggle, bool)>) -> Seq<(Seq<char>, char, bool)> {
    ts.map_values(|p: (Toggle, bool)| (p.0.name@, p.0.key, p.1))
}

pub open spec fn writes_plain(ws: Seq<(Toggle, bool)>) -> Seq<(Seq<char>, bool)> {
    ws.map_values(|p: (Toggle, bool)| (p.0.name@, p.1))
}

pub open spec fn setup_view(s: ToggleSetup) -> SetupView {
    SetupView {
        wrap: s.wrap_preview,
        numbers: s.show_line_numbers,
        zoom: s.zoom_preview,
        toggles: toggles_plain(s.source_toggles@),
        writes: writes_plain(s.writes@),
    }
}

/// The first index of a toggle named `name`.
pub open spec fn toggle_named(ts: Seq<(Seq<char>, char, bool)>, name: Seq<char>) -> Option<int> {
    if exists|j: int| 0 <= j < ts.len() && (#[trigger] ts[j]).0 == name {
        Some(choose|j: int| 0 <= j < ts.len() && (#[trigger] ts[j]).0 == name
            && forall|l: int| 0 <= l < j ==> (#[trigger] ts[l]).0 != name)
    } else {
        None
    }
}

/// One `(name, value)` request applied: the view settings `wrap`,
/// `numbers` and `zoom` first, then the source's own toggles (each set is
/// also recorded as a write); a name some other source type has is
/// ignored, and one no source type has is refused (`None`).
pub open spec fn override_step(st: SetupView, name: Seq<char>, value: bool) -> Option<SetupView> {
    if name == "wrap"@ {
        Some(SetupView { wrap: value, ..st })
    } else if name == "numbers"@ {
        Some(SetupView { numbers: value, ..st })
    } else if name == "zoom"@ {
        Some(SetupView { zoom: value, ..st })
    } else {
        match toggle_named(st.toggles, name) {
            Some(j) => Some(SetupView {
                toggles: st.toggles.update(j, (name, st.toggles[j].1, value)),
                writes: st.writes.push((name, value)),
                ..st
            }),
            None => if crate::registry::spec_toggle_known(name) { Some(st) } else { None },
        }
    }
}

/// The requests applied in order: the resulting setup, or the first name
/// nothing knows.
pub open spec fn overrides_fold(st: SetupView, ovs: Seq<(Seq<char>, bool)>) -> Result<SetupView, Seq<char>>
    decreases ovs.len(),
{
    if ovs.len() == 0 {
        Ok(st)
    } else {
        match overrides_fold(st, ovs.drop_last()) {
            Err(n) => Err(n),
            Ok(s) => match override_step(s, ovs.last().0, ovs.last().1) {
                Some(s2) => Ok(s2),
                None => Err(ovs.last().0),
            },
        }
    }
}

/// Every toggle name that means something somewhere: the view settings'
/// and every registered source type's.
pub open spec fn valid_toggle_names() -> Set<Seq<char>> {
    set!["wrap"@, "numbers"@, "zoom"@].union(Set::new(|n: Seq<char>| crate::registry::spec_toggle_known(n)))
}

/// `names` joined with `", "`.
pub open spec fn join_comma(names: Seq<Seq<char>>) -> Seq<char>
    decreases names.len(),
{
    if names.len() == 0 {
        Seq::empty()
    } else if names.len() == 1 {
        names[0]
    } else {
        join_comma(names.drop_last()) + ", "@ + names.last()
    }
}

pub open spec fn unknown_toggle_message(name: Seq<char>, sorted: Seq<Seq<char>>) -> Seq<char> {
    "unknown toggle "@ + crate::error::spec_debug_str(name) + " (valid toggles: "@ + join_comma(sorted) + ")"@
}

/// The scroll position carried over to the new preview (see
/// `restored_scroll`).
fn restore_scroll(sc: u16, mx: u16, new_max: u16) -> (r: u16)
    ensures
        r == restored_scroll(sc, mx, new_max),
{
    if mx == 0 {
        return 0;
    }
    let s: u128 = if sc < mx { sc as u128 } else { mx as u128 };
    if s == 0 {
        return 0;
    }
    let m: u128 = mx as u128;
    let mut e: u64 = 0;
    let mut p: u128 = 1;
    while e < 80 && s * p < 0x10_0000_0000_0000 * m
        invariant
            1 <= s <= m <= 65535,
            e <= 80,
            1 <= p,
            s * p < 0x20_0000_0000_0000 * m,
            p == two_to(e as nat),
            ratio_exp(s as nat, m as nat, e as nat) == ratio_exp(s as nat, m as nat, 0),
        decreases 80 - e,
    {
        proof {
            assert(s * (2 * p) == 2 * (s * p)) by (nonlinear_arith);
            assert(p <= s * p) by (nonlinear_arith)
                requires s >= 1, p >= 1;
        }
        p = 2 * p;
        e = e + 1;
    }
    proof {
        assert(p <= s * p) by (nonlinear_arith)
            requires s >= 1, p >= 1;
    }
    let sp: u128 = s * p;
    let t: u128 = sp / m;
    let rem: u128 = sp % m;
    let q: u128 = if 2 * rem > m || (2 * rem == m && t % 2 == 1) { t + 1 } else { t };
    let nm: u128 = new_max as u128;
    proof {
        assert(t <= sp) by (nonlinear_arith)
            requires t == sp / m, m >= 1;
        assert(q * nm <= 0x20_0000_0000_0000_0000 * 65536 * 65535) by (nonlinear_arith)
            requires q <= sp + 1, sp < 0x20_0000_0000_0000_0000 * 65536, nm <= 65535;
    }
    let qn: u128 = q * nm;
    let w: u128 = if qn == 0 { 0 } else { crate::fs_format::f64_value(qn) };
    let r: u128 = (2 * w + p) / (2 * p);
    let c: u128 = if r > 65535 { 65535 } else { r };
    if c < nm { c as u16 } else { new_max }
}

/// The column a listing `result` for `id` makes, its cursor placed by
/// `memory`, and the toast a failed listing raises.
fn column_from_result(memory: &Vec<(Vec<String>, String)>, id: Vec<String>, result: Result<Vec<Entry>, SourceError>) -> (r: (Column, Option<String>))
    requires
        keys_distinct(memory_view(memory@)),
    ensures
        column_from(r.0, id, result, memory_view(memory@)),
        col_ok(r.0),
        match r.1 {
            Some(m) => column_error(id@, result) == Some(m@),
            None => column_error(id@, result) is None,
        },
{
    match result {
        Ok(entries) => {
            let selected = if entries.len() == 0 {
                None
            } else {
                Some(resolve_selection(memory, id.as_slice(), entries.as_slice()))
            };
            (Column { id, entries, selected, loading: false, list_offset: 0 }, None)
        },
        Err(e) => {
            let mut msg = String::from_str("Error reading /");
            let j = join_id(id.as_slice());
            msg.append(j.as_str());
            msg.append(": ");
            msg.append(e.message.as_str());
            (Column { id, entries: Vec::new(), selected: None, loading: false, list_offset: 0 }, Some(msg))
        },
    }
}

impl App {
    fn apply_preview_loaded(&mut self, text: SanitizedText, override_disable_line_numbers: bool)
        requires
            old(self).wf(),
        ensures
            final(self).wf(),
            ({
                let o = old(self).view();
                let m = AppView {
                    preview: text.view(),
                    override_numbers_off: override_disable_line_numbers,
                    preview_loading: false,
                    loading_shows_at: None,
                    scroll_restore: None,
                    ..o
                };
                final(self).view() == (match o.scroll_restore {
                    Some((sc, mx)) => AppView { preview_scroll: restored_scroll(sc, mx, max_scroll(m)), ..m },
                    None => m,
                })
            }),
    {
        self.preview = text;
        self.preview_override_disable_line_numbers = override_disable_line_numbers;
        self.preview_loading = false;
        self.loading_shows_at = None;
        match self.scroll_restore {
            Some((sc, mx)) => {
                self.scroll_restore = None;
                let max = self.preview_max_scroll();
                self.preview_scroll = restore_scroll(sc, mx, max);
            },
            None => {},
        }
    }

    fn apply_column_loaded(&mut self, id: Vec<String>, result: Result<Vec<Entry>, SourceError>, now: u64) -> (a: Option<AppAction>)
        requires
            old(self).wf(),
            (result is Err || result->Ok_0@.len() == 0) ==> old(self).view().columns.len() >= 2,
        ensures
            final(self).wf(),
            ({
                let o = old(self).view();
                let n = final(self).view();
                match result {
                    Ok(es) => if es@.len() == 0 {
                        dispatched(with_message(popped(o), Some(empty_dir_message(ids(id@))), now), n, false, false, now, a)
                    } else {
                        let c = o.columns.last();
                        let m = AppView {
                            columns: o.columns.update(o.columns.len() - 1, Column {
                                entries: es,
                                selected: Some(resolved_index(o.memory, ids(id@), es@)),
                                loading: false,
                                ..c
                            }),
                            ..o
                        };
                        dispatched(m, n, true, false, now, a)
                    },
                    Err(e) => dispatched(with_message(popped(o), Some(error_reading_message(ids(id@), e.message@)), now), n, false, false, now, a),
                }
            }),
    {
        match result {
            Ok(es) => {
                if es.len() == 0 {
                    let mut msg = String::from_str("Directory is empty: /");
                    let j = join_id(id.as_slice());
                    msg.append(j.as_str());
                    return self.fail_column_load(msg, now);
                }
                let ghost o = self.view();
                let sel = resolve_selection(&self.cursor_memory, id.as_slice(), es.as_slice());
                let mut col = match self.columns.pop() {
                    Some(c) => c,
                    None => {
                        proof {
                            assert(false);
                        }
                        return None;
                    },
                };
                col.entries = es;
                col.selected = Some(sel);
                col.loading = false;
                self.columns.push(col);
                proof {
                    assert forall|k: int| 0 <= k < self.view().columns.len() implies #[trigger] col_ok(self.view().columns[k]) by {
                        if k < o.columns.len() - 1 {
                            assert(col_ok(o.columns[k]));
                        }
                    }
                    assert(self.view().columns =~= o.columns.update(o.columns.len() - 1, Column {
                        entries: es,
                        selected: Some(resolved_index(o.memory, ids(id@), es@)),
                        loading: false,
                        ..o.columns.last()
                    }));
                }
                self.dispatch_preview(true, false, now)
            },
            Err(e) => {
                let mut msg = String::from_str("Error reading /");
                let j = join_id(id.as_slice());
                msg.append(j.as_str());
                msg.append(": ");
                msg.append(e.message.as_str());
                self.fail_column_load(msg, now)
            },
        }
    }

    #[verifier::spinoff_prover]
    #[verifier::rlimit(50)]
    fn apply_columns_reloaded(&mut self, results: Vec<(Vec<String>, Result<Vec<Entry>, SourceError>)>, now: u64) -> (a: Option<AppAction>)
        requires
            old(self).wf(),
            results@.len() >= 1,
        ensures
            final(self).wf(),
            ({
                let o = old(self).view();
                let n = final(self).view();
                let rs = results@;
                &&& n.columns.len() == rs.len()
                &&& forall|k: int| 0 <= k < rs.len() ==> column_from(#[trigger] n.columns[k], rs[k].0, rs[k].1, o.memory)
                &&& ({
                    let m = with_message(AppView { columns: n.columns, ..o }, last_error(rs), now);
                    if selected_id(m) == selected_id(o) {
                        dispatched(AppView { scroll_restore: Some((o.preview_scroll, max_scroll(m))), ..m }, n, true, true, now, a)
                    } else {
                        dispatched(AppView { preview_focused: false, ..m }, n, true, false, now, a)
                    }
                })
            }),
    {
        let ghost o = self.view();
        let ghost rs = results@;
        let prev: Option<Vec<String>> = match self.selected_index() {
            Some(i) => {
                let last = self.columns.len() - 1;
                Some(clone_ids(self.columns[last].entries[i].id.as_slice()))
            },
            None => None,
        };
        let mut results = results;
        let n0: usize = results.len();
        let mut cols: Vec<Column> = Vec::new();
        let mut last_err: Option<String> = None;
        let mut k: usize = 0;
        while results.len() > 0
            invariant
                k + results@.len() == rs.len(),
                rs.len() == n0,
                results@ == rs.subrange(k as int, rs.len() as int),
                cols@.len() == k,
                keys_distinct(memory_view(self.cursor_memory@)),
                self.view() == o,
                forall|x: int| 0 <= x < k ==> column_from(#[trigger] cols@[x], rs[x].0, rs[x].1, o.memory) && col_ok(cols@[x]),
                (match last_err { Some(m) => Some(m@), None => None }) == last_error(rs.subrange(0, k as int)),
            decreases results.len(),
        {
            let (id, result) = results.remove(0);
            let (col, err) = column_from_result(&self.cursor_memory, id, result);
            proof {
                assert(rs.subrange(0, k + 1).drop_last() =~= rs.subrange(0, k as int));
                assert(rs.subrange(0, k + 1).last() == rs[k as int]);
            }
            if err.is_some() {
                last_err = err;
            }
            cols.push(col);
            k = k + 1;
            proof {
                assert(results@ =~= rs.subrange(k as int, rs.len() as int));
            }
        }
        proof {
            assert(rs.subrange(0, k as int) =~= rs);
        }
        self.columns = cols;
        self.set_message(last_err, now);
        let now_sel = self.selected_index();
        let same: bool = match (now_sel, &prev) {
            (None, None) => true,
            (Some(i), Some(p)) => {
                let last = self.columns.len() - 1;
                ids_eq(self.columns[last].entries[i].id.as_slice(), p.as_slice())
            },
            _ => false,
        };
        if same {
            let max = self.preview_max_scroll();
            self.scroll_restore = Some((self.preview_scroll, max));
            self.dispatch_preview(true, true, now)
        } else {
            self.preview_focused = false;
            self.dispatch_preview(true, false, now)
        }
    }

    /// Applies the result of a fetch asked for earlier. A result tagged
    /// with an epoch other than the current one has been made stale by a
    /// newer action and is dropped. A new preview replaces the old one
    /// (keeping the scroll fraction when asked to); a listing fills the
    /// deepest column, or — empty or failed — closes it with a toast; a
    /// reload of every column replaces the stack at once, keeping the
    /// preview's scroll when the cursor is still on the same node.
    pub fn apply_update(&mut self, update: AppUpdate, now: u64) -> (acts: Vec<AppAction>)
        requires
            old(self).wf(),
            update matches AppUpdate::ColumnLoaded { epoch, result, .. } ==> (epoch == old(self).view().epoch
                && (result is Err || result->Ok_0@.len() == 0) ==> old(self).view().columns.len() >= 2),
            update matches AppUpdate::ColumnsReloaded { epoch, results } ==> (epoch == old(self).view().epoch
                ==> results@.len() >= 1),
        ensures
            final(self).wf(),
            applied(old(self).view(), final(self).view(), update, now, acts@),
    {
        match update {
            AppUpdate::PreviewLoaded { epoch, text, override_disable_line_numbers } => {
                if epoch != self.epoch {
                    return Vec::new();
                }
                self.apply_preview_loaded(text, override_disable_line_numbers);
                Vec::new()
            },
            AppUpdate::ColumnLoaded { epoch, id, result } => {
                if epoch != self.epoch {
                    return Vec::new();
                }
                let a = self.apply_column_loaded(id, result, now);
                opt_vec(a)
            },
            AppUpdate::ColumnsReloaded { epoch, results } => {
                if epoch != self.epoch {
                    return Vec::new();
                }
                let a = self.apply_columns_reloaded(results, now);
                opt_vec(a)
            },
        }
    }
}

/// The names of the toggles of `ts`.
pub open spec fn toggle_names(ts: Seq<(Seq<char>, char)>) -> Set<Seq<char>> {
    Set::new(|n: Seq<char>| exists|j: int| 0 <= j < ts.len() && (#[trigger] ts[j]).0 == n)
}

/// The names of the toggles of the first `i` registered types.
pub open spec fn registry_names_upto(i: int) -> Set<Seq<char>> {
    Set::new(|n: Seq<char>| exists|a: int| 0 <= a < i && #[trigger] toggle_names(crate::registry::spec_node_source_types()[a].toggles).contains(n))
}

/// Every toggle name that means something somewhere, sorted, each once.
fn sorted_valid_toggle_names() -> (v: Vec<Vec<char>>)
    ensures
        sorted_strs(strs_view(v@)),
        strs_view(v@).to_set() == valid_toggle_names(),
{
    let mut v: Vec<Vec<char>> = Vec::new();
    proof {
        assert(strs_view(v@).to_set() =~= Set::<Seq<char>>::empty());
    }
    let w = chars_of("wrap");
    insert_sorted(&mut v, w.as_slice());
    let n = chars_of("numbers");
    insert_sorted(&mut v, n.as_slice());
    let z = chars_of("zoom");
    insert_sorted(&mut v, z.as_slice());
    let ghost base = set!["wrap"@, "numbers"@, "zoom"@];
    proof {
        assert(strs_view(v@).to_set() =~= base);
    }
    let types = node_source_types();
    let ghost tv = crate::registry::spec_node_source_types();
    let mut i: usize = 0;
    while i < types.len()
        invariant
            i <= types@.len(),
            types@.len() == tv.len(),
            tv == crate::registry::spec_node_source_types(),
            forall|k: int| 0 <= k < types@.len() ==> #[trigger] types@[k].view() == tv[k],
            sorted_strs(strs_view(v@)),
            strs_view(v@).to_set() == base.union(registry_names_upto(i as int)),
        decreases types.len() - i,
    {
        let ts = &types[i].toggles;
        let mut j: usize = 0;
        while j < ts.len()
            invariant
                j <= ts@.len(),
                ts@ == types@[i as int].toggles@,
                types@[i as int].view() == tv[i as int],
                i < tv.len(),
                sorted_strs(strs_view(v@)),
                strs_view(v@).to_set() == base.union(registry_names_upto(i as int)).union(
                    toggle_names(tv[i as int].toggles.subrange(0, j as int))),
            decreases ts.len() - j,
        {
            let name = chars_of(ts[j].name.as_str());
            let ghost before = strs_view(v@).to_set();
            insert_sorted(&mut v, name.as_slice());
            proof {
                let tt = tv[i as int].toggles;
                assert(tt[j as int].0 == ts@[j as int].name@);
                assert(toggle_names(tt.subrange(0, j + 1)) =~= toggle_names(tt.subrange(0, j as int)).insert(tt[j as int].0)) by {
                    assert forall|x: Seq<char>| toggle_names(tt.subrange(0, j + 1)).contains(x)
                        implies toggle_names(tt.subrange(0, j as int)).insert(tt[j as int].0).contains(x) by {
                        let q = choose|q: int| 0 <= q < j + 1 && (#[trigger] tt.subrange(0, j + 1)[q]).0 == x;
                        if q < j {
                            assert(tt.subrange(0, j as int)[q].0 == x);
                        }
                    }
                    assert forall|x: Seq<char>| toggle_names(tt.subrange(0, j as int)).insert(tt[j as int].0).contains(x)
                        implies toggle_names(tt.subrange(0, j + 1)).contains(x) by {
                        if x == tt[j as int].0 {
                            assert(tt.subrange(0, j + 1)[j as int].0 == x);
                        } else {
                            let q = choose|q: int| 0 <= q < j && (#[trigger] tt.subrange(0, j as int)[q]).0 == x;
                            assert(tt.subrange(0, j + 1)[q].0 == x);
                        }
                    }
                }
                assert(strs_view(v@).to_set() =~= base.union(registry_names_upto(i as int)).union(
                    toggle_names(tt.subrange(0, j + 1))));
            }
            j = j + 1;
        }
        proof {
            let tt = tv[i as int].toggles;
            assert(tt.subrange(0, ts@.len() as int) =~= tt);
            assert(registry_names_upto(i + 1) =~= registry_names_upto(i as int).union(toggle_names(tt))) by {
                assert forall|x: Seq<char>| registry_names_upto(i + 1).contains(x)
                    implies registry_names_upto(i as int).union(toggle_names(tt)).contains(x) by {
                    let a = choose|a: int| 0 <= a < i + 1 && #[trigger] toggle_names(tv[a].toggles).contains(x);
                    if a < i {
                        assert(registry_names_upto(i as int).contains(x));
                    }
                }
                assert forall|x: Seq<char>| registry_names_upto(i as int).union(toggle_names(tt)).contains(x)
                    implies registry_names_upto(i + 1).contains(x) by {
                    if toggle_names(tt).contains(x) {
                        assert(toggle_names(tv[i as int].toggles).contains(x));
                    } else {
                        let a = choose|a: int| 0 <= a < i && #[trigger] toggle_names(tv[a].toggles).contains(x);
                        assert(toggle_names(tv[a].toggles).contains(x));
                    }
                }
            }
            assert(strs_view(v@).to_set() =~= base.union(registry_names_upto(i + 1)));
        }
        i = i + 1;
    }
    proof {
        assert(valid_toggle_names() =~= base.union(registry_names_upto(tv.len() as int))) by {
            assert forall|x: Seq<char>| #[trigger] crate::registry::spec_toggle_known(x) <==> registry_names_upto(tv.len() as int).contains(x) by {
                if crate::registry::spec_toggle_known(x) {
                    let a = choose|a: int| 0 <= a < tv.len() && #[trigger] crate::registry::spec_type_has_toggle(tv[a], x);
                    let b = choose|b: int| 0 <= b < tv[a].toggles.len() && tv[a].toggles[b].0 == x;
                    assert(tv[a].toggles[b].0 == x);
                    assert(toggle_names(tv[a].toggles).contains(x));
                }
                if registry_names_upto(tv.len() as int).contains(x) {
                    let a = choose|a: int| 0 <= a < tv.len() && #[trigger] toggle_names(tv[a].toggles).contains(x);
                    let b = choose|b: int| 0 <= b < tv[a].toggles.len() && (#[trigger] tv[a].toggles[b]).0 == x;
                    assert(crate::registry::spec_type_has_toggle(tv[a], x));
                }
            }
        }
    }
    v
}

/// `names` joined with `", "`.
fn join_names(names: &Vec<Vec<char>>) -> (s: Vec<char>)
    ensures
        s@ == join_comma(strs_view(names@)),
{
    let ghost sv = strs_view(names@);
    let mut out: Vec<char> = Vec::new();
    let mut i: usize = 0;
    while i < names.len()
        invariant
            i <= names@.len(),
            sv == strs_view(names@),
            out@ == join_comma(sv.subrange(0, i as int)),
        decreases names.len() - i,
    {
        proof {
            assert(sv.subrange(0, i + 1).drop_last() =~= sv.subrange(0, i as int));
        }
        if i > 0 {
            out.push(',');
            out.push(' ');
        }
        append_chars(&mut out, names[i].as_slice());
        proof {
            reveal_strlit(", ");
            if i == 0 {
                assert(sv.subrange(0, 1) =~= seq![sv[0]]);
                assert(out@ =~= join_comma(sv.subrange(0, 1)));
            } else {
                assert(out@ =~= join_comma(sv.subrange(0, i + 1)));
            }
        }
        i = i + 1;
    }
    proof {
        assert(sv.subrange(0, names@.len() as int) =~= sv);
    }
    out
}

/// The first index of `ts` whose toggle is named `name`.
fn find_toggle_named(ts: &Vec<(Toggle, bool)>, name: &str) -> (r: Option<usize>)
    ensures
        r matches Some(j) ==> toggle_named(toggles_plain(ts@), name@) == Some(j as int),
        r is None ==> toggle_named(toggles_plain(ts@), name@) is None,
        r matches Some(j) ==> j < ts@.len(),
{
    let ghost tp = toggles_plain(ts@);
    let mut j: usize = 0;
    while j < ts.len()
        invariant
            j <= ts@.len(),
            tp == toggles_plain(ts@),
            forall|l: int| 0 <= l < j ==> (#[trigger] tp[l]).0 != name@,
        decreases ts.len() - j,
    {
        if str_is(ts[j].0.name.as_str(), name) {
            proof {
                let c = choose|x: int| 0 <= x < tp.len() && (#[trigger] tp[x]).0 == name@
                    && forall|l: int| 0 <= l < x ==> (#[trigger] tp[l]).0 != name@;
                assert(tp[j as int].0 == name@);
                assert(c == j) by {
                    if c < j {
                        assert(tp[c].0 != name@);
                    } else if c > j {
                        assert(tp[j as int].0 != name@);
                    }
                }
            }
            return Some(j);
        }
        j = j + 1;
    }
    None
}

/// Applies the command line's `(name, value)` toggle requests in order
/// (the last request for a name wins): `wrap`, `numbers` and `zoom` set
/// the view settings, a name among `source_toggles` sets that toggle (and
/// records the write to make), and a name only some other source type has
/// is ignored. A name no source type has is refused, with the message
/// listing every valid name.
pub fn apply_toggle_overrides(source_toggles: Vec<(Toggle, bool)>, overrides: &[(String, bool)]) -> (r: Result<ToggleSetup, String>)
    ensures
        ({
            let init = SetupView { wrap: false, numbers: false, zoom: false, toggles: toggles_plain(source_toggles@), writes: Seq::empty() };
            match overrides_fold(init, overrides@.map_values(|p: (String, bool)| (p.0@, p.1))) {
                Ok(sv) => r matches Ok(s) && setup_view(s) == sv,
                Err(name) => r matches Err(m) && exists|sorted: Seq<Seq<char>>| sorted_strs(sorted)
                    && sorted.to_set() == valid_toggle_names() && m@ == unknown_toggle_message(name, sorted),
            }
        }),
{
    let ghost ovs = overrides@.map_values(|p: (String, bool)| (p.0@, p.1));
    let ghost init = SetupView { wrap: false, numbers: false, zoom: false, toggles: toggles_plain(source_toggles@), writes: Seq::empty() };
    let mut st = ToggleSetup {
        wrap_preview: false,
        show_line_numbers: false,
        zoom_preview: false,
        source_toggles,
        writes: Vec::new(),
    };
    proof {
        assert(setup_view(st).writes =~= Seq::<(Seq<char>, bool)>::empty());
        assert(setup_view(st) == init);
        assert(ovs.subrange(0, 0) =~= Seq::<(Seq<char>, bool)>::empty());
    }
    let mut i: usize = 0;
    while i < overrides.len()
        invariant
            i <= overrides@.len(),
            ovs == overrides@.map_values(|p: (String, bool)| (p.0@, p.1)),
            init == (SetupView { wrap: false, numbers: false, zoom: false, toggles: toggles_plain(source_toggles@), writes: Seq::empty() }),
            overrides_fold(init, ovs.subrange(0, i as int)) == Ok::<SetupView, Seq<char>>(setup_view(st)),
        decreases overrides.len() - i,
    {
        let name = overrides[i].0.as_str();
        let value = overrides[i].1;
        proof {
            assert(ovs.subrange(0, i + 1).drop_last() =~= ovs.subrange(0, i as int));
            assert(ovs.subrange(0, i + 1).last() == (name@, value));
        }
        if !apply_override(&mut st, name, value) {
            let m = unknown_toggle_error(name);
            proof {
                assert(exists|sorted: Seq<Seq<char>>| sorted_strs(sorted) && sorted.to_set() == valid_toggle_names()
                    && m@ == unknown_toggle_message(name@, sorted));
                assert(overrides_fold(init, ovs.subrange(0, i + 1)) == Err::<SetupView, Seq<char>>(name@));
                lemma_fold_err_sticks(init, ovs, i + 1, name@);
            }
            return Err(m);
        }
        i = i + 1;
    }
    proof {
        assert(ovs.subrange(0, overrides@.len() as int) =~= ovs);
    }
    Ok(st)
}

/// One request applied to `st` (see `override_step`); false, with `st`
/// untouched, when no source type knows the name.
fn apply_override(st: &mut ToggleSetup, name: &str, value: bool) -> (ok: bool)
    ensures
        ok ==> override_step(setup_view(*old(st)), name@, value) == Some(setup_view(*final(st))),
        !ok ==> override_step(setup_view(*old(st)), name@, value) is None,
{
    let ghost pre = setup_view(*st);
    if str_is(name, "wrap") {
        st.wrap_preview = value;
        return true;
    }
    if str_is(name, "numbers") {
        st.show_line_numbers = value;
        return true;
    }
    if str_is(name, "zoom") {
        st.zoom_preview = value;
        return true;
    }
    let found = find_toggle_named(&st.source_toggles, name);
    match found {
        Some(j) => {
            let key = st.source_toggles[j].0.key;
            let t = Toggle { name: String::from_str(name), key };
            let t2 = Toggle { name: String::from_str(name), key };
            st.source_toggles.set(j, (t, value));
            st.writes.push((t2, value));
            proof {
                assert(toggles_plain(st.source_toggles@) =~= pre.toggles.update(j as int, (name@, pre.toggles[j as int].1, value)));
                assert(setup_view(*st).writes =~= pre.writes.push((name@, value)));
            }
            true
        },
        None => toggle_known(name),
    }
}

/// The message refusing a toggle name no source type knows.
fn unknown_toggle_error(name: &str) -> (m: String)
    ensures
        exists|sorted: Seq<Seq<char>>| sorted_strs(sorted) && sorted.to_set() == valid_toggle_names()
            && m@ == unknown_toggle_message(name@, sorted),
{
    let sorted = sorted_valid_toggle_names();
    let mut msg: Vec<char> = Vec::new();
    let head = chars_of("unknown toggle ");
    append_chars(&mut msg, head.as_slice());
    let d = debug_str(name);
    let dc = chars_of(d.as_str());
    append_chars(&mut msg, dc.as_slice());
    let mid = chars_of(" (valid toggles: ");
    append_chars(&mut msg, mid.as_slice());
    let joined = join_names(&sorted);
    append_chars(&mut msg, joined.as_slice());
    msg.push(')');
    proof {
        reveal_strlit(")");
        assert(msg@ =~= unknown_toggle_message(name@, strs_view(sorted@)));
        let sv = strs_view(sorted@);
        assert(sorted_strs(sv) && sv.to_set() == valid_toggle_names() && msg@ == unknown_toggle_message(name@, sv));
    }
    string_of(msg.as_slice())
}

/// Once a request is refused, the requests after it change nothing.
pub proof fn lemma_fold_err_sticks(st: SetupView, ovs: Seq<(Seq<char>, bool)>, k: int, name: Seq<char>)
    requires
        0 <= k <= ovs.len(),
        overrides_fold(st, ovs.subrange(0, k)) == Err::<SetupView, Seq<char>>(name),
    ensures
        overrides_fold(st, ovs) == Err::<SetupView, Seq<char>>(name),
    decreases ovs.len() - k,
{
    if k < ovs.len() {
        assert(ovs.subrange(0, k + 1).drop_last() =~= ovs.subrange(0, k));
        lemma_fold_err_sticks(st, ovs, k + 1, name);
    } else {
        assert(ovs.subrange(0, k) =~= ovs);
    }
}

/// Every toggle of `ty` with its value in `state`.
pub fn load_source_toggles(ty: &NodeSourceType, state: &ToggleState) -> (v: Vec<(Toggle, bool)>)
    ensures
        v@.len() == ty.toggles@.len(),
        forall|i: int| 0 <= i < v@.len() ==> (#[trigger] v@[i]).0.name@ == ty.toggles@[i].name@
            && v@[i].0.key == ty.toggles@[i].key
            && v@[i].1 == crate::registry::spec_get_toggle(*state, ty.toggles@[i].name@),
{
    let mut v: Vec<(Toggle, bool)> = Vec::new();
    let mut i: usize = 0;
    while i < ty.toggles.len()
        invariant
            i <= ty.toggles@.len(),
            v@.len() == i,
            forall|k: int| 0 <= k < i ==> (#[trigger] v@[k]).0.name@ == ty.toggles@[k].name@
                && v@[k].0.key == ty.toggles@[k].key
                && v@[k].1 == crate::registry::spec_get_toggle(*state, ty.toggles@[k].name@),
        decreases ty.toggles.len() - i,
    {
        let t = &ty.toggles[i];
        let value = match ty.get_toggle(state, t) {
            Ok(b) => b,
            Err(_) => {
                proof {
                    assert(ty.view().toggles[i as int].0 == t.name@);
                }
                false
            },
        };
        v.push((Toggle { name: t.name.clone(), key: t.key }, value));
        i = i + 1;
    }
    v
}

/// The browser's state right after startup, before the first preview is
/// asked for: a single column, the toggles as set up, the toast `msg`.
pub open spec fn start_view(root_entry: Entry, setup: ToggleSetup, columns: Seq<Column>, msg: Option<Seq<char>>, now: u64) -> AppView {
    with_message(AppView {
        epoch: 0,
        root_entry,
        source_toggles: setup.source_toggles@,
        wrap_preview: setup.wrap_preview,
        show_line_numbers: setup.show_line_numbers,
        zoom_preview: setup.zoom_preview,
        columns,
        preview: Seq::empty(),
        override_numbers_off: false,
        preview_loading: false,
        loading_shows_at: None,
        preview_focused: false,
        preview_scroll: 0,
        scroll_restore: None,
        viewport_height: 0,
        viewport_width: 0,
        memory: Seq::empty(),
        message: None,
        message_expires_at: None,
        should_quit: false,
        pending_g: false,
        toggles_menu_open: false,
    }, msg, now)
}

impl App {
    /// The browser at startup: the root node's entry, the toggles as the
    /// command line set them up, and the listing `result` of the start
    /// node `start` (fetched once those toggles are in effect) as its one
    /// column — a failed listing leaves the column empty and raises a
    /// toast. The first preview is asked for at once.
    pub fn new(root_entry: Entry, setup: ToggleSetup, start: Vec<String>, result: Result<Vec<Entry>, SourceError>, now: u64) -> (r: (App, Vec<AppAction>))
        ensures
            r.0.wf(),
            ({
                let n = r.0.view();
                &&& n.columns.len() == 1
                &&& column_from(n.columns[0], start, result, Seq::empty())
                &&& r.1@.len() <= 1
                &&& dispatched(start_view(root_entry, setup, n.columns, column_error(start@, result), now), n, false, false, now, one_act(r.1@))
            }),
    {
        let ghost setup0 = setup;
        let memory: Vec<(Vec<String>, String)> = Vec::new();
        proof {
            assert(memory_view(memory@) =~= Seq::<(Seq<Seq<char>>, Seq<char>)>::empty());
        }
        let (col, err) = column_from_result(&memory, start, result);
        let mut columns: Vec<Column> = Vec::new();
        columns.push(col);
        let mut app = App {
            epoch: 0,
            root_entry,
            source_toggles: setup.source_toggles,
            wrap_preview: setup.wrap_preview,
            show_line_numbers: setup.show_line_numbers,
            zoom_preview: setup.zoom_preview,
            columns,
            preview: SanitizedText::new(),
            preview_override_disable_line_numbers: false,
            preview_loading: false,
            loading_shows_at: None,
            preview_cancel: None,
            preview_focused: false,
            preview_scroll: 0,
            scroll_restore: None,
            preview_viewport_height: 0,
            preview_viewport_width: 0,
            cursor_memory: memory,
            message: None,
            message_expires_at: None,
            should_quit: false,
            pending_g: false,
            toggles_menu_open: false,
        };
        proof {
            assert(app.view().preview =~= Seq::<Seq<SpanView>>::empty());
            assert forall|k: int| 0 <= k < app.view().columns.len() implies #[trigger] col_ok(app.view().columns[k]) by {
                assert(k == 0);
            }
        }
        app.set_message(err, now);
        proof {
            assert(app.view() == start_view(root_entry, setup0, app.view().columns, column_error(start@, result), now));
        }
        let a = app.dispatch_preview(false, false, now);
        let acts = opt_vec(a);
        (app, acts)
    }

    /// The stack of columns, first to deepest.
    pub fn columns(&self) -> (r: &Vec<Column>)
        ensures
            r@ == self.view().columns,
    {
        &self.columns
    }

    /// The preview shown.
    pub fn preview(&self) -> (r: &SanitizedText)
        ensures
            r.view() == self.view().preview,
    {
        &self.preview
    }

    /// The source's toggles with their values.
    pub fn source_toggles(&self) -> (r: &Vec<(Toggle, bool)>)
        ensures
            r@ == self.view().source_toggles,
    {
        &self.source_toggles
    }

    /// The toast, if one is showing.
    pub fn message(&self) -> (r: Option<&String>)
        ensures
            match r {
                Some(m) => self.view().message == Some(m@),
                None => self.view().message is None,
            },
    {
        match &self.message {
            Some(m) => Some(m),
            None => None,
        }
    }

    pub fn wrap_preview(&self) -> (b: bool)
        ensures
            b == self.view().wrap_preview,
    {
        self.wrap_preview
    }

    pub fn show_line_numbers(&self) -> (b: bool)
        ensures
            b == self.view().show_line_numbers,
    {
        self.show_line_numbers
    }

    pub fn zoom_preview(&self) -> (b: bool)
        ensures
            b == self.view().zoom_preview,
    {
        self.zoom_preview
    }

    pub fn preview_focused(&self) -> (b: bool)
        ensures
            b == self.view().preview_focused,
    {
        self.preview_focused
    }

    pub fn preview_scroll(&self) -> (s: u16)
        ensures
            s == self.view().preview_scroll,
    {
        self.preview_scroll
    }

    pub fn should_quit(&self) -> (b: bool)
        ensures
            b == self.view().should_quit,
    {
        self.should_quit
    }

    /// The epoch fetch results must carry to be applied.
    pub fn epoch(&self) -> (e: u64)
        ensures
            e == self.view().epoch,
    {
        self.epoch
    }

    pub fn pending_g(&self) -> (b: bool)
        ensures
            b == self.view().pending_g,
    {
        self.pending_g
    }

    pub fn toggles_menu_open(&self) -> (b: bool)
        ensures
            b == self.view().toggles_menu_open,
    {
        self.toggles_menu_open
    }

    /// Records the preview pane's text area as the last render measured it.
    pub fn set_viewport(&mut self, height: u16, width: u16)
        ensures
            final(self).view() == (AppView { viewport_height: height, viewport_width: width, ..old(self).view() }),
    {
        self.preview_viewport_height = height;
        self.preview_viewport_width = width;
    }

    /// Records the first row the last render showed of the column `col`.
    pub fn set_list_offset(&mut self, col: usize, offset: usize)
        requires
            old(self).wf(),
            col < old(self).view().columns.len(),
        ensures
            final(self).wf(),
            final(self).view() == (AppView {
                columns: old(self).view().columns.update(col as int, Column { list_offset: offset, ..old(self).view().columns[col as int] }),
                ..old(self).view()
            }),
    {
        let ghost o = self.view();
        let mut cols: Vec<Column> = Vec::new();
        std::mem::swap(&mut cols, &mut self.columns);
        let mut tail: Vec<Column> = cols.split_off(col);
        let mut c = tail.remove(0);
        c.list_offset = offset;
        tail.insert(0, c);
        cols.append(&mut tail);
        self.columns = cols;
        proof {
            assert(self.view().columns =~= o.columns.update(col as int, Column { list_offset: offset, ..o.columns[col as int] }));
            assert forall|k: int| 0 <= k < self.view().columns.len() implies #[trigger] col_ok(self.view().columns[k]) by {
                assert(col_ok(o.columns[k]));
            }
        }
    }
}

/// The cursor memory reads back what was last written for a column, and
/// writing one column's entry leaves every other column's as it was.
pub proof fn lemma_memory_put_lookup(m: Seq<(Seq<Seq<char>>, Seq<char>)>, k: Seq<Seq<char>>, name: Seq<char>)
    requires
        keys_distinct(m),
    ensures
        keys_distinct(memory_put(m, k, name)),
        memory_lookup(memory_put(m, k, name), k) == Some(name),
        forall|k2: Seq<Seq<char>>| k2 != k ==> #[trigger] memory_lookup(memory_put(m, k, name), k2) == memory_lookup(m, k2),
{
    let p = memory_put(m, k, name);
    if exists|i: int| 0 <= i < m.len() && #[trigger] m[i].0 == k {
        let i = choose|i: int| 0 <= i < m.len() && #[trigger] m[i].0 == k;
        assert(p == m.update(i, (k, name)));
        assert forall|a: int, b: int| 0 <= a < b < p.len() implies #[trigger] p[a].0 != #[trigger] p[b].0 by {
            assert(m[a].0 != m[b].0);
        }
        lemma_lookup_at(p, i, k);
        assert forall|k2: Seq<Seq<char>>| k2 != k implies #[trigger] memory_lookup(p, k2) == memory_lookup(m, k2) by {
            if exists|j: int| 0 <= j < m.len() && #[trigger] m[j].0 == k2 {
                let j = choose|j: int| 0 <= j < m.len() && #[trigger] m[j].0 == k2;
                assert(p[j].0 == k2);
                lemma_lookup_at(m, j, k2);
                lemma_lookup_at(p, j, k2);
            } else {
                assert(!exists|j: int| 0 <= j < p.len() && #[trigger] p[j].0 == k2) by {
                    if exists|j: int| 0 <= j < p.len() && #[trigger] p[j].0 == k2 {
                        let j = choose|j: int| 0 <= j < p.len() && #[trigger] p[j].0 == k2;
                        assert(m[j].0 == k2);
                    }
                }
            }
        }
    } else {
        assert(p == m.push((k, name)));
        assert forall|a: int, b: int| 0 <= a < b < p.len() implies #[trigger] p[a].0 != #[trigger] p[b].0 by {
            if b < m.len() {
                assert(m[a].0 != m[b].0);
            } else {
                assert(p[a].0 == m[a].0);
            }
        }
        lemma_lookup_at(p, m.len() as int, k);
        assert forall|k2: Seq<Seq<char>>| k2 != k implies #[trigger] memory_lookup(p, k2) == memory_lookup(m, k2) by {
            if exists|j: int| 0 <= j < m.len() && #[trigger] m[j].0 == k2 {
                let j = choose|j: int| 0 <= j < m.len() && #[trigger] m[j].0 == k2;
                assert(p[j].0 == k2);
                lemma_lookup_at(m, j, k2);
                lemma_lookup_at(p, j, k2);
            } else {
                assert(!exists|j: int| 0 <= j < p.len() && #[trigger] p[j].0 == k2) by {
                    if exists|j: int| 0 <= j < p.len() && #[trigger] p[j].0 == k2 {
                        let j = choose|j: int| 0 <= j < p.len() && #[trigger] p[j].0 == k2;
                        if j < m.len() {
                            assert(m[j].0 == k2);
                        }
                    }
                }
            }
        }
    }
}

/// The cursor is found again by name: once an entry is selected in a
/// column, a reload of that column whose listing still holds an entry of
/// that name puts the cursor on (the first entry of) that name, wherever
/// it now stands.
pub proof fn lemma_selection_found_again(o: AppView, idx: usize, es: Seq<Entry>)
    requires
        view_ok(o),
        idx < focused(o).entries@.len(),
        es.len() <= usize::MAX,
        exists|j: int| 0 <= j < es.len() && (#[trigger] es[j]).name@ == focused(o).entries@[idx as int].name@,
    ensures
        ({
            let n = with_selection(o, idx);
            let r = resolved_index(n.memory, ids(focused(o).id@), es) as int;
            &&& 0 <= r < es.len()
            &&& es[r].name@ == focused(o).entries@[idx as int].name@
            &&& forall|l: int| 0 <= l < r ==> (#[trigger] es[l]).name@ != focused(o).entries@[idx as int].name@
        }),
{
    let name = focused(o).entries@[idx as int].name@;
    let k = ids(focused(o).id@);
    lemma_memory_put_lookup(o.memory, k, name);
    let j0 = choose|j: int| 0 <= j < es.len() && (#[trigger] es[j]).name@ == name;
    lemma_first_named(es, name, j0);
    let c = choose|j: int| 0 <= j < es.len() && #[trigger] es[j].name@ == name
        && forall|l: int| 0 <= l < j ==> #[trigger] es[l].name@ != name;
    assert(0 <= c < es.len() && es[c].name@ == name);
    assert(memory_lookup(with_selection(o, idx).memory, k) == Some(name));
    assert(resolved_index(with_selection(o, idx).memory, k, es) as int == c);
}

/// When some entry of `es` is named `name`, there is a first one.
pub proof fn lemma_first_named(es: Seq<Entry>, name: Seq<char>, j0: int)
    requires
        0 <= j0 < es.len(),
        es[j0].name@ == name,
    ensures
        exists|j: int| 0 <= j < es.len() && #[trigger] es[j].name@ == name
            && forall|l: int| 0 <= l < j ==> #[trigger] es[l].name@ != name,
    decreases j0,
{
    if exists|l: int| 0 <= l < j0 && #[trigger] es[l].name@ == name {
        let l = choose|l: int| 0 <= l < j0 && #[trigger] es[l].name@ == name;
        lemma_first_named(es, name, l);
    } else {
        assert(forall|l: int| 0 <= l < j0 ==> #[trigger] es[l].name@ != name);
    }
}

/// A fetch result tagged with an epoch other than the current one leaves
/// the browser exactly as it was and asks for nothing.
pub proof fn lemma_stale_update_ignored(o: AppView, n: AppView, update: AppUpdate, now: u64, acts: Seq<AppAction>)
    requires
        applied(o, n, update, now, acts),
        match update {
            AppUpdate::PreviewLoaded { epoch, .. } => epoch != o.epoch,
            AppUpdate::ColumnLoaded { epoch, .. } => epoch != o.epoch,
            AppUpdate::ColumnsReloaded { epoch, .. } => epoch != o.epoch,
        },
    ensures
        n == o,
        acts.len() == 0,
{
}

/// The first column is a hard boundary: going up never closes it.
pub proof fn lemma_go_up_keeps_first_column(o: AppView, n: AppView, now: u64, acts: Seq<AppAction>)
    requires
        view_ok(o),
        went_up(o, n, now, acts),
    ensures
        n.columns.len() >= 1,
        n.columns[0] == o.columns[0],
{
}

/// Going up right after entering a directory undoes it: the column stack
/// (with every cursor in it) is back as it was, focus is on the columns,
/// the cursor is on the directory that was entered, and nothing was
/// forgotten of the cursors remembered.
pub proof fn lemma_go_up_undoes_enter(o: AppView, m: AppView, n: AppView, now: u64, a1: Seq<AppAction>, a2: Seq<AppAction>)
    requires
        view_ok(o),
        selected_entry(o) matches Some(e) && e.is_dir,
        entered(o, m, a1),
        went_up(m, n, now, a2),
    ensures
        n.columns == o.columns,
        !n.preview_focused,
        n.memory == o.memory,
        selected_entry(n) == selected_entry(o),
{
    assert(m.columns.len() >= 2);
    assert(popped(with_message(m, None, now)).columns =~= o.columns);
}

proof fn lemma_first_key(ts: Seq<(Toggle, bool)>, key: char, j0: int)
    requires
        0 <= j0 < ts.len(),
        ts[j0].0.key == key,
    ensures
        exists|j: int| 0 <= j < ts.len() && (#[trigger] ts[j]).0.key == key
            && forall|l: int| 0 <= l < j ==> (#[trigger] ts[l]).0.key != key,
    decreases j0,
{
    if exists|l: int| 0 <= l < j0 && (#[trigger] ts[l]).0.key == key {
        let l = choose|l: int| 0 <= l < j0 && (#[trigger] ts[l]).0.key == key;
        lemma_first_key(ts, key, l);
    } else {
        assert(forall|l: int| 0 <= l < j0 ==> (#[trigger] ts[l]).0.key != key);
    }
}

/// Flipping a source toggle twice with the same key puts every source
/// toggle back as it was.
pub proof fn lemma_toggle_twice_restores(o: AppView, m: AppView, n: AppView, key: char, a1: Seq<AppAction>, a2: Seq<AppAction>)
    requires
        source_toggled(o, m, key, a1),
        source_toggled(m, n, key, a2),
    ensures
        n.source_toggles == o.source_toggles,
{
    let ot = o.source_toggles;
    let mt = m.source_toggles;
    if exists|x: int| 0 <= x < ot.len() && (#[trigger] ot[x]).0.key == key {
        let x0 = choose|x: int| 0 <= x < ot.len() && (#[trigger] ot[x]).0.key == key;
        lemma_first_key(ot, key, x0);
        let j = choose|x: int| 0 <= x < ot.len() && (#[trigger] ot[x]).0.key == key
            && forall|l: int| 0 <= l < x ==> (#[trigger] ot[l]).0.key != key;
        assert(toggle_with_key(ot, key) == Some(j));
        assert(mt == ot.update(j, (ot[j].0, !ot[j].1)));
        assert(mt[j].0.key == key);
        lemma_first_key(mt, key, j);
        let j2 = choose|x: int| 0 <= x < mt.len() && (#[trigger] mt[x]).0.key == key
            && forall|l: int| 0 <= l < x ==> (#[trigger] mt[l]).0.key != key;
        assert(toggle_with_key(mt, key) == Some(j2));
        assert(j2 == j) by {
            if j2 < j {
                assert(mt[j2] == ot[j2]);
            } else if j2 > j {
                assert(mt[j].0.key == key);
            }
        }
        assert(mt.update(j, (mt[j].0, !mt[j].1)) =~= ot);
    }
}

/// Scrolling keeps the preview's scroll within the preview.
pub proof fn lemma_scroll_within(scroll: u16, delta: i32, max: u16)
    ensures
        scrolled(scroll, delta, max) <= max,
{
}

/// A scroll position carried over to a new preview lies within it.
pub proof fn lemma_restored_scroll_within(scroll: u16, max: u16, new_max: u16)
    ensures
        restored_scroll(scroll, max, new_max) <= new_max,
{
    if max != 0 {
        let s: nat = if scroll < max { scroll as nat } else { max as nat };
        if s != 0 {
            let e = ratio_exp(s, max as nat, 0);
            let q = ratio_mantissa(s, max as nat, e);
            let w = round_to_f64(q * (new_max as nat), 1);
            lemma_two_to_pos(e);
            let r = (2 * w + two_to(e)) / (2 * two_to(e));
            assert(r >= 0);
        }
    }
}

/// `g` only jumps to the top on the second press in a row.
pub proof fn lemma_gg(focused: bool)
    ensures
        spec_key_command(KeyInput::Char { c: 'g', ctrl: false }, focused, false) == KeyCommand::AwaitSecondG,
        spec_key_command(KeyInput::Char { c: 'g', ctrl: false }, focused, true)
            == (if focused { KeyCommand::ScrollTop } else { KeyCommand::SelectFirst }),
{
}

} // verus!
