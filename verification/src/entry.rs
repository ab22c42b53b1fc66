//! One listed node of a browsable tree, and how a list of them renders as
//! preview text: the shared per-entry label styling used both by the
//! column listing and by a directory's preview.

use vstd::prelude::*;

use crate::command::Command;
use crate::sanitize::{SanitizedText, sanitize_line, spec_sanitize_lines};
use crate::style::{Color, Line, Span, SpanView, Style, fg_style, lines_view, plain_style};
use crate::text::{chars_of, string_of};

verus! {

/// One child of a node: its display name, the id that addresses it, its
/// kind, the commands suggested on it, and the Nerd Font glyph (and its
/// color) a source wants shown beside it, if any.
#[derive(Clone, Debug)]
pub struct Entry {
    pub name: String,
    pub id: Vec<String>,
    pub is_dir: bool,
    pub is_link: bool,
    pub suggested_commands: Vec<Command>,
    pub nerd_icon: Option<char>,
    pub nerd_icon_color: Option<Color>,
}

/// Nerd Font glyph for a directory-like node, whatever its name. It has no
/// color of its own, so it takes the color of the label beside it.
pub const FOLDER_ICON: char = '\u{f07b}';

/// The icon span for an entry or a title, as `nerd_icon_span` builds it.
pub open spec fn spec_nerd_icon_span(nerd_font: bool, icon: Option<char>, color: Option<Color>, fallback_color: Option<Color>, pad_when_missing: bool) -> Option<SpanView> {
    if !nerd_font {
        None
    } else if icon is None && !pad_when_missing {
        None
    } else {
        let text = match icon {
            Some(c) => seq![c, ' '],
            None => seq![' ', ' '],
        };
        let style = match (if color is Some { color } else { fallback_color }) {
            Some(c) => fg_style(c),
            None => plain_style(),
        };
        Some(SpanView { content: text, style })
    }
}

/// The Nerd Font icon prefix for an entry or window title: `None` when
/// icons are off. An icon with no color of its own takes `fallback_color`;
/// a missing icon is padded with two blanks when `pad_when_missing` (so
/// names line up in a listing) and omitted otherwise.
pub fn nerd_icon_span(nerd_font: bool, icon: Option<char>, color: Option<Color>, fallback_color: Option<Color>, pad_when_missing: bool) -> (r: Option<Span>)
    ensures
        match r {
            Some(s) => spec_nerd_icon_span(nerd_font, icon, color, fallback_color, pad_when_missing) == Some(s.view()),
            None => spec_nerd_icon_span(nerd_font, icon, color, fallback_color, pad_when_missing) is None,
        },
{
    if !nerd_font {
        return None;
    }
    let mut text: Vec<char> = Vec::new();
    match icon {
        Some(c) => {
            text.push(c);
            text.push(' ');
        },
        None => {
            if !pad_when_missing {
                return None;
            }
            text.push(' ');
            text.push(' ');
        },
    }
    let chosen = match color {
        Some(c) => Some(c),
        None => fallback_color,
    };
    let style = match chosen {
        Some(c) => Style::new().fg(c),
        None => Style::new(),
    };
    proof {
        assert(text@ =~= (match icon { Some(c) => seq![c, ' '], None => seq![' ', ' '] }));
    }
    Some(Span::styled(string_of(text.as_slice()), style))
}

/// The label and style of an entry: a directory's name with a trailing
/// `/` in bold cyan, a symlink's with a trailing `@` in magenta, anything
/// else's name as is, unstyled.
pub open spec fn spec_entry_label(name: Seq<char>, is_dir: bool, is_link: bool) -> (Seq<char>, Style) {
    if is_dir {
        (name.push('/'), Style { bold: true, ..fg_style(Color::Cyan) })
    } else if is_link {
        (name.push('@'), fg_style(Color::Magenta))
    } else {
        (name, plain_style())
    }
}

/// The label (name plus directory/link decoration) and style for one
/// entry, shared by the column listing and the directory preview so both
/// render entries the same way.
pub fn entry_label(entry: &Entry) -> (r: (String, Style))
    ensures
        (r.0@, r.1) == spec_entry_label(entry.name@, entry.is_dir, entry.is_link),
{
    if entry.is_dir {
        let mut s = entry.name.clone();
        s.append("/");
        proof {
            reveal_strlit("/");
            assert(s@ =~= entry.name@.push('/'));
        }
        (s, Style::new().fg(Color::Cyan).bold())
    } else if entry.is_link {
        let mut s = entry.name.clone();
        s.append("@");
        proof {
            reveal_strlit("@");
            assert(s@ =~= entry.name@.push('@'));
        }
        (s, Style::new().fg(Color::Magenta))
    } else {
        (entry.name.clone(), Style::new())
    }
}

/// One preview line for an entry: its icon span (when icons are on) and
/// then its sanitized, styled label.
pub open spec fn spec_entry_line(name: Seq<char>, is_dir: bool, is_link: bool, icon: Option<char>, color: Option<Color>, nerd_font: bool) -> Seq<SpanView> {
    let (label, style) = spec_entry_label(name, is_dir, is_link);
    let spans = sanitize_line(label, style);
    match spec_nerd_icon_span(nerd_font, icon, color, style.fg, true) {
        Some(sp) => seq![sp] + spans,
        None => spans,
    }
}

pub open spec fn entry_line_of(e: Entry, nerd_font: bool) -> Seq<SpanView> {
    spec_entry_line(e.name@, e.is_dir, e.is_link, e.nerd_icon, e.nerd_icon_color, nerd_font)
}

/// Builds one preview line for `entry`: its sanitized, styled label,
/// preceded by its Nerd Font icon when `nerd_font` is on. An icon with no
/// color of its own takes the label's color.
pub fn entry_line(entry: &Entry, nerd_font: bool) -> (l: Line)
    ensures
        l.view() == entry_line_of(*entry, nerd_font),
{
    let (label, style) = entry_label(entry);
    let mut line = SanitizedText::from_label(label.as_str(), style);
    match nerd_icon_span(nerd_font, entry.nerd_icon, entry.nerd_icon_color, style.fg, true) {
        Some(icon) => {
            let ghost before = line.view();
            line.spans.insert(0, icon);
            proof {
                assert(line.view() =~= seq![icon.view()] + before);
            }
        },
        None => {},
    }
    line
}

/// A listing as a preview: one line per entry, or a dim `empty directory`
/// placeholder when there are none.
pub open spec fn spec_dir_preview(entries: Seq<Entry>, nerd_font: bool) -> Seq<Seq<SpanView>> {
    if entries.len() == 0 {
        spec_sanitize_lines("empty directory"@, fg_style(Color::DarkGray), true)
    } else {
        Seq::new(entries.len(), |i: int| entry_line_of(entries[i], nerd_font))
    }
}

/// Formats `entries` as a preview, as `spec_dir_preview` states.
pub fn format_dir_preview(entries: &[Entry], nerd_font: bool) -> (t: SanitizedText)
    ensures
        t.view() == spec_dir_preview(entries@, nerd_font),
        entries@.len() > 0 ==> t.view().len() == entries@.len() && forall|i: int| 0 <= i < entries@.len() ==> #[trigger] t.view()[i] == entry_line_of(entries@[i], nerd_font),
{
    if entries.len() == 0 {
        return SanitizedText::from_text("empty directory", Style::new().fg(Color::DarkGray));
    }
    let mut lines: Vec<Line> = Vec::new();
    let mut i: usize = 0;
    while i < entries.len()
        invariant
            i <= entries@.len(),
            lines@.len() == i,
            forall|k: int| 0 <= k < i ==> #[trigger] lines@[k].view() == entry_line_of(entries@[k], nerd_font),
        decreases entries.len() - i,
    {
        lines.push(entry_line(&entries[i], nerd_font));
        i = i + 1;
    }
    let t = SanitizedText::assume_sanitized(lines);
    proof {
        assert(t.view() =~= spec_dir_preview(entries@, nerd_font));
    }
    t
}

} // verus!
