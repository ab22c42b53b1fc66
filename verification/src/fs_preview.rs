//! What the filesystem browser previews besides a file's text: its
//! metadata view (the `meta` toggle) and the error and placeholder lines
//! shown in place of a preview.

use vstd::prelude::*;

use crate::error::SourceError;
use crate::fs::path_file_name;
use crate::fs_format::{format_permissions, format_time, human_size, spec_format_permissions, spec_format_time, spec_human_size};
use crate::sanitize::{SanitizedText, sanitize_line, spec_sanitize_lines};
use crate::style::{Color, Line, Span, SpanView, Style, fg_style, lines_view, plain_style};
use crate::text::{append_chars, chars_of, decimal, decimal_chars, string_of};
use crate::vfs::Metadata;

verus! {

/// `s` left-aligned in a field of at least `w` characters.
pub open spec fn pad_right(s: Seq<char>, w: nat) -> Seq<char> {
    if s.len() >= w { s } else { s + Seq::new((w - s.len()) as nat, |i: int| ' ') }
}

/// A `key: value` preview line: the fixed key, dimmed and padded to a
/// column, then the value, sanitized and drawn in `style`.
pub open spec fn spec_meta_line(key: Seq<char>, value: Seq<char>, style: Style) -> Seq<SpanView> {
    seq![SpanView { content: pad_right(key, 11) + seq![' '], style: fg_style(Color::DarkGray) }] + sanitize_line(value, style)
}

/// Builds a `key: value` preview line. `key` is one of this module's fixed
/// labels; `value` may come from the filesystem (a symlink target, an odd
/// path), so it is escaped before it reaches the terminal.
pub fn meta_line(key: &str, value: &str, style: Style) -> (l: Line)
    ensures
        l.view() == spec_meta_line(key@, value@, style),
{
    let mut k = chars_of(key);
    let ghost k0 = k@;
    while k.len() < 11
        invariant
            k0.len() < 11 ==> k@ == k0 + Seq::new((k@.len() - k0.len()) as nat, |i: int| ' '),
            k0.len() >= 11 ==> k@ == k0,
            k@.len() >= k0.len(),
            k0.len() < 11 ==> k@.len() <= 11,
        decreases 11 - k.len(),
    {
        k.push(' ');
        proof {
            assert(k@ =~= k0 + Seq::new((k@.len() - k0.len()) as nat, |i: int| ' '));
        }
    }
    proof {
        assert(k@ == pad_right(k0, 11));
    }
    k.push(' ');
    let mut line = SanitizedText::from_label(value, style);
    let ghost rest = line.view();
    let head = Span::styled(string_of(k.as_slice()), Style::new().fg(Color::DarkGray));
    proof {
        assert(k@ =~= pad_right(k0, 11) + seq![' ']);
        assert(head.view() == SpanView { content: pad_right(key@, 11) + seq![' '], style: fg_style(Color::DarkGray) });
    }
    line.spans.insert(0, head);
    proof {
        assert(line.view() =~= seq![head.view()] + rest);
    }
    line
}

/// Text shown in place of a preview that failed: the message, in red.
pub fn error_text(msg: &str) -> (t: SanitizedText)
    ensures
        t.view() == spec_sanitize_lines(msg@, fg_style(Color::Red), true),
{
    SanitizedText::from_text(msg, Style::new().fg(Color::Red))
}

/// A dimmed placeholder message.
pub fn dim_text(msg: &str) -> (t: SanitizedText)
    ensures
        t.view() == spec_sanitize_lines(msg@, fg_style(Color::DarkGray), true),
{
    SanitizedText::from_text(msg, Style::new().fg(Color::DarkGray))
}

/// Everything the metadata preview shows about one path, as gathered from
/// the filesystem: whether the path itself is a symlink, the metadata
/// shown (the target's, or the link's own when the link is broken), the
/// link's target text (or why it could not be read), and — for a
/// directory that could be listed — how many entries it holds.
pub struct MetaFacts {
    pub path: String,
    pub is_link: bool,
    pub meta: Metadata,
    pub broken_link: bool,
    pub link_target: Result<String, String>,
    pub entry_count: Option<usize>,
}

/// The `Type` line's text.
pub open spec fn type_desc(f: MetaFacts) -> Seq<char> {
    if f.is_link {
        match f.link_target {
            Ok(t) => if f.broken_link { "symlink -> "@ + t@ + " (broken)"@ } else { "symlink -> "@ + t@ },
            Err(e) => "symlink (unreadable target: "@ + e@ + ")"@,
        }
    } else if f.meta.is_dir {
        "directory"@
    } else if f.meta.is_file {
        "regular file"@
    } else {
        "other"@
    }
}

/// The `Type` line's style: magenta for a symlink, bold cyan for a
/// directory.
pub open spec fn type_style(f: MetaFacts) -> Style {
    if f.is_link {
        fg_style(Color::Magenta)
    } else if f.meta.is_dir {
        Style { bold: true, ..fg_style(Color::Cyan) }
    } else {
        plain_style()
    }
}

/// The lines for the optional timestamps, in order.
pub open spec fn time_lines(m: Metadata) -> Seq<Seq<SpanView>> {
    (match m.modified { Some(t) => seq![spec_meta_line("Modified"@, spec_format_time(t as int), plain_style())], None => Seq::empty() })
        + (match m.accessed { Some(t) => seq![spec_meta_line("Accessed"@, spec_format_time(t as int), plain_style())], None => Seq::empty() })
        + (match m.created { Some(t) => seq![spec_meta_line("Created"@, spec_format_time(t as int), plain_style())], None => Seq::empty() })
}

/// The metadata preview: name, path, type, then the entry count (for a
/// directory that could be listed) or the size, then permissions and owner
/// where the platform has them, then whichever timestamps are known.
pub open spec fn spec_preview_meta(f: MetaFacts) -> Seq<Seq<SpanView>> {
    head_lines(f) + size_lines(f) + unix_lines(f) + time_lines(f.meta)
}

fn type_desc_exec(f: &MetaFacts) -> (r: (String, Style))
    ensures
        r.0@ == type_desc(*f),
        r.1 == type_style(*f),
{
    if f.is_link {
        let d = match &f.link_target {
            Ok(t) => {
                let mut s = String::from_str("symlink -> ");
                s.append(t.as_str());
                if f.broken_link {
                    s.append(" (broken)");
                }
                s
            },
            Err(e) => {
                let mut s = String::from_str("symlink (unreadable target: ");
                s.append(e.as_str());
                s.append(")");
                s
            },
        };
        (d, Style::new().fg(Color::Magenta))
    } else if f.meta.is_dir {
        (String::from_str("directory"), Style::new().fg(Color::Cyan).bold())
    } else if f.meta.is_file {
        (String::from_str("regular file"), Style::new())
    } else {
        (String::from_str("other"), Style::new())
    }
}

fn time_line(key: &str, t: Option<i64>, lines: &mut Vec<Line>)
    ensures
        lines_view(final(lines)@) == lines_view(old(lines)@) + (match t {
            Some(s) => seq![spec_meta_line(key@, spec_format_time(s as int), plain_style())],
            None => Seq::empty(),
        }),
{
    match t {
        Some(s) => {
            let v = format_time(s);
            lines.push(meta_line(key, v.as_str(), Style::new()));
        },
        None => {},
    }
    proof {
        assert(lines_view(lines@) =~= lines_view(old(lines)@) + (match t {
            Some(s) => seq![spec_meta_line(key@, spec_format_time(s as int), plain_style())],
            None => Seq::empty(),
        }));
    }
}

pub open spec fn head_lines(f: MetaFacts) -> Seq<Seq<SpanView>> {
    let name = match path_file_name(f.path@) { Some(n) => n, None => seq!['/'] };
    seq![
        spec_meta_line("Name"@, name, plain_style()),
        spec_meta_line("Path"@, f.path@, plain_style()),
        spec_meta_line("Type"@, type_desc(f), type_style(f)),
    ]
}

pub open spec fn size_lines(f: MetaFacts) -> Seq<Seq<SpanView>> {
    if f.meta.is_dir {
        match f.entry_count { Some(n) => seq![spec_meta_line("Entries"@, decimal(n as nat), plain_style())], None => Seq::empty() }
    } else {
        seq![spec_meta_line("Size"@, spec_human_size(f.meta.len as nat) + " ("@ + decimal(f.meta.len as nat) + " bytes)"@, plain_style())]
    }
}

pub open spec fn unix_lines(f: MetaFacts) -> Seq<Seq<SpanView>> {
    match f.meta.unix {
        Some(u) => seq![
            spec_meta_line("Permissions"@, spec_format_permissions(u.mode), plain_style()),
            spec_meta_line("Owner"@, "uid="@ + decimal(u.uid as nat) + " gid="@ + decimal(u.gid as nat), plain_style()),
        ],
        None => Seq::empty(),
    }
}

fn push_head(f: &MetaFacts, lines: &mut Vec<Line>)
    ensures
        lines_view(final(lines)@) == lines_view(old(lines)@) + head_lines(*f),
{
    let name = match crate::fs::file_name_of(f.path.as_str()) {
        Some(n) => n,
        None => String::from_str("/"),
    };
    proof {
        reveal_strlit("/");
        assert("/"@ =~= seq!['/']);
        assert(name@ == (match path_file_name(f.path@) { Some(n) => n, None => seq!['/'] }));
    }
    let ghost l0 = lines_view(lines@);
    lines.push(meta_line("Name", name.as_str(), Style::new()));
    lines.push(meta_line("Path", f.path.as_str(), Style::new()));
    let (desc, style) = type_desc_exec(f);
    lines.push(meta_line("Type", desc.as_str(), style));
    proof {
        assert(lines_view(lines@) =~= lines_view(old(lines)@) + head_lines(*f));
    }
}

fn push_size(f: &MetaFacts, lines: &mut Vec<Line>)
    ensures
        lines_view(final(lines)@) == lines_view(old(lines)@) + size_lines(*f),
{
    if f.meta.is_dir {
        match f.entry_count {
            Some(n) => {
                let c = decimal_chars(n as u64);
                let cs = string_of(c.as_slice());
                lines.push(meta_line("Entries", cs.as_str(), Style::new()));
            },
            None => {},
        }
    } else {
        let mut v = human_size(f.meta.len);
        v.append(" (");
        let c = decimal_chars(f.meta.len);
        let cs = string_of(c.as_slice());
        v.append(cs.as_str());
        v.append(" bytes)");
        lines.push(meta_line("Size", v.as_str(), Style::new()));
    }
    proof {
        assert(lines_view(lines@) =~= lines_view(old(lines)@) + size_lines(*f));
    }
}

fn push_unix(f: &MetaFacts, lines: &mut Vec<Line>)
    ensures
        lines_view(final(lines)@) == lines_view(old(lines)@) + unix_lines(*f),
{
    match f.meta.unix {
        Some(u) => {
            let p = format_permissions(u.mode);
            lines.push(meta_line("Permissions", p.as_str(), Style::new()));
            let mut o = String::from_str("uid=");
            let uc = decimal_chars(u.uid as u64);
            let us = string_of(uc.as_slice());
            o.append(us.as_str());
            o.append(" gid=");
            let gc = decimal_chars(u.gid as u64);
            let gs = string_of(gc.as_slice());
            o.append(gs.as_str());
            lines.push(meta_line("Owner", o.as_str(), Style::new()));
        },
        None => {},
    }
    proof {
        assert(lines_view(lines@) =~= lines_view(old(lines)@) + unix_lines(*f));
    }
}

/// The metadata preview for one path, as `spec_preview_meta` states.
pub fn preview_meta(f: &MetaFacts) -> (t: SanitizedText)
    ensures
        t.view() == spec_preview_meta(*f),
{
    let mut lines: Vec<Line> = Vec::new();
    push_head(f, &mut lines);
    push_size(f, &mut lines);
    push_unix(f, &mut lines);
    time_line("Modified", f.meta.modified, &mut lines);
    time_line("Accessed", f.meta.accessed, &mut lines);
    time_line("Created", f.meta.created, &mut lines);
    proof {
        assert(Seq::<Seq<SpanView>>::empty() + head_lines(*f) =~= head_lines(*f));
        assert(lines_view(lines@) =~= spec_preview_meta(*f));
    }
    SanitizedText::assume_sanitized(lines)
}


/// What the metadata preview of `path` reads off what the filesystem said
/// of it: its own metadata (`lstat`, which does not follow a symlink), its
/// target's (`stat`) and the listing of it. The preview
/// describes a symlink by its target's metadata, or by its own — marked
/// broken — when the target cannot be read; the entry count comes from
/// the listing, for a directory that could be listed.
pub open spec fn spec_meta_facts(path: Seq<char>, lstat: Metadata, stat: Result<Metadata, SourceError>,
    listed: Option<usize>) -> (bool, Metadata, bool, Option<usize>) {
    let is_link = lstat.is_symlink;
    let (meta, broken) = if is_link {
        match stat {
            Ok(m) => (m, false),
            Err(_) => (lstat, true),
        }
    } else {
        (lstat, false)
    };
    (is_link, meta, broken, if meta.is_dir { listed } else { None })
}

/// The metadata preview of `path` from what the filesystem said of it:
/// its own metadata (or the error reading it, which is then shown alone),
/// its target's, its link text and how many entries a listing of it gave.
pub fn meta_preview_of(path: &str, lstat: Result<Metadata, SourceError>, stat: Result<Metadata, SourceError>,
    link: Result<String, SourceError>, listed: Option<usize>) -> (t: SanitizedText)
    ensures
        match lstat {
            Err(e) => t.view() == spec_sanitize_lines(e.message@, fg_style(Color::Red), true),
            Ok(l) => exists|f: MetaFacts| {
                let (is_link, meta, broken, count) = spec_meta_facts(path@, l, stat, listed);
                &&& t.view() == #[trigger] spec_preview_meta(f)
                &&& f.path@ == path@ && f.is_link == is_link && f.meta == meta && f.broken_link == broken
                &&& f.entry_count == count
                &&& is_link ==> match (f.link_target, link) {
                    (Ok(a), Ok(b)) => a@ == b@,
                    (Err(a), Err(b)) => a@ == b.message@,
                    _ => false,
                }
            },
        },
{
    let l = match lstat {
        Ok(l) => l,
        Err(e) => return error_text(e.message.as_str()),
    };
    let is_link = l.is_symlink;
    let (meta, broken_link) = if is_link {
        match stat {
            Ok(m) => (m, false),
            Err(_) => (l, true),
        }
    } else {
        (l, false)
    };
    let link_target = match link {
        Ok(t) => Ok(t),
        Err(e) => Err(e.message),
    };
    let entry_count = if meta.is_dir { listed } else { None };
    let f = MetaFacts { path: String::from_str(path), is_link, meta, broken_link, link_target, entry_count };
    let t = preview_meta(&f);
    proof {
        assert(t.view() == spec_preview_meta(f));
    }
    t
}

/// `std::str::from_utf8(bytes)`: the text the bytes encode, or `None`
/// when they are not valid UTF-8.
#[verifier::external_body]
fn str_from_utf8(bytes: &[u8]) -> (r: Option<&str>)
    ensures
        match r {
            Some(s) => vstd::utf8::valid_utf8(bytes@) && s@ == vstd::utf8::decode_utf8(bytes@),
            None => !vstd::utf8::valid_utf8(bytes@),
        },
{
    std::str::from_utf8(bytes).ok()
}

/// The placeholder shown for a file with no text preview.
pub open spec fn binary_message(total: u64) -> Seq<char> {
    "binary file, "@ + spec_human_size(total as nat)
}

/// The preview of a file from the first bytes read of it (`buf`) and its
/// full size: nothing for an empty read, a dimmed `binary file, SIZE`
/// (line numbers off) for bytes with a NUL or that are not UTF-8, and the
/// highlighted text otherwise.
pub open spec fn spec_preview_file(configs: Seq<crate::hl_config::ConfigModel>, path: Seq<char>, buf: Seq<u8>, total: u64, hide: bool) -> (Seq<Seq<SpanView>>, bool) {
    if buf.len() == 0 {
        (Seq::empty(), false)
    } else if buf.contains(0u8) || !vstd::utf8::valid_utf8(buf) {
        (crate::sanitize::spec_sanitize_lines(binary_message(total), fg_style(Color::DarkGray), true), true)
    } else {
        (crate::highlight::spec_highlighted_text(configs, path, vstd::utf8::decode_utf8(buf), hide), false)
    }
}

pub fn preview_file(reg: &crate::highlight::Registry, path: &str, buf: &[u8], total_size: u64, hide_markers: bool) -> (p: crate::node_source::Preview)
    ensures
        (p.text.view(), p.override_disable_line_numbers) == spec_preview_file(reg.spec_models(), path@, buf@, total_size, hide_markers),
{
    if buf.len() == 0 {
        return crate::node_source::Preview::new(SanitizedText::new());
    }
    let mut has_nul = false;
    let mut i: usize = 0;
    while i < buf.len()
        invariant
            i <= buf@.len(),
            has_nul == (exists|k: int| 0 <= k < i && #[trigger] buf@[k] == 0u8),
        decreases buf.len() - i,
    {
        if buf[i] == 0 {
            has_nul = true;
        }
        i = i + 1;
    }
    proof {
        if buf@.contains(0u8) {
            let k = choose|k: int| 0 <= k < buf@.len() && #[trigger] buf@[k] == 0u8;
            assert(buf@[k] == 0u8);
        }
    }
    if !has_nul {
        match str_from_utf8(buf) {
            Some(text) => {
                let t = crate::highlight::highlighted_text(reg, path, text, hide_markers);
                return crate::node_source::Preview::new(t);
            },
            None => {},
        }
    }
    let mut m = String::from_str("binary file, ");
    let h = human_size(total_size);
    m.append(h.as_str());
    crate::node_source::Preview::without_line_numbers(dim_text(m.as_str()))
}

/// How much of a file its preview reads.
pub const PREVIEW_READ_LIMIT: usize = 65536;

/// What a filesystem preview needs read next, once the node's metadata
/// (following a symlink) is known.
pub enum AfterStat {
    /// Nothing more: the preview is this.
    Done(crate::node_source::Preview),
    /// A directory: its listing.
    ListDir,
    /// Anything else: its first `limit` bytes; `total` is its size.
    ReadPrefix { limit: usize, total: u64 },
}

/// Decides a filesystem preview from the node's metadata: the error when
/// it could not be read, a listing for a directory, the file's first bytes
/// otherwise.
pub fn preview_after_stat(stat: Result<Metadata, SourceError>) -> (r: AfterStat)
    ensures
        match stat {
            Err(e) => r matches AfterStat::Done(p) && !p.override_disable_line_numbers
                && p.text.view() == spec_sanitize_lines(e.message@, fg_style(Color::Red), true),
            Ok(m) => if m.is_dir {
                r is ListDir
            } else {
                r matches AfterStat::ReadPrefix { limit, total } && limit == PREVIEW_READ_LIMIT && total == m.len
            },
        },
{
    match stat {
        Err(e) => AfterStat::Done(crate::node_source::Preview::new(error_text(e.message.as_str()))),
        Ok(m) => if m.is_dir {
            AfterStat::ListDir
        } else {
            AfterStat::ReadPrefix { limit: PREVIEW_READ_LIMIT, total: m.len }
        },
    }
}

/// A directory's preview from its listing: the entries, with the
/// line-number gutter off, or the error when it could not be listed.
pub fn listing_preview(listing: Result<Vec<crate::entry::Entry>, SourceError>, nerd_font: bool) -> (p: crate::node_source::Preview)
    ensures
        match listing {
            Ok(es) => p.override_disable_line_numbers && p.text.view() == crate::entry::spec_dir_preview(es@, nerd_font),
            Err(e) => !p.override_disable_line_numbers && p.text.view() == spec_sanitize_lines(e.message@, fg_style(Color::Red), true),
        },
{
    match listing {
        Ok(es) => crate::node_source::Preview::without_line_numbers(crate::entry::format_dir_preview(es.as_slice(), nerd_font)),
        Err(e) => crate::node_source::Preview::new(error_text(e.message.as_str())),
    }
}

/// A file's preview from the bytes read of its start (`read`, or the error
/// reading it) and its full size, as `preview_file` makes it.
pub fn prefix_preview(reg: &crate::highlight::Registry, path: &str, read: Result<Vec<u8>, SourceError>, total_size: u64, hide_markers: bool) -> (p: crate::node_source::Preview)
    ensures
        match read {
            Ok(buf) => (p.text.view(), p.override_disable_line_numbers) == spec_preview_file(reg.spec_models(), path@, buf@, total_size, hide_markers),
            Err(e) => !p.override_disable_line_numbers && p.text.view() == spec_sanitize_lines(e.message@, fg_style(Color::Red), true),
        },
{
    match read {
        Ok(buf) => preview_file(reg, path, buf.as_slice(), total_size, hide_markers),
        Err(e) => crate::node_source::Preview::new(error_text(e.message.as_str())),
    }
}

} // verus!
