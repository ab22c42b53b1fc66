//! The filesystem browser's policy, independent of any real filesystem:
//! which glyph a file gets, which path an id names under the root, which
//! entries a listing shows and in what order, and the toggles that steer
//! it. Reading the directory itself is left to the caller, who hands the
//! raw listing in.

use vstd::prelude::*;

use crate::command::Command;
use crate::entry::{Entry, FOLDER_ICON};
use crate::error::{ErrorKind, SourceError, debug_str, spec_debug_str};
use crate::strorder::{Cmp, compare_chars, lemma_lex_asymmetric, lemma_lex_total, lemma_lex_transitive, lex_lt};
use crate::style::Color;
use crate::text::{append_chars, chars_is, chars_of, nonempty_parts, slice_chars, spec_to_lowercase, split_nonempty, str_is, string_of, to_lowercase};
use crate::toggle::Toggle;
use crate::vfs::DirEntryInfo;

verus! {

/// Name of the toggle that shows dotfiles in listings.
pub const HIDDEN_TOGGLE_NAME: &'static str = "hidden";
/// Name of the toggle that shows markdown source as is instead of
/// rendered.
pub const RAW_TOGGLE_NAME: &'static str = "raw";
/// Name of the toggle that previews a node's metadata instead of its
/// contents.
pub const META_TOGGLE_NAME: &'static str = "meta";

/// Glyph and color for a file whose type is not recognized.
pub open spec fn generic_file_icon() -> (char, Color) {
    ('\u{f15b}', Color::Gray)
}

/// Glyph and color for a markdown document.
pub open spec fn markdown_icon() -> (char, Color) {
    ('\u{e73e}', Color::LightBlue)
}

/// Icons matched on a whole (lower-cased) file name, which take priority
/// over the extension.
pub open spec fn name_icon(lower: Seq<char>) -> Option<(char, Color)> {
    if lower == "dockerfile"@ {
        Some(('\u{f21f}', Color::Rgb(56, 150, 220)))
    } else if lower == "makefile"@ {
        Some(('\u{f489}', Color::Gray))
    } else if lower == ".gitignore"@ || lower == ".gitattributes"@ || lower == ".gitmodules"@ {
        Some(('\u{f1d3}', Color::Rgb(230, 80, 60)))
    } else if lower == "cargo.lock"@ || lower == "package-lock.json"@ || lower == "yarn.lock"@ || lower == "pnpm-lock.yaml"@ {
        Some(('\u{f023}', Color::DarkGray))
    } else {
        None
    }
}

/// Icons matched on a (lower-cased) extension.
pub open spec fn ext_icon(ext: Seq<char>) -> (char, Color) {
    if ext == "rs"@ { ('\u{e7a8}', Color::Rgb(222, 165, 132)) }
    else if ext == "toml"@ { ('\u{e6b2}', Color::Rgb(156, 107, 46)) }
    else if ext == "py"@ { ('\u{e73c}', Color::Yellow) }
    else if ext == "js"@ || ext == "mjs"@ || ext == "cjs"@ { ('\u{e74e}', Color::Yellow) }
    else if ext == "jsx"@ { ('\u{e7ba}', Color::Cyan) }
    else if ext == "ts"@ { ('\u{e628}', Color::Blue) }
    else if ext == "tsx"@ { ('\u{e7ba}', Color::Rgb(97, 175, 239)) }
    else if ext == "json"@ { ('\u{e60b}', Color::Rgb(203, 180, 30)) }
    else if ext == "yaml"@ || ext == "yml"@ { ('\u{e615}', Color::Rgb(203, 75, 22)) }
    else if ext == "html"@ || ext == "htm"@ { ('\u{e736}', Color::Rgb(227, 79, 38)) }
    else if ext == "css"@ { ('\u{e749}', Color::Rgb(86, 156, 214)) }
    else if ext == "c"@ || ext == "h"@ { ('\u{e61e}', Color::Rgb(85, 116, 205)) }
    else if ext == "cpp"@ || ext == "cc"@ || ext == "cxx"@ || ext == "hpp"@ { ('\u{e61d}', Color::Rgb(0, 89, 156)) }
    else if ext == "go"@ { ('\u{e627}', Color::Rgb(0, 173, 216)) }
    else if ext == "java"@ { ('\u{e738}', Color::Rgb(230, 80, 60)) }
    else if ext == "lua"@ { ('\u{e620}', Color::Rgb(0, 111, 184)) }
    else if ext == "rb"@ { ('\u{e739}', Color::Red) }
    else if ext == "sh"@ || ext == "bash"@ || ext == "zsh"@ { ('\u{e795}', Color::Green) }
    else if ext == "md"@ || ext == "markdown"@ { markdown_icon() }
    else if ext == "png"@ || ext == "jpg"@ || ext == "jpeg"@ || ext == "gif"@ || ext == "svg"@ || ext == "bmp"@ || ext == "webp"@ { ('\u{f1c5}', Color::Magenta) }
    else if ext == "zip"@ || ext == "tar"@ || ext == "gz"@ || ext == "bz2"@ || ext == "xz"@ || ext == "7z"@ || ext == "rar"@ { ('\u{f1c6}', Color::Rgb(205, 133, 63)) }
    else if ext == "pdf"@ { ('\u{f1c1}', Color::Red) }
    else if ext == "lock"@ { ('\u{f023}', Color::DarkGray) }
    else { generic_file_icon() }
}

/// The position of the last `.` in `s`, if any.
pub open spec fn last_dot(s: Seq<char>) -> Option<int>
    decreases s.len(),
{
    if s.len() == 0 { None } else if s.last() == '.' { Some(s.len() - 1) } else { last_dot(s.drop_last()) }
}

/// The glyph and color for a file named `name`: a whole-name match first,
/// then the text after the last `.`, else the generic file icon.
pub open spec fn spec_file_icon(name: Seq<char>) -> (char, Color) {
    let lower = spec_to_lowercase(name);
    match name_icon(lower) {
        Some(i) => i,
        None => match last_dot(lower) {
            None => generic_file_icon(),
            Some(i) => ext_icon(lower.subrange(i + 1, lower.len() as int)),
        },
    }
}

/// The glyph and color a markdown document gets.
pub fn markdown_icon_exec() -> (r: (char, Color))
    ensures
        r == markdown_icon(),
{
    ('\u{e73e}', Color::LightBlue)
}

fn name_icon_exec(lower: &[char]) -> (r: Option<(char, Color)>)
    ensures
        r == name_icon(lower@),
{
    if chars_is(lower, "dockerfile") {
        Some(('\u{f21f}', Color::Rgb(56, 150, 220)))
    } else if chars_is(lower, "makefile") {
        Some(('\u{f489}', Color::Gray))
    } else if chars_is(lower, ".gitignore") || chars_is(lower, ".gitattributes") || chars_is(lower, ".gitmodules") {
        Some(('\u{f1d3}', Color::Rgb(230, 80, 60)))
    } else if chars_is(lower, "cargo.lock") || chars_is(lower, "package-lock.json") || chars_is(lower, "yarn.lock") || chars_is(lower, "pnpm-lock.yaml") {
        Some(('\u{f023}', Color::DarkGray))
    } else {
        None
    }
}

fn ext_icon_exec(ext: &[char]) -> (r: (char, Color))
    ensures
        r == ext_icon(ext@),
{
    if chars_is(ext, "rs") { ('\u{e7a8}', Color::Rgb(222, 165, 132)) }
    else if chars_is(ext, "toml") { ('\u{e6b2}', Color::Rgb(156, 107, 46)) }
    else if chars_is(ext, "py") { ('\u{e73c}', Color::Yellow) }
    else if chars_is(ext, "js") || chars_is(ext, "mjs") || chars_is(ext, "cjs") { ('\u{e74e}', Color::Yellow) }
    else if chars_is(ext, "jsx") { ('\u{e7ba}', Color::Cyan) }
    else if chars_is(ext, "ts") { ('\u{e628}', Color::Blue) }
    else if chars_is(ext, "tsx") { ('\u{e7ba}', Color::Rgb(97, 175, 239)) }
    else if chars_is(ext, "json") { ('\u{e60b}', Color::Rgb(203, 180, 30)) }
    else if chars_is(ext, "yaml") || chars_is(ext, "yml") { ('\u{e615}', Color::Rgb(203, 75, 22)) }
    else if chars_is(ext, "html") || chars_is(ext, "htm") { ('\u{e736}', Color::Rgb(227, 79, 38)) }
    else if chars_is(ext, "css") { ('\u{e749}', Color::Rgb(86, 156, 214)) }
    else if chars_is(ext, "c") || chars_is(ext, "h") { ('\u{e61e}', Color::Rgb(85, 116, 205)) }
    else if chars_is(ext, "cpp") || chars_is(ext, "cc") || chars_is(ext, "cxx") || chars_is(ext, "hpp") { ('\u{e61d}', Color::Rgb(0, 89, 156)) }
    else if chars_is(ext, "go") { ('\u{e627}', Color::Rgb(0, 173, 216)) }
    else if chars_is(ext, "java") { ('\u{e738}', Color::Rgb(230, 80, 60)) }
    else if chars_is(ext, "lua") { ('\u{e620}', Color::Rgb(0, 111, 184)) }
    else if chars_is(ext, "rb") { ('\u{e739}', Color::Red) }
    else if chars_is(ext, "sh") || chars_is(ext, "bash") || chars_is(ext, "zsh") { ('\u{e795}', Color::Green) }
    else if chars_is(ext, "md") || chars_is(ext, "markdown") { markdown_icon_exec() }
    else if chars_is(ext, "png") || chars_is(ext, "jpg") || chars_is(ext, "jpeg") || chars_is(ext, "gif") || chars_is(ext, "svg") || chars_is(ext, "bmp") || chars_is(ext, "webp") { ('\u{f1c5}', Color::Magenta) }
    else if chars_is(ext, "zip") || chars_is(ext, "tar") || chars_is(ext, "gz") || chars_is(ext, "bz2") || chars_is(ext, "xz") || chars_is(ext, "7z") || chars_is(ext, "rar") { ('\u{f1c6}', Color::Rgb(205, 133, 63)) }
    else if chars_is(ext, "pdf") { ('\u{f1c1}', Color::Red) }
    else if chars_is(ext, "lock") { ('\u{f023}', Color::DarkGray) }
    else { ('\u{f15b}', Color::Gray) }
}

pub fn find_last_dot(s: &[char]) -> (r: Option<usize>)
    ensures
        r matches Some(i) ==> last_dot(s@) == Some(i as int) && i < s@.len(),
        r is None ==> last_dot(s@) is None,
{
    let mut i: usize = s.len();
    proof {
        assert(s@.subrange(0, s@.len() as int) =~= s@);
    }
    while i > 0
        invariant
            i <= s@.len(),
            last_dot(s@) == last_dot(s@.subrange(0, i as int)),
        decreases i,
    {
        if s[i - 1] == '.' {
            proof {
                assert(s@.subrange(0, i as int).last() == '.');
            }
            return Some(i - 1);
        }
        proof {
            assert(s@.subrange(0, i as int).drop_last() =~= s@.subrange(0, i - 1));
        }
        i = i - 1;
    }
    None
}

/// Picks a Nerd Font glyph and color for a file by its name, falling back
/// to a generic file glyph for anything not recognized. Matching ignores
/// case; whole-name matches (`Dockerfile`, `.gitignore`, lock files) take
/// priority over the extension.
pub fn file_icon(name: &str) -> (r: (char, Color))
    ensures
        r == spec_file_icon(name@),
{
    let lower_s = to_lowercase(name);
    let lower = chars_of(lower_s.as_str());
    match name_icon_exec(lower.as_slice()) {
        Some(i) => i,
        None => match find_last_dot(lower.as_slice()) {
            None => ('\u{f15b}', Color::Gray),
            Some(i) => {
                let n = lower.len();
                assert(i < n);
                let ext = slice_chars(lower.as_slice(), i + 1, n);
                ext_icon_exec(ext.as_slice())
            },
        },
    }
}

/// The glyph and color for an entry: folders always get the folder glyph
/// with no color of their own (they take the directory label's color);
/// files are looked up by name.
pub open spec fn spec_entry_icon(name: Seq<char>, is_dir: bool) -> (char, Option<Color>) {
    if is_dir { (FOLDER_ICON, None) } else { (spec_file_icon(name).0, Some(spec_file_icon(name).1)) }
}

pub fn entry_icon(name: &str, is_dir: bool) -> (r: (char, Option<Color>))
    ensures
        r == spec_entry_icon(name@, is_dir),
{
    if is_dir {
        (FOLDER_ICON, None)
    } else {
        let (icon, color) = file_icon(name);
        (icon, Some(color))
    }
}

/// Whether a segment parses as exactly one plain path component: not
/// empty, not absolute, not `.`-led, and with exactly one non-empty piece
/// between slashes besides `.` pieces, which is not `..`.
pub open spec fn is_plain_name(seg: Seq<char>) -> bool {
    let pieces = split_nonempty(seg, '/').filter(|p: Seq<char>| p != seq!['.']);
    &&& !(seg.len() > 0 && seg[0] == '/')
    &&& !(seg.len() > 0 && seg[0] == '.' && (seg.len() == 1 || seg[1] == '/'))
    &&& pieces.len() == 1
    &&& pieces[0] != seq!['.', '.']
}

/// `PathBuf::push` of a relative segment onto `base`.
pub open spec fn push_path(base: Seq<char>, seg: Seq<char>) -> Seq<char> {
    if base.len() == 0 {
        seg
    } else if base.last() == '/' {
        base + seg
    } else {
        base + seq!['/'] + seg
    }
}

/// The path `id` names under `root`, or the first segment that is not a
/// plain name.
pub open spec fn spec_path_from_segments(root: Seq<char>, id: Seq<Seq<char>>) -> Result<Seq<char>, Seq<char>>
    decreases id.len(),
{
    if id.len() == 0 {
        Ok(root)
    } else {
        match spec_path_from_segments(root, id.drop_last()) {
            Err(bad) => Err(bad),
            Ok(p) => if is_plain_name(id.last()) { Ok(push_path(p, id.last())) } else { Err(id.last()) },
        }
    }
}

/// Nothing outside the root can be addressed: a resolved path starts with
/// the root, and every segment that went into it was a plain file name
/// (no `.`, `..`, absolute or separator-smuggling segment).
pub proof fn lemma_paths_stay_under_root(root: Seq<char>, id: Seq<Seq<char>>)
    ensures
        spec_path_from_segments(root, id) matches Ok(p) ==> {
            &&& root.is_prefix_of(p)
            &&& forall|i: int| 0 <= i < id.len() ==> is_plain_name(#[trigger] id[i])
        },
    decreases id.len(),
{
    if id.len() > 0 {
        let init = id.drop_last();
        lemma_paths_stay_under_root(root, init);
        if let Ok(q) = spec_path_from_segments(root, init) {
            let seg = id.last();
            if is_plain_name(seg) {
                let p = push_path(q, seg);
                if q.len() > 0 {
                    assert(p.subrange(0, q.len() as int) =~= q);
                    assert(p.subrange(0, root.len() as int) =~= q.subrange(0, root.len() as int));
                } else {
                    assert(root.len() == 0);
                }
                assert forall|i: int| 0 <= i < id.len() implies is_plain_name(#[trigger] id[i]) by {
                    if i < init.len() {
                        assert(id[i] == init[i]);
                    }
                }
            }
        }
    }
}

pub open spec fn invalid_segment_message(seg: Seq<char>) -> Seq<char> {
    "invalid path segment: "@ + spec_debug_str(seg)
}

fn is_plain_name_exec(seg: &str) -> (r: bool)
    ensures
        r == is_plain_name(seg@),
{
    let cs = chars_of(seg);
    let parts = nonempty_parts(cs.as_slice(), '/');
    let ghost pv = parts@.map_values(|x: Vec<char>| x@);
    let ghost f = |p: Seq<char>| p != seq!['.'];
    let mut count: usize = 0;
    let mut first_is_dotdot = false;
    let mut i: usize = 0;
    while i < parts.len()
        invariant
            i <= parts@.len(),
            pv == parts@.map_values(|x: Vec<char>| x@),
            f == (|p: Seq<char>| p != seq!['.']),
            count == pv.subrange(0, i as int).filter(f).len(),
            count <= i,
            count >= 1 ==> first_is_dotdot == (pv.subrange(0, i as int).filter(f)[0] == seq!['.', '.']),
        decreases parts.len() - i,
    {
        proof {
            assert(pv.subrange(0, i + 1).drop_last() =~= pv.subrange(0, i as int));
            reveal_with_fuel(Seq::filter, 1);
        }
        let is_dot = parts[i].len() == 1 && parts[i][0] == '.';
        proof {
            if parts@[i as int]@ == seq!['.'] {
                assert(parts@[i as int]@.len() == 1 && parts@[i as int]@[0] == '.');
            }
            if is_dot {
                assert(parts@[i as int]@ =~= seq!['.']);
            }
        }
        if !is_dot {
            if count == 0 {
                first_is_dotdot = parts[i].len() == 2 && parts[i][0] == '.' && parts[i][1] == '.';
                proof {
                    if first_is_dotdot {
                        assert(parts@[i as int]@ =~= seq!['.', '.']);
                    }
                    if parts@[i as int]@ == seq!['.', '.'] {
                        assert(parts@[i as int]@.len() == 2);
                    }
                    assert(pv.subrange(0, i + 1).filter(f) =~= pv.subrange(0, i as int).filter(f).push(pv[i as int]));
                }
            } else {
                proof {
                    assert(pv.subrange(0, i + 1).filter(f) =~= pv.subrange(0, i as int).filter(f).push(pv[i as int]));
                }
            }
            count = count + 1;
        } else {
            proof {
                assert(pv.subrange(0, i + 1).filter(f) =~= pv.subrange(0, i as int).filter(f));
            }
        }
        i = i + 1;
    }
    proof {
        assert(pv.subrange(0, parts@.len() as int) =~= pv);
        assert(pv == split_nonempty(seg@, '/'));
        assert(f == (|p: Seq<char>| p != seq!['.']));
    }
    let n = cs.len();
    let absolute = n > 0 && cs[0] == '/';
    let dot_led = n > 0 && cs[0] == '.' && (n == 1 || cs[1] == '/');
    !absolute && !dot_led && count == 1 && !first_is_dotdot
}

/// A filesystem source, scoped to a root directory: ids are segments
/// relative to that root, so nothing outside it can be addressed.
#[derive(Clone, Debug)]
pub struct FsSource {
    root: String,
    show_hidden: bool,
    raw_markdown: bool,
    show_meta: bool,
    nerd_font: bool,
}

impl FsSource {
    pub closed spec fn spec_root(&self) -> Seq<char> {
        self.root@
    }

    pub closed spec fn toggles_view(&self) -> (bool, bool, bool) {
        (self.show_hidden, self.raw_markdown, self.show_meta)
    }

    pub closed spec fn spec_nerd_font(&self) -> bool {
        self.nerd_font
    }

    /// Scopes a source to `root` once the caller has resolved it to an
    /// absolute, symlink-free directory (`canonical`). A failure to resolve
    /// it is reported with `root` itself in front of the reason, so the
    /// message names the path the user gave. Every toggle starts off.
    pub fn new(root: &str, canonical: Result<String, SourceError>, nerd_font: bool) -> (r: Result<FsSource, SourceError>)
        ensures
            match (canonical, r) {
                (Ok(c), Ok(s)) => s.spec_root() == c@ && s.toggles_view() == (false, false, false) && s.spec_nerd_font() == nerd_font,
                (Err(e), Err(e2)) => e2.kind == e.kind && e2.message@ == root@ + ": "@ + e.message@,
                _ => false,
            },
    {
        match canonical {
            Ok(c) => Ok(FsSource { root: c, show_hidden: false, raw_markdown: false, show_meta: false, nerd_font }),
            Err(e) => {
                let mut m = String::from_str(root);
                m.append(": ");
                m.append(e.message.as_str());
                Err(SourceError::new(e.kind, m))
            },
        }
    }

    /// The directory this source is scoped to.
    pub fn root(&self) -> (r: &String)
        ensures
            r@ == self.spec_root(),
    {
        &self.root
    }

    /// Whether previews render markdown (hiding its markers).
    pub fn hide_markers(&self) -> (r: bool)
        ensures
            r == !self.toggles_view().1,
    {
        !self.raw_markdown
    }

    /// Resolves `id` to a real path under the root, rejecting any segment
    /// that could step outside it or is not a plain file name: `.`, `..`,
    /// an empty or absolute segment, or one that smuggles a separator.
    pub fn path_from_segments(&self, id: &[String]) -> (r: Result<String, SourceError>)
        ensures
            match spec_path_from_segments(self.spec_root(), id@.map_values(|s: String| s@)) {
                Ok(p) => r matches Ok(q) && q@ == p,
                Err(bad) => r matches Err(e) && e.kind == ErrorKind::InvalidInput && e.message@ == invalid_segment_message(bad),
            },
    {
        let ghost ids = id@.map_values(|s: String| s@);
        let mut path: Vec<char> = chars_of(self.root.as_str());
        let mut i: usize = 0;
        while i < id.len()
            invariant
                i <= id@.len(),
                ids == id@.map_values(|s: String| s@),
                spec_path_from_segments(self.root@, ids.subrange(0, i as int)) == Ok::<Seq<char>, Seq<char>>(path@),
            decreases id.len() - i,
        {
            proof {
                assert(ids.subrange(0, i + 1).drop_last() =~= ids.subrange(0, i as int));
                assert(ids.subrange(0, i + 1).last() == id@[i as int]@);
            }
            let seg = &id[i];
            if !is_plain_name_exec(seg.as_str()) {
                proof {
                    lemma_segments_fail_stays(self.root@, ids, i as int + 1);
                }
                let mut m = String::from_str("invalid path segment: ");
                let d = debug_str(seg.as_str());
                m.append(d.as_str());
                return Err(SourceError::new(ErrorKind::InvalidInput, m));
            }
            let sc = chars_of(seg.as_str());
            if path.len() > 0 && path[path.len() - 1] != '/' {
                path.push('/');
            }
            append_chars(&mut path, sc.as_slice());
            proof {
                assert(path@ =~= push_path(spec_path_from_segments(self.root@, ids.subrange(0, i as int))->Ok_0, seg@));
            }
            i = i + 1;
        }
        proof {
            assert(ids.subrange(0, id@.len() as int) =~= ids);
        }
        Ok(string_of(path.as_slice()))
    }
}

/// Once a prefix of the segments fails, the whole id fails with the same
/// segment.
proof fn lemma_segments_fail_stays(root: Seq<char>, ids: Seq<Seq<char>>, k: int)
    requires
        0 < k <= ids.len(),
        spec_path_from_segments(root, ids.subrange(0, k)) is Err,
    ensures
        spec_path_from_segments(root, ids) == spec_path_from_segments(root, ids.subrange(0, k)),
    decreases ids.len() - k,
{
    if k < ids.len() {
        assert(ids.subrange(0, k + 1).drop_last() =~= ids.subrange(0, k));
        lemma_segments_fail_stays(root, ids, k + 1);
    } else {
        assert(ids.subrange(0, k) =~= ids);
    }
}


/// An entry taken by value (its suggested commands aside).
pub struct EntryView {
    pub name: Seq<char>,
    pub id: Seq<Seq<char>>,
    pub is_dir: bool,
    pub is_link: bool,
    pub icon: Option<char>,
    pub color: Option<Color>,
}

pub open spec fn entry_view(e: Entry) -> EntryView {
    EntryView {
        name: e.name@,
        id: e.id@.map_values(|s: String| s@),
        is_dir: e.is_dir,
        is_link: e.is_link,
        icon: e.nerd_icon,
        color: e.nerd_icon_color,
    }
}

pub open spec fn entries_view(es: Seq<Entry>) -> Seq<EntryView> {
    es.map_values(|e: Entry| entry_view(e))
}

/// What a listing sorts by: directories first, then names compared
/// case-insensitively.
pub open spec fn sort_key(e: EntryView) -> (bool, Seq<char>) {
    (e.is_dir, spec_to_lowercase(e.name))
}

/// `a` may come before `b` in a listing.
pub open spec fn key_le(a: (bool, Seq<char>), b: (bool, Seq<char>)) -> bool {
    (a.0 && !b.0) || (a.0 == b.0 && !lex_lt(b.1, a.1))
}

/// `x` inserted into the sorted `s` after every entry that may precede it.
pub open spec fn sort_insert(s: Seq<EntryView>, x: EntryView) -> Seq<EntryView>
    decreases s.len(),
{
    if s.len() == 0 {
        seq![x]
    } else if key_le(sort_key(s.last()), sort_key(x)) {
        s.push(x)
    } else {
        sort_insert(s.drop_last(), x).push(s.last())
    }
}

/// `s` stably sorted by `sort_key`.
pub open spec fn sort_entries(s: Seq<EntryView>) -> Seq<EntryView>
    decreases s.len(),
{
    if s.len() == 0 { Seq::empty() } else { sort_insert(sort_entries(s.drop_last()), s.last()) }
}

/// Every entry of `s` may come before every entry after it.
pub open spec fn listing_sorted(s: Seq<EntryView>) -> bool {
    forall|i: int, j: int| 0 <= i < j < s.len() ==> key_le(sort_key(#[trigger] s[i]), sort_key(#[trigger] s[j]))
}

proof fn lemma_key_le_total(a: (bool, Seq<char>), b: (bool, Seq<char>))
    ensures
        key_le(a, b) || key_le(b, a),
{
    lemma_lex_asymmetric(a.1, b.1);
}

proof fn lemma_key_le_transitive(a: (bool, Seq<char>), b: (bool, Seq<char>), c: (bool, Seq<char>))
    requires
        key_le(a, b),
        key_le(b, c),
    ensures
        key_le(a, c),
{
    if a.0 == b.0 && b.0 == c.0 && lex_lt(c.1, a.1) {
        lemma_lex_total(a.1, b.1);
        if lex_lt(a.1, b.1) {
            lemma_lex_transitive(c.1, a.1, b.1);
        }
    }
}

proof fn lemma_sort_insert(s: Seq<EntryView>, x: EntryView)
    requires
        listing_sorted(s),
    ensures
        listing_sorted(sort_insert(s, x)),
        sort_insert(s, x).to_multiset() =~= s.to_multiset().insert(x),
        forall|i: int| 0 <= i < sort_insert(s, x).len() ==> #[trigger] sort_insert(s, x)[i] == x || s.contains(sort_insert(s, x)[i]),
        sort_insert(s, x).len() == s.len() + 1,
    decreases s.len(),
{
    broadcast use vstd::seq_lib::group_to_multiset_ensures;

    let r = sort_insert(s, x);
    if s.len() == 0 {
        assert(seq![x] =~= Seq::<EntryView>::empty().push(x));
        assert(Seq::<EntryView>::empty().to_multiset() =~= vstd::multiset::Multiset::empty());
    } else if key_le(sort_key(s.last()), sort_key(x)) {
        assert forall|i: int, j: int| 0 <= i < j < r.len() implies key_le(sort_key(#[trigger] r[i]), sort_key(#[trigger] r[j])) by {
            if j == s.len() {
                if i < s.len() - 1 {
                    lemma_key_le_transitive(sort_key(s[i]), sort_key(s.last()), sort_key(x));
                }
            } else {
                assert(r[i] == s[i] && r[j] == s[j]);
            }
        }
        assert forall|i: int| 0 <= i < r.len() implies #[trigger] r[i] == x || s.contains(r[i]) by {
            if i < s.len() {
                assert(r[i] == s[i]);
            }
        }
    } else {
        let init = s.drop_last();
        let last = s.last();
        assert(listing_sorted(init)) by {
            assert forall|i: int, j: int| 0 <= i < j < init.len() implies key_le(sort_key(#[trigger] init[i]), sort_key(#[trigger] init[j])) by {
                assert(init[i] == s[i] && init[j] == s[j]);
            }
        }
        lemma_sort_insert(init, x);
        let r0 = sort_insert(init, x);
        lemma_key_le_total(sort_key(last), sort_key(x));
        assert forall|i: int| 0 <= i < r0.len() implies key_le(sort_key(#[trigger] r0[i]), sort_key(last)) by {
            if r0[i] != x {
                assert(init.contains(r0[i]));
                let k = choose|k: int| 0 <= k < init.len() && init[k] == r0[i];
                assert(s[k] == init[k]);
                assert(key_le(sort_key(s[k]), sort_key(s[s.len() - 1])));
            }
        }
        assert(r == r0.push(last));
        assert forall|i: int, j: int| 0 <= i < j < r.len() implies key_le(sort_key(#[trigger] r[i]), sort_key(#[trigger] r[j])) by {
            if j == r0.len() {
                assert(r[i] == r0[i]);
            } else {
                assert(r[i] == r0[i] && r[j] == r0[j]);
            }
        }
        assert forall|i: int| 0 <= i < r.len() implies #[trigger] r[i] == x || s.contains(r[i]) by {
            if i < r0.len() {
                assert(r[i] == r0[i]);
                if r0[i] != x {
                    let k = choose|k: int| 0 <= k < init.len() && init[k] == r0[i];
                    assert(s[k] == init[k]);
                }
            } else {
                assert(s[s.len() - 1] == last);
            }
        }
        assert(init.push(last) =~= s);
        assert(s.to_multiset() =~= init.to_multiset().insert(last));
    }
}

/// A listing is in order — directories first, then names compared
/// case-insensitively — and holds exactly the entries it was made from.
pub proof fn lemma_listing_sorted(s: Seq<EntryView>)
    ensures
        listing_sorted(sort_entries(s)),
        sort_entries(s).to_multiset() =~= s.to_multiset(),
    decreases s.len(),
{
    broadcast use vstd::seq_lib::group_to_multiset_ensures;

    if s.len() == 0 {
        assert(sort_entries(s) =~= s);
    } else {
        lemma_listing_sorted(s.drop_last());
        lemma_sort_insert(sort_entries(s.drop_last()), s.last());
        assert(s.drop_last().push(s.last()) =~= s);
    }
}

/// Whether a child named `name` shows in a listing.
pub open spec fn shown(show_hidden: bool, name: Seq<char>) -> bool {
    show_hidden || !(name.len() > 0 && name[0] == '.')
}

/// The entry a listed child becomes under the node `id`.
pub open spec fn child_entry(id: Seq<Seq<char>>, c: DirEntryInfo) -> EntryView {
    let (icon, color) = spec_entry_icon(c.name@, c.is_dir);
    EntryView { name: c.name@, id: id.push(c.name@), is_dir: c.is_dir, is_link: c.is_link, icon: Some(icon), color }
}

/// The shown children of `id`, as entries, before sorting.
pub open spec fn shown_entries(show_hidden: bool, id: Seq<Seq<char>>, cs: Seq<DirEntryInfo>) -> Seq<EntryView>
    decreases cs.len(),
{
    if cs.len() == 0 {
        Seq::empty()
    } else {
        let rest = shown_entries(show_hidden, id, cs.drop_last());
        if shown(show_hidden, cs.last().name@) { rest.push(child_entry(id, cs.last())) } else { rest }
    }
}

/// The path's last plain component, as `Path::file_name` gives it.
pub open spec fn path_file_name(p: Seq<char>) -> Option<Seq<char>> {
    let parts = split_nonempty(p, '/').filter(|x: Seq<char>| x != seq!['.']);
    if parts.len() == 0 || parts.last() == seq!['.', '.'] { None } else { Some(parts.last()) }
}

/// The fs toggle state after setting `name` to `value`, or `None` when the
/// source has no such toggle.
pub open spec fn spec_fs_set(t: (bool, bool, bool), name: Seq<char>, value: bool) -> Option<(bool, bool, bool)> {
    if name == "hidden"@ { Some((value, t.1, t.2)) }
    else if name == "raw"@ { Some((t.0, value, t.2)) }
    else if name == "meta"@ { Some((t.0, t.1, value)) }
    else { None }
}

/// The value of toggle `name`, or `None` when the source has no such
/// toggle.
pub open spec fn spec_fs_get(t: (bool, bool, bool), name: Seq<char>) -> Option<bool> {
    if name == "hidden"@ { Some(t.0) }
    else if name == "raw"@ { Some(t.1) }
    else if name == "meta"@ { Some(t.2) }
    else { None }
}

pub open spec fn no_toggle_message(name: Seq<char>) -> Seq<char> {
    "FsSource has no toggle named "@ + spec_debug_str(name)
}

/// Reading a toggle back after setting it gives the value set, and leaves
/// the other toggles as they were.
pub proof fn lemma_fs_toggle_read_after_write(t: (bool, bool, bool), name: Seq<char>, other: Seq<char>, value: bool)
    requires
        spec_fs_set(t, name, value) is Some,
    ensures
        spec_fs_get(spec_fs_set(t, name, value)->Some_0, name) == Some(value),
        other != name ==> spec_fs_get(spec_fs_set(t, name, value)->Some_0, other) == spec_fs_get(t, other),
{
}

/// A copy of `s`.
fn copy_string(s: &String) -> (r: String)
    ensures
        r@ == s@,
{
    s.as_str().to_owned()
}

struct Keyed {
    entry: Entry,
    lower: Vec<char>,
}

fn key_le_exec(a_dir: bool, a: &[char], b_dir: bool, b: &[char]) -> (r: bool)
    ensures
        r == key_le((a_dir, a@), (b_dir, b@)),
{
    (a_dir && !b_dir) || (a_dir == b_dir && compare_chars(b, a) != Cmp::Less)
}

proof fn lemma_sort_insert_split(s: Seq<EntryView>, x: EntryView, j: int)
    requires
        0 < j <= s.len(),
        !key_le(sort_key(s[j - 1]), sort_key(x)),
    ensures
        sort_insert(s.subrange(0, j), x) + s.subrange(j, s.len() as int)
            == sort_insert(s.subrange(0, j - 1), x) + s.subrange(j - 1, s.len() as int),
{
    let p = s.subrange(0, j);
    assert(p.drop_last() =~= s.subrange(0, j - 1));
    assert(p.last() == s[j - 1]);
    assert(sort_insert(p, x) == sort_insert(s.subrange(0, j - 1), x).push(s[j - 1]));
    assert(sort_insert(s.subrange(0, j - 1), x).push(s[j - 1]) + s.subrange(j, s.len() as int)
        =~= sort_insert(s.subrange(0, j - 1), x) + s.subrange(j - 1, s.len() as int));
}

/// Inserts `x` into the sorted `v` after every entry that may precede it.
fn insert_keyed(v: &mut Vec<Keyed>, x: Keyed)
    requires
        x.lower@ == spec_to_lowercase(x.entry.name@),
        x.entry.suggested_commands@.len() == 0,
        forall|i: int| 0 <= i < old(v)@.len() ==> (#[trigger] old(v)@[i]).entry.suggested_commands@.len() == 0,
        forall|i: int| 0 <= i < old(v)@.len() ==> #[trigger] old(v)@[i].lower@ == spec_to_lowercase(old(v)@[i].entry.name@),
    ensures
        forall|i: int| 0 <= i < final(v)@.len() ==> #[trigger] final(v)@[i].lower@ == spec_to_lowercase(final(v)@[i].entry.name@),
        forall|i: int| 0 <= i < final(v)@.len() ==> (#[trigger] final(v)@[i]).entry.suggested_commands@.len() == 0,
        final(v)@.map_values(|k: Keyed| entry_view(k.entry))
            == sort_insert(old(v)@.map_values(|k: Keyed| entry_view(k.entry)), entry_view(x.entry)),
{
    let ghost s = v@.map_values(|k: Keyed| entry_view(k.entry));
    let ghost xv = entry_view(x.entry);
    let mut j: usize = v.len();
    proof {
        assert(s.subrange(0, s.len() as int) =~= s);
        assert(s.subrange(s.len() as int, s.len() as int) =~= Seq::<EntryView>::empty());
        assert(sort_insert(s, xv) =~= sort_insert(s.subrange(0, s.len() as int), xv) + s.subrange(s.len() as int, s.len() as int));
    }
    while j > 0 && !key_le_exec(v[j - 1].entry.is_dir, v[j - 1].lower.as_slice(), x.entry.is_dir, x.lower.as_slice())
        invariant
            j <= v@.len(),
            v@ == old(v)@,
            s == v@.map_values(|k: Keyed| entry_view(k.entry)),
            xv == entry_view(x.entry),
            x.lower@ == spec_to_lowercase(x.entry.name@),
            forall|i: int| 0 <= i < v@.len() ==> #[trigger] v@[i].lower@ == spec_to_lowercase(v@[i].entry.name@),
            forall|i: int| 0 <= i < v@.len() ==> (#[trigger] v@[i]).entry.suggested_commands@.len() == 0,
            x.entry.suggested_commands@.len() == 0,
            sort_insert(s, xv) == sort_insert(s.subrange(0, j as int), xv) + s.subrange(j as int, s.len() as int),
        decreases j,
    {
        proof {
            let a = v@[j - 1];
            assert(s[j - 1] == entry_view(a.entry));
            assert(a.lower@ == spec_to_lowercase(a.entry.name@));
            assert(sort_key(s[j - 1]) == (a.entry.is_dir, a.lower@));
            assert(sort_key(xv) == (x.entry.is_dir, x.lower@));
            lemma_sort_insert_split(s, xv, j as int);
        }
        j = j - 1;
    }
    proof {
        if j > 0 {
            let p = s.subrange(0, j as int);
            let a = v@[j - 1];
            assert(s[j - 1] == entry_view(a.entry));
            assert(a.lower@ == spec_to_lowercase(a.entry.name@));
            assert(sort_key(s[j - 1]) == (a.entry.is_dir, a.lower@));
            assert(sort_key(xv) == (x.entry.is_dir, x.lower@));
            assert(p.last() == s[j - 1]);
            assert(sort_insert(p, xv) == p.push(xv));
        } else {
            assert(s.subrange(0, 0) =~= Seq::<EntryView>::empty());
        }
    }
    let ghost before = v@;
    proof {
        assert(forall|i: int| 0 <= i < before.len() ==> #[trigger] before[i].lower@ == spec_to_lowercase(before[i].entry.name@));
        assert(x.lower@ == spec_to_lowercase(x.entry.name@));
    }
    let ghost xk = x;
    v.insert(j, x);
    proof {
        assert(v@ == before.insert(j as int, xk));
        assert forall|i: int| 0 <= i < v@.len() implies #[trigger] v@[i].lower@ == spec_to_lowercase(v@[i].entry.name@) by {
            if i < j {
                assert(v@[i] == before[i]);
                assert(before[i].lower@ == spec_to_lowercase(before[i].entry.name@));
                assert(v@[i].lower@ == before[i].lower@);
            } else if i > j {
                assert(v@[i] == before[i - 1]);
                assert(before[i - 1].lower@ == spec_to_lowercase(before[i - 1].entry.name@));
            } else {
                assert(v@[i] == xk);
                assert(xk.lower@ == spec_to_lowercase(xk.entry.name@));
            }
        }
        assert forall|i: int| 0 <= i < v@.len() implies (#[trigger] v@[i]).entry.suggested_commands@.len() == 0 by {
            if i < j {
                assert(v@[i] == before[i]);
            } else if i > j {
                assert(v@[i] == before[i - 1]);
            }
        }
        assert(v@.map_values(|k: Keyed| entry_view(k.entry)) =~= sort_insert(s, xv));
    }
}

impl FsSource {
    /// The toggles a filesystem source exposes: `hidden` (`H`), `raw` (`r`)
    /// and `meta` (`m`).
    pub fn available_toggles(&self) -> (v: Vec<Toggle>)
        ensures
            v@.map_values(|t: Toggle| (t.name@, t.key)) == crate::registry::spec_fs_toggles(),
    {
        crate::registry::fs_toggles()
    }

    /// A filesystem source offers no commands.
    pub fn available_commands(&self) -> (v: Vec<Command>)
        ensures
            v@.len() == 0,
    {
        Vec::new()
    }

    /// Sets `toggle` to `value`; a toggle this source does not have is
    /// refused as unsupported.
    pub fn set_toggle(&mut self, toggle: &Toggle, value: bool) -> (r: Result<(), SourceError>)
        ensures
            match spec_fs_set(old(self).toggles_view(), toggle.name@, value) {
                Some(t) => r is Ok && final(self).toggles_view() == t,
                None => r matches Err(e) && e.kind == ErrorKind::Unsupported && e.message@ == no_toggle_message(toggle.name@)
                    && final(self).toggles_view() == old(self).toggles_view(),
            },
            final(self).spec_root() == old(self).spec_root(),
            final(self).spec_nerd_font() == old(self).spec_nerd_font(),
    {
        if str_is(toggle.name.as_str(), HIDDEN_TOGGLE_NAME) {
            self.show_hidden = value;
            Ok(())
        } else if str_is(toggle.name.as_str(), RAW_TOGGLE_NAME) {
            self.raw_markdown = value;
            Ok(())
        } else if str_is(toggle.name.as_str(), META_TOGGLE_NAME) {
            self.show_meta = value;
            Ok(())
        } else {
            let mut m = String::from_str("FsSource has no toggle named ");
            let d = debug_str(toggle.name.as_str());
            m.append(d.as_str());
            Err(SourceError::new(ErrorKind::Unsupported, m))
        }
    }

    /// The current value of `toggle`; a toggle this source does not have
    /// is refused as unsupported.
    pub fn get_toggle(&self, toggle: &Toggle) -> (r: Result<bool, SourceError>)
        ensures
            match spec_fs_get(self.toggles_view(), toggle.name@) {
                Some(b) => r == Ok::<bool, SourceError>(b),
                None => r matches Err(e) && e.kind == ErrorKind::Unsupported && e.message@ == no_toggle_message(toggle.name@),
            },
    {
        if str_is(toggle.name.as_str(), HIDDEN_TOGGLE_NAME) {
            Ok(self.show_hidden)
        } else if str_is(toggle.name.as_str(), RAW_TOGGLE_NAME) {
            Ok(self.raw_markdown)
        } else if str_is(toggle.name.as_str(), META_TOGGLE_NAME) {
            Ok(self.show_meta)
        } else {
            let mut m = String::from_str("FsSource has no toggle named ");
            let d = debug_str(toggle.name.as_str());
            m.append(d.as_str());
            Err(SourceError::new(ErrorKind::Unsupported, m))
        }
    }

    /// A filesystem source has no commands, so every one is refused.
    pub fn execute_command(&self, command: &Command, args: &[String]) -> (r: Result<(), SourceError>)
        ensures
            r matches Err(e) && e.kind == ErrorKind::Unsupported
                && e.message@ == "FsSource has no command named "@ + spec_debug_str(command.name@),
    {
        let mut m = String::from_str("FsSource has no command named ");
        let d = debug_str(command.name.as_str());
        m.append(d.as_str());
        Err(SourceError::new(ErrorKind::Unsupported, m))
    }

    /// Turns the raw listing of the directory at `id` into the entries it
    /// shows: dotfiles dropped unless `hidden` is on, each child given its
    /// icon and its id under `id`, directories first, then by name without
    /// regard to case (a stable sort, so equal names keep their order).
    pub fn listing(&self, id: &[String], children: &[DirEntryInfo]) -> (r: Vec<Entry>)
        ensures
            entries_view(r@) == sort_entries(shown_entries(self.toggles_view().0, id@.map_values(|s: String| s@), children@)),
            forall|i: int| 0 <= i < r@.len() ==> (#[trigger] r@[i]).suggested_commands@.len() == 0,
    {
        let ghost idv = id@.map_values(|s: String| s@);
        let ghost sh = self.show_hidden;
        let mut sorted: Vec<Keyed> = Vec::new();
        let mut i: usize = 0;
        while i < children.len()
            invariant
                i <= children@.len(),
                sh == self.toggles_view().0,
                idv == id@.map_values(|s: String| s@),
                forall|k: int| 0 <= k < sorted@.len() ==> #[trigger] sorted@[k].lower@ == spec_to_lowercase(sorted@[k].entry.name@),
                forall|k: int| 0 <= k < sorted@.len() ==> (#[trigger] sorted@[k]).entry.suggested_commands@.len() == 0,
                sorted@.map_values(|k: Keyed| entry_view(k.entry)) == sort_entries(shown_entries(sh, idv, children@.subrange(0, i as int))),
            decreases children.len() - i,
        {
            let c = &children[i];
            proof {
                assert(children@.subrange(0, i + 1).drop_last() =~= children@.subrange(0, i as int));
                assert(children@.subrange(0, i + 1).last() == children@[i as int]);
            }
            let nc = chars_of(c.name.as_str());
            let hidden = nc.len() > 0 && nc[0] == '.';
            if self.show_hidden || !hidden {
                let (icon, color) = entry_icon(c.name.as_str(), c.is_dir);
                let mut child_id: Vec<String> = Vec::new();
                let mut k: usize = 0;
                while k < id.len()
                    invariant
                        k <= id@.len(),
                        child_id@.map_values(|s: String| s@) == idv.subrange(0, k as int),
                        idv == id@.map_values(|s: String| s@),
                    decreases id.len() - k,
                {
                    let ghost before = child_id@;
                    child_id.push(copy_string(&id[k]));
                    proof {
                        assert(child_id@.map_values(|s: String| s@) =~= before.map_values(|s: String| s@).push(id@[k as int]@));
                        assert(idv.subrange(0, k + 1) =~= idv.subrange(0, k as int).push(idv[k as int]));
                    }
                    k = k + 1;
                }
                let ghost before = child_id@;
                child_id.push(c.name.clone());
                proof {
                    assert(idv.subrange(0, id@.len() as int) =~= idv);
                    assert(child_id@.map_values(|s: String| s@) =~= idv.push(c.name@));
                }
                let e = Entry {
                    name: c.name.clone(),
                    id: child_id,
                    is_dir: c.is_dir,
                    is_link: c.is_link,
                    suggested_commands: Vec::new(),
                    nerd_icon: Some(icon),
                    nerd_icon_color: color,
                };
                let low = to_lowercase(c.name.as_str());
                let lower = chars_of(low.as_str());
                proof {
                    assert(entry_view(e) == child_entry(idv, *c));
                    let sub = children@.subrange(0, i + 1);
                    assert(shown_entries(sh, idv, sub) == shown_entries(sh, idv, children@.subrange(0, i as int)).push(child_entry(idv, *c)));
                    let se = shown_entries(sh, idv, sub);
                    assert(se.drop_last() =~= shown_entries(sh, idv, children@.subrange(0, i as int)));
                    assert(sort_entries(se) == sort_insert(sort_entries(se.drop_last()), se.last()));
                }
                insert_keyed(&mut sorted, Keyed { entry: e, lower });
            } else {
                proof {
                    let sub = children@.subrange(0, i + 1);
                    assert(shown_entries(sh, idv, sub) == shown_entries(sh, idv, children@.subrange(0, i as int)));
                }
            }
            i = i + 1;
        }
        proof {
            assert(children@.subrange(0, children@.len() as int) =~= children@);
        }
        let mut out: Vec<Entry> = Vec::new();
        let ghost total = sorted@;
        let mut j: usize = 0;
        while j < sorted.len()
            invariant
                j <= sorted@.len(),
                sorted@ == total,
                out@.len() == j,
                forall|k: int| 0 <= k < j ==> #[trigger] entry_view(out@[k]) == entry_view(total[k].entry),
                forall|k: int| 0 <= k < j ==> (#[trigger] out@[k]).suggested_commands@.len() == 0,
                forall|k: int| 0 <= k < total.len() ==> (#[trigger] total[k]).entry.suggested_commands@.len() == 0,
            decreases sorted.len() - j,
        {
            let e = &sorted[j].entry;
            let mut idc: Vec<String> = Vec::new();
            let mut k: usize = 0;
            while k < e.id.len()
                invariant
                    k <= e.id@.len(),
                    idc@.map_values(|s: String| s@) == e.id@.map_values(|s: String| s@).subrange(0, k as int),
                decreases e.id.len() - k,
            {
                let ghost before = idc@;
                idc.push(copy_string(&e.id[k]));
                proof {
                    let ev = e.id@.map_values(|s: String| s@);
                    assert(idc@.map_values(|s: String| s@) =~= before.map_values(|s: String| s@).push(e.id@[k as int]@));
                    assert(ev.subrange(0, k + 1) =~= ev.subrange(0, k as int).push(ev[k as int]));
                }
                k = k + 1;
            }
            proof {
                assert(e.id@.map_values(|s: String| s@).subrange(0, e.id@.len() as int) =~= e.id@.map_values(|s: String| s@));
            }
            out.push(Entry {
                name: e.name.clone(),
                id: idc,
                is_dir: e.is_dir,
                is_link: e.is_link,
                suggested_commands: Vec::new(),
                nerd_icon: e.nerd_icon,
                nerd_icon_color: e.nerd_icon_color,
            });
            j = j + 1;
        }
        proof {
            assert(entries_view(out@) =~= total.map_values(|k: Keyed| entry_view(k.entry)));
        }
        out
    }
}


/// `Path::file_name` of `p`, as a string.
pub fn file_name_of(p: &str) -> (r: Option<String>)
    ensures
        match r {
            Some(n) => path_file_name(p@) == Some(n@),
            None => path_file_name(p@) is None,
        },
{
    let cs = chars_of(p);
    let parts = nonempty_parts(cs.as_slice(), '/');
    let ghost pv = parts@.map_values(|x: Vec<char>| x@);
    let ghost f = |x: Seq<char>| x != seq!['.'];
    let mut last: Option<usize> = None;
    let mut i: usize = 0;
    while i < parts.len()
        invariant
            i <= parts@.len(),
            pv == parts@.map_values(|x: Vec<char>| x@),
            f == (|x: Seq<char>| x != seq!['.']),
            match last {
                Some(j) => j < i && pv.subrange(0, i as int).filter(f).len() > 0 && pv.subrange(0, i as int).filter(f).last() == pv[j as int],
                None => pv.subrange(0, i as int).filter(f).len() == 0,
            },
        decreases parts.len() - i,
    {
        proof {
            assert(pv.subrange(0, i + 1).drop_last() =~= pv.subrange(0, i as int));
            reveal_with_fuel(Seq::filter, 1);
        }
        let is_dot = parts[i].len() == 1 && parts[i][0] == '.';
        proof {
            if parts@[i as int]@ == seq!['.'] {
                assert(parts@[i as int]@.len() == 1 && parts@[i as int]@[0] == '.');
            }
            if is_dot {
                assert(parts@[i as int]@ =~= seq!['.']);
            }
        }
        if !is_dot {
            last = Some(i);
            proof {
                assert(pv.subrange(0, i + 1).filter(f) =~= pv.subrange(0, i as int).filter(f).push(pv[i as int]));
            }
        } else {
            proof {
                assert(pv.subrange(0, i + 1).filter(f) =~= pv.subrange(0, i as int).filter(f));
            }
        }
        i = i + 1;
    }
    proof {
        assert(pv.subrange(0, parts@.len() as int) =~= pv);
        assert(pv == split_nonempty(p@, '/'));
    }
    match last {
        None => None,
        Some(j) => {
            let part = &parts[j];
            if part.len() == 2 && part[0] == '.' && part[1] == '.' {
                proof {
                    assert(part@ =~= seq!['.', '.']);
                }
                None
            } else {
                proof {
                    if part@ == seq!['.', '.'] {
                        assert(part@.len() == 2);
                    }
                }
                Some(string_of(part.as_slice()))
            }
        },
    }
}

/// Where a filesystem preview starts: already decided (a bad id shows its
/// error), the metadata preview of a path, or a path whose metadata decides.
pub enum PreviewStart {
    Done(crate::node_source::Preview),
    Meta(String),
    Stat(String),
}

impl FsSource {
    /// Starts the preview of the node `id`: an id that cannot be resolved
    /// under the root shows why; with the `meta` toggle on, the node's
    /// metadata is shown; otherwise its metadata decides (see
    /// `preview_after_stat`).
    pub fn preview_start(&self, id: &[String]) -> (r: PreviewStart)
        ensures
            match spec_path_from_segments(self.spec_root(), id@.map_values(|s: String| s@)) {
                Err(bad) => r matches PreviewStart::Done(p) && !p.override_disable_line_numbers
                    && p.text.view() == crate::sanitize::spec_sanitize_lines(invalid_segment_message(bad), crate::style::fg_style(Color::Red), true),
                Ok(path) => if self.toggles_view().2 {
                    r matches PreviewStart::Meta(q) && q@ == path
                } else {
                    r matches PreviewStart::Stat(q) && q@ == path
                },
            },
    {
        match self.path_from_segments(id) {
            Err(e) => PreviewStart::Done(crate::node_source::Preview::new(crate::fs_preview::error_text(e.message.as_str()))),
            Ok(path) => if self.show_meta {
                PreviewStart::Meta(path)
            } else {
                PreviewStart::Stat(path)
            },
        }
    }
}

impl FsSource {
    /// The entry describing the root itself: named by the root's last
    /// component (or the whole root path when it has none, as for `/`),
    /// a directory with the folder glyph.
    pub fn root_entry(&self) -> (e: Entry)
        ensures
            e.name@ == (match path_file_name(self.spec_root()) { Some(n) => n, None => self.spec_root() }),
            e.id@.len() == 0,
            e.is_dir,
            !e.is_link,
            e.suggested_commands@.len() == 0,
            e.nerd_icon == Some(FOLDER_ICON),
            e.nerd_icon_color is None,
    {
        let name = match file_name_of(self.root.as_str()) {
            Some(n) => n,
            None => copy_string(&self.root),
        };
        Entry {
            name,
            id: Vec::new(),
            is_dir: true,
            is_link: false,
            suggested_commands: Vec::new(),
            nerd_icon: Some(FOLDER_ICON),
            nerd_icon_color: None,
        }
    }
}

} // verus!
