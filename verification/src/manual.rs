//! The built-in manual: a fixed tree of markdown pages about the browser
//! itself and about each node source type, browsed like any other tree. A
//! page with children is a category, listed like a directory; a page
//! without is a leaf, previewed as its markdown text.

use vstd::prelude::*;

use crate::command::Command;
use crate::entry::{Entry, FOLDER_ICON, format_dir_preview, spec_entry_line};
use crate::fs_preview::error_text;
use crate::highlight::{Registry, highlighted_text, spec_highlighted_text};
use crate::node_source::Preview;
use crate::sanitize::spec_sanitize_lines;
use crate::style::{SpanView, fg_style};
use crate::error::{ErrorKind, SourceError, debug_str, spec_debug_str};
use crate::fs::markdown_icon;
use crate::style::Color;
use crate::text::{ascii_lower_chars, ascii_lower_seq, chars_eq, chars_of, split_nonempty, split_nonempty_strings, string_of};

verus! {

pub const ABOUT_MANUAL: &'static str = "\
# About This Manual

This is the manual for iotactl. It is a node source, like the filesystem source.

## Structure

The manual has a tree of topics. A topic with sub-topics is a category. Open a
category to see its sub-topics. A topic with no sub-topics is a page. Open a
page to read its text.

## Markdown and the raw toggle

Every page in this manual is written in markdown. Markdown text uses marks such
as `#` for a heading and `*` for emphasis.

By default, iotactl hides these marks and shows styled text instead. Press `r`
to show the raw markdown text, marks and all. Press `r` again to hide the marks.

This is the same raw toggle the filesystem source uses for markdown files. See
the \"Filesystem\" topic's \"Toggles\" page.

## Opening the manual

Run `iotactl manual://` to open this manual instead of a real directory.";

pub const CLI_OPTIONS: &'static str = "\
# Command-Line Options

Run `iotactl [OPTIONS] [PATH]`.

## PATH

PATH sets where iotactl starts browsing.

- Give a real path to browse it as a directory.
- Give no path to browse the current directory.
- Give `file://` followed by a real path to browse it explicitly. Same as
  giving the path alone, but useful if the path itself could be mistaken for
  something else.
- Give `manual://` to open this manual instead.
- Give `manual://` followed by a topic's id (e.g. `manual://filesystem`) to
  open the manual there instead of at its top level.

## Nerd Font icons

- `--nerd-font` shows an icon next to each entry. Your terminal font must
  support Nerd Fonts.
- `--no-nerd-font` hides icons. This is the default.

## Mouse support

- `--mouse` turns on mouse support. This is the default. Click an entry to open
  it. Scroll to move the list.
- `--no-mouse` turns off mouse support.

## Toggles at startup

- `--toggle-on NAME` turns a named toggle on at startup. Use this flag more than
  once to set more than one toggle.
- `--toggle-off NAME` turns a named toggle off at startup.

See a source's own topic in this manual for its toggle names.

## The IOTACTL_FLAGS environment variable

Set IOTACTL_FLAGS to a string of flags. iotactl applies these flags before your
command-line flags, so a command-line flag always wins over the environment
variable.

Only some flags are allowed in IOTACTL_FLAGS: `--nerd-font`, `--no-nerd-font`,
`--mouse`, `--no-mouse`, `--toggle-on`, and `--toggle-off`. iotactl rejects any
other flag, and rejects a PATH value, in IOTACTL_FLAGS.";

pub const NAVIGATION: &'static str = "\
# Navigation & Keybindings

## Moving the cursor

- `j` or Down: move down.
- `k` or Up: move up.
- `h`, Left, or Backspace: go up one level.
- `l`, Right, or Enter: open the selected entry.

## Jumping

- Press `g` twice: jump to the first entry.
- `G` or End: jump to the last entry.
- Home: jump to the first entry.

## Paging

- Page Up or Page Down: move by one page.
- Ctrl+u or Ctrl+d: move by half a page.

## The preview pane

- `w`: turn word wrap on or off.
- `n`: turn line numbers on or off.
- `z`: zoom the preview pane to fill the screen.

## Toggles

- `t`: open the toggles menu.
- Any other key may be bound to a toggle. See a source's own topic in this
  manual for its toggle names and keys.

## Mouse

- Click an entry to select it.
- Click a column to focus it.
- Scroll to move the list, or to scroll the preview.

## Quitting

- `q`, Esc, or Ctrl+C: quit iotactl.";

pub const NODE_SOURCES_OVERVIEW: &'static str = "\
# Node Sources

A node source is a tree that iotactl can browse. Each node in the tree has:

- A name, shown in listings.
- An id, used to find it again.
- Child nodes, if it is a category or directory.
- Preview content, shown when you select it.

## Why this design

iotactl does not assume every tree is a set of real files. Each source decides
what its nodes mean, and how to read them.

## Sources in this build

- Filesystem: real files and directories on disk. See the \"Filesystem\" topic.
- Manual: this manual. See the topics at the top level of this tree.

Only one source is active at a time, chosen by the PATH argument you pass to
iotactl. See the \"Command-Line Options\" topic.";

pub const FS_OVERVIEW: &'static str = "\
# Filesystem

The filesystem source shows real files and directories on disk. It is the
default source. iotactl uses it when you give a real path, or no path at all.

## Root directory

The source starts at one root directory.

- If you give a path on the command line, iotactl uses that path as the root.
- If you give no path, iotactl uses the current directory as the root.

You cannot move above the root directory. This keeps browsing inside the part of
the disk you asked for.

## Listings

A directory listing shows directories first, then files. Within each group,
iotactl sorts names without regard to upper or lower case.

## Previews

When you select a directory, the preview shows its listing.

When you select a file, the preview shows the file text. iotactl adds color for
file types it knows, such as Rust, Python, JSON, and Markdown.

A file with raw binary bytes has no text preview. iotactl shows its size
instead.";

pub const FS_TOGGLES: &'static str = "\
# Filesystem Toggles

A toggle turns a feature on or off. Each toggle has one key. Press `t` to open
the toggles menu. The toggles menu lists every toggle and its key.

## Key `H`: hidden

This toggle shows or hides dotfiles. A dotfile is a file with a name that starts
with a dot, such as `.gitignore`. The hidden toggle is off by default, so
dotfiles stay hidden until you turn it on.

## Key `r`: raw

This toggle shows or hides markdown marks in a preview. A markdown mark is a
character such as `#` or `*`. It shows the file's raw text, marks and all, when
on. It hides the marks, and shows only the styled text, when off. The raw toggle
is off by default.

This is the same toggle, with the same key, that this manual uses for its own
pages. See the manual's own \"About This Manual\" page.

## Key `m`: meta

This toggle shows a node's metadata instead of its normal preview content.
Metadata includes:

- Size
- Permissions
- Owner
- Timestamps

The meta toggle is off by default.";

pub const ZIP_OVERVIEW: &'static str = "\
# Zip Archives

The zip source browses the contents of a zip archive, without extracting it to
disk first.

## Opening an archive

`zip://` has nothing to read on its own. Pipe another source's bytes into it
with `|`, for example:

`iotactl \"file://archive.zip | zip://\"`

Add a path after `zip://` to start browsing inside the archive instead of at
its root, for example `zip://some/folder`.

The source piped into `zip://` must support seeking. A real file does. A
stream that only reads forward once, such as another process's output, does
not.

## Browsing and toggles

Once mounted, an archive browses the same way the filesystem source does:
directories first, then files, sorted without regard to upper or lower case.
It has the same toggles, too. See the \"Filesystem\" topic's \"Toggles\" page.";

/// One page of the manual: the id segment it is reached by, its display
/// title, its markdown body (unused for a category) and the positions of
/// its children in the tree.
#[derive(Clone, Debug)]
pub struct ManualPage {
    pub slug: String,
    pub title: String,
    pub body: String,
    pub children: Vec<usize>,
}

/// A page taken by value.
pub struct PageView {
    pub slug: Seq<char>,
    pub title: Seq<char>,
    pub body: Seq<char>,
    pub children: Seq<usize>,
}

impl ManualPage {
    pub open spec fn view(&self) -> PageView {
        PageView { slug: self.slug@, title: self.title@, body: self.body@, children: self.children@ }
    }
}

pub open spec fn page(slug: Seq<char>, title: Seq<char>, body: Seq<char>, children: Seq<usize>) -> PageView {
    PageView { slug, title, body, children }
}

/// The manual's pages; the root is the first.
pub open spec fn spec_manual_tree() -> Seq<PageView> {
    seq![
        page(""@, "iotactl Manual"@, ""@, seq![1usize, 2, 3, 4, 5, 8]),
        page("about-manual"@, "About This Manual"@, ABOUT_MANUAL@, seq![]),
        page("cli"@, "Command-Line Options"@, CLI_OPTIONS@, seq![]),
        page("navigation"@, "Navigation & Keybindings"@, NAVIGATION@, seq![]),
        page("node-sources"@, "Node Sources"@, NODE_SOURCES_OVERVIEW@, seq![]),
        page("filesystem"@, "Filesystem"@, ""@, seq![6usize, 7]),
        page("overview"@, "Overview"@, FS_OVERVIEW@, seq![]),
        page("toggles"@, "Toggles"@, FS_TOGGLES@, seq![]),
        page("zip"@, "Zip Archives"@, ""@, seq![9usize]),
        page("overview"@, "Overview"@, ZIP_OVERVIEW@, seq![]),
    ]
}

fn mk(slug: &str, title: &str, body: &str, children: Vec<usize>) -> (p: ManualPage)
    ensures
        p.view() == page(slug@, title@, body@, children@),
{
    ManualPage { slug: String::from_str(slug), title: String::from_str(title), body: String::from_str(body), children }
}

/// The manual's page tree, root first.
pub fn manual_tree() -> (t: Vec<ManualPage>)
    ensures
        t@.map_values(|p: ManualPage| p.view()) == spec_manual_tree(),
{
    let mut t: Vec<ManualPage> = Vec::new();
    let mut root_kids: Vec<usize> = Vec::new();
    root_kids.push(1);
    root_kids.push(2);
    root_kids.push(3);
    root_kids.push(4);
    root_kids.push(5);
    root_kids.push(8);
    let mut fs_kids: Vec<usize> = Vec::new();
    fs_kids.push(6);
    fs_kids.push(7);
    let mut zip_kids: Vec<usize> = Vec::new();
    zip_kids.push(9);
    proof {
        assert(root_kids@ =~= seq![1usize, 2, 3, 4, 5, 8]);
        assert(fs_kids@ =~= seq![6usize, 7]);
        assert(zip_kids@ =~= seq![9usize]);
    }
    t.push(mk("", "iotactl Manual", "", root_kids));
    t.push(mk("about-manual", "About This Manual", ABOUT_MANUAL, Vec::new()));
    t.push(mk("cli", "Command-Line Options", CLI_OPTIONS, Vec::new()));
    t.push(mk("navigation", "Navigation & Keybindings", NAVIGATION, Vec::new()));
    t.push(mk("node-sources", "Node Sources", NODE_SOURCES_OVERVIEW, Vec::new()));
    t.push(mk("filesystem", "Filesystem", "", fs_kids));
    t.push(mk("overview", "Overview", FS_OVERVIEW, Vec::new()));
    t.push(mk("toggles", "Toggles", FS_TOGGLES, Vec::new()));
    t.push(mk("zip", "Zip Archives", "", zip_kids));
    t.push(mk("overview", "Overview", ZIP_OVERVIEW, Vec::new()));
    proof {
        assert(t@.map_values(|p: ManualPage| p.view()) =~= spec_manual_tree());
    }
    t
}

/// `a.eq_ignore_ascii_case(b)`.
pub open spec fn eq_ignore_ascii_case(a: Seq<char>, b: Seq<char>) -> bool {
    ascii_lower_seq(a) == ascii_lower_seq(b)
}

/// The first of `children` (positions in `tree`) whose slug matches
/// `seg` without regard to ASCII case.
pub open spec fn first_match(tree: Seq<PageView>, children: Seq<usize>, seg: Seq<char>) -> Option<usize>
    decreases children.len(),
{
    if children.len() == 0 {
        None
    } else if 0 <= children[0] < tree.len() && eq_ignore_ascii_case(tree[children[0] as int].slug, seg) {
        Some(children[0])
    } else {
        first_match(tree, children.drop_first(), seg)
    }
}

/// Walks `id` down from page `cur`, one segment per level.
pub open spec fn spec_find(tree: Seq<PageView>, cur: usize, id: Seq<Seq<char>>) -> Option<usize>
    decreases id.len(),
{
    if id.len() == 0 {
        Some(cur)
    } else if cur < tree.len() {
        match first_match(tree, tree[cur as int].children, id[0]) {
            Some(next) => spec_find(tree, next, id.drop_first()),
            None => None,
        }
    } else {
        None
    }
}

/// Finding a path is finding its first part and then the rest from the
/// page reached: a manual scoped to a topic sees below it exactly what the
/// whole manual has below that topic.
pub proof fn lemma_find_in_steps(tree: Seq<PageView>, cur: usize, a: Seq<Seq<char>>, b: Seq<Seq<char>>)
    ensures
        spec_find(tree, cur, a + b) == match spec_find(tree, cur, a) {
            Some(p) => spec_find(tree, p, b),
            None => None,
        },
    decreases a.len(),
{
    if a.len() == 0 {
        assert(a + b =~= b);
    } else {
        assert((a + b)[0] == a[0]);
        assert((a + b).drop_first() =~= a.drop_first() + b);
        if cur < tree.len() {
            match first_match(tree, tree[cur as int].children, a[0]) {
                Some(next) => lemma_find_in_steps(tree, next, a.drop_first(), b),
                None => {},
            }
        }
    }
}

/// Every child position in the manual names a page of it.
pub open spec fn tree_closed(tree: Seq<PageView>) -> bool {
    forall|p: int, c: int| 0 <= p < tree.len() && 0 <= c < tree[p].children.len() ==> (#[trigger] tree[p].children[c]) < tree.len()
}

proof fn lemma_manual_closed()
    ensures
        tree_closed(spec_manual_tree()),
        spec_manual_tree().len() == 10,
{
    let t = spec_manual_tree();
    assert forall|p: int, c: int| 0 <= p < t.len() && 0 <= c < t[p].children.len() implies (#[trigger] t[p].children[c]) < t.len() by {
        if p == 0 { assert(t[0].children =~= seq![1usize, 2, 3, 4, 5, 8]); }
        else if p == 5 { assert(t[5].children =~= seq![6usize, 7]); }
        else if p == 8 { assert(t[8].children =~= seq![9usize]); }
    }
}

proof fn lemma_find_in_range(tree: Seq<PageView>, cur: usize, id: Seq<Seq<char>>)
    requires
        tree_closed(tree),
        cur < tree.len(),
    ensures
        spec_find(tree, cur, id) matches Some(p) ==> p < tree.len(),
    decreases id.len(),
{
    if id.len() > 0 {
        lemma_first_match_in(tree, tree[cur as int].children, id[0]);
        match first_match(tree, tree[cur as int].children, id[0]) {
            Some(next) => lemma_find_in_range(tree, next, id.drop_first()),
            None => {},
        }
    }
}

proof fn lemma_first_match_in(tree: Seq<PageView>, children: Seq<usize>, seg: Seq<char>)
    ensures
        first_match(tree, children, seg) matches Some(c) ==> c < tree.len(),
    decreases children.len(),
{
    if children.len() > 0 {
        lemma_first_match_in(tree, children.drop_first(), seg);
    }
}

/// The page `id` names below `cur`, if any.
fn find_page(tree: &Vec<ManualPage>, cur: usize, id: &[String]) -> (r: Option<usize>)
    requires
        tree_closed(tree@.map_values(|p: ManualPage| p.view())),
        cur < tree@.len(),
    ensures
        r == spec_find(tree@.map_values(|p: ManualPage| p.view()), cur, id@.map_values(|s: String| s@)),
{
    let ghost tv = tree@.map_values(|p: ManualPage| p.view());
    let ghost ids = id@.map_values(|s: String| s@);
    let mut page: usize = cur;
    let mut i: usize = 0;
    proof {
        assert(ids.skip(0) =~= ids);
    }
    while i < id.len()
        invariant
            i <= id@.len(),
            tv == tree@.map_values(|p: ManualPage| p.view()),
            ids == id@.map_values(|s: String| s@),
            tree_closed(tv),
            page < tree@.len(),
            spec_find(tv, page, ids.skip(i as int)) == spec_find(tv, cur, ids),
        decreases id.len() - i,
    {
        let seg = ascii_lower_chars(chars_of(id[i].as_str()).as_slice());
        let children = &tree[page].children;
        let ghost rest = ids.skip(i as int);
        proof {
            assert(rest[0] == id@[i as int]@);
            assert(rest.drop_first() =~= ids.skip(i + 1));
        }
        let mut found: Option<usize> = None;
        let mut j: usize = 0;
        proof {
            assert(children@.skip(0) =~= children@);
        }
        while j < children.len()
            invariant
                j <= children@.len(),
                rest.len() > 0,
                children@ == tv[page as int].children,
                tv == tree@.map_values(|p: ManualPage| p.view()),
                tree_closed(tv),
                page < tree@.len(),
                seg@ == ascii_lower_seq(rest[0]),
                found is None ==> first_match(tv, children@.skip(j as int), rest[0]) == first_match(tv, children@, rest[0]),
                found matches Some(f) ==> first_match(tv, children@, rest[0]) == Some(f),
            decreases children.len() - j,
        {
            if found.is_none() {
                let c = children[j];
                proof {
                    assert(children@.skip(j as int)[0] == c);
                    assert(children@.skip(j as int).drop_first() =~= children@.skip(j + 1));
                    assert(c < tree@.len());
                }
                let slug = ascii_lower_chars(chars_of(tree[c].slug.as_str()).as_slice());
                if chars_eq(slug.as_slice(), seg.as_slice()) {
                    found = Some(c);
                }
            }
            j = j + 1;
        }
        proof {
            if found is None {
                assert(children@.skip(children@.len() as int).len() == 0);
            }
        }
        match found {
            None => {
                return None;
            },
            Some(next) => {
                proof {
                    lemma_first_match_in(tv, children@, rest[0]);
                }
                page = next;
            },
        }
        i = i + 1;
    }
    proof {
        assert(ids.skip(id@.len() as int).len() == 0);
    }
    Some(page)
}

pub open spec fn join_slash(id: Seq<Seq<char>>) -> Seq<char>
    decreases id.len(),
{
    if id.len() == 0 { Seq::empty() } else if id.len() == 1 { id[0] } else { join_slash(id.drop_last()) + seq!['/'] + id.last() }
}

/// `id.join("/")`.
pub fn join_id(id: &[String]) -> (s: String)
    ensures
        s@ == join_slash(id@.map_values(|x: String| x@)),
{
    let ghost ids = id@.map_values(|x: String| x@);
    let mut r: Vec<char> = Vec::new();
    let mut i: usize = 0;
    while i < id.len()
        invariant
            i <= id@.len(),
            ids == id@.map_values(|x: String| x@),
            r@ == join_slash(ids.subrange(0, i as int)),
        decreases id.len() - i,
    {
        proof {
            assert(ids.subrange(0, i + 1).drop_last() =~= ids.subrange(0, i as int));
        }
        if i > 0 {
            r.push('/');
        }
        let cs = chars_of(id[i].as_str());
        crate::text::append_chars(&mut r, cs.as_slice());
        proof {
            if i == 0 {
                assert(ids.subrange(0, 1) =~= seq![ids[0]]);
                assert(r@ =~= ids[0]);
            } else {
                assert(r@ =~= join_slash(ids.subrange(0, i + 1)));
            }
        }
        i = i + 1;
    }
    proof {
        assert(ids.subrange(0, id@.len() as int) =~= ids);
    }
    string_of(r.as_slice())
}

pub open spec fn no_such_page_message(id: Seq<Seq<char>>) -> Seq<char> {
    "no such manual page: "@ + join_slash(id)
}

/// The error for an id that names no page.
pub fn no_such_page(id: &[String]) -> (e: SourceError)
    ensures
        e.kind == ErrorKind::NotFound,
        e.message@ == no_such_page_message(id@.map_values(|x: String| x@)),
{
    let mut m = String::from_str("no such manual page: ");
    let j = join_id(id);
    m.append(j.as_str());
    SourceError::new(ErrorKind::NotFound, m)
}


/// The directory-listing line a category shows for its child page `p`.
pub open spec fn page_line(p: PageView, nerd_font: bool) -> Seq<SpanView> {
    if p.children.len() > 0 {
        spec_entry_line(p.title, true, false, Some(FOLDER_ICON), None, nerd_font)
    } else {
        spec_entry_line(p.title, false, false, Some(markdown_icon().0), Some(markdown_icon().1), nerd_font)
    }
}

/// The entry for a manual page addressed at `id`: named by its title, a
/// directory when it has children (with the folder glyph), a markdown
/// leaf otherwise.
pub open spec fn page_entry_ok(e: Entry, id: Seq<Seq<char>>, p: PageView) -> bool {
    &&& e.name@ == p.title
    &&& e.id@.map_values(|s: String| s@) == id
    &&& e.is_dir == (p.children.len() > 0)
    &&& !e.is_link
    &&& e.suggested_commands@.len() == 0
    &&& if p.children.len() > 0 {
        e.nerd_icon == Some(FOLDER_ICON) && e.nerd_icon_color is None
    } else {
        e.nerd_icon == Some(markdown_icon().0) && e.nerd_icon_color == Some(markdown_icon().1)
    }
}

fn copy_ids(id: &[String]) -> (r: Vec<String>)
    ensures
        r@.map_values(|s: String| s@) == id@.map_values(|s: String| s@),
{
    let mut r: Vec<String> = Vec::new();
    let mut i: usize = 0;
    while i < id.len()
        invariant
            i <= id@.len(),
            r@.map_values(|s: String| s@) == id@.map_values(|s: String| s@).subrange(0, i as int),
        decreases id.len() - i,
    {
        let ghost before = r@;
        r.push(id[i].clone());
        proof {
            let iv = id@.map_values(|s: String| s@);
            assert(r@.map_values(|s: String| s@) =~= before.map_values(|s: String| s@).push(id@[i as int]@));
            assert(iv.subrange(0, i + 1) =~= iv.subrange(0, i as int).push(iv[i as int]));
        }
        i = i + 1;
    }
    proof {
        assert(id@.map_values(|s: String| s@).subrange(0, id@.len() as int) =~= id@.map_values(|s: String| s@));
    }
    r
}

fn page_entry(id: Vec<String>, p: &ManualPage) -> (e: Entry)
    ensures
        page_entry_ok(e, id@.map_values(|s: String| s@), p.view()),
{
    let is_dir = p.children.len() > 0;
    let (icon, color) = if is_dir {
        (FOLDER_ICON, None)
    } else {
        let (i, c) = crate::fs::markdown_icon_exec();
        (i, Some(c))
    };
    Entry {
        name: p.title.clone(),
        id,
        is_dir,
        is_link: false,
        suggested_commands: Vec::new(),
        nerd_icon: Some(icon),
        nerd_icon_color: color,
    }
}

/// A node source over the manual's page tree, scoped to the page `root`
/// names: every id it is given is relative to that page.
pub struct ManualSource {
    root: Vec<String>,
    tree: Vec<ManualPage>,
}

impl ManualSource {
    #[verifier::type_invariant]
    spec fn inv(self) -> bool {
        &&& self.tree@.map_values(|p: ManualPage| p.view()) == spec_manual_tree()
        &&& spec_find(spec_manual_tree(), 0, self.root@.map_values(|s: String| s@)) is Some
    }

    /// The id, from the manual's top, of the page this source is scoped to.
    pub closed spec fn spec_root(&self) -> Seq<Seq<char>> {
        self.root@.map_values(|s: String| s@)
    }

    /// Scopes a manual source to the page `root` names (the command-line
    /// path after `manual://`, split on `/` with empty pieces dropped).
    /// Refused, before anything else is built, when no page has that id.
    pub fn new(root: &str) -> (r: Result<ManualSource, SourceError>)
        ensures
            ({
                let id = split_nonempty(root@, '/');
                match r {
                    Ok(m) => spec_find(spec_manual_tree(), 0, id) is Some && m.spec_root() == id,
                    Err(e) => spec_find(spec_manual_tree(), 0, id) is None && e.kind == ErrorKind::NotFound
                        && e.message@ == no_such_page_message(id),
                }
            }),
    {
        let id = split_nonempty_strings(root, '/');
        let tree = manual_tree();
        proof {
            lemma_manual_closed();
            assert(id@.map_values(|s: String| s@) =~= split_nonempty(root@, '/'));
        }
        match find_page(&tree, 0, id.as_slice()) {
            Some(_) => Ok(ManualSource { root: id, tree }),
            None => Err(no_such_page(id.as_slice())),
        }
    }

    /// The id from the manual's top of the node `id` names in this source.
    pub fn absolute(&self, id: &[String]) -> (r: Vec<String>)
        ensures
            r@.map_values(|s: String| s@) == self.spec_root() + id@.map_values(|s: String| s@),
    {
        let mut r = copy_ids(self.root.as_slice());
        let more = copy_ids(id);
        let ghost a = r@;
        let ghost b = more@;
        let mut more = more;
        r.append(&mut more);
        proof {
            assert(r@ == a + b);
            assert(r@.map_values(|s: String| s@) =~= self.spec_root() + id@.map_values(|s: String| s@));
        }
        r
    }

    fn find(&self, abs: &[String]) -> (r: Option<usize>)
        ensures
            r == spec_find(spec_manual_tree(), 0, abs@.map_values(|s: String| s@)),
            r matches Some(p) ==> p < spec_manual_tree().len(),
    {
        proof {
            use_type_invariant(self);
            lemma_manual_closed();
            lemma_find_in_range(spec_manual_tree(), 0, abs@.map_values(|s: String| s@));
        }
        find_page(&self.tree, 0, abs)
    }

    /// The children of the page at `id`, as entries under `id`, in the
    /// manual's order.
    pub fn read_dir(&self, id: &[String]) -> (r: Result<Vec<Entry>, SourceError>)
        ensures
            ({
                let abs = self.spec_root() + id@.map_values(|s: String| s@);
                let t = spec_manual_tree();
                match spec_find(t, 0, abs) {
                    Some(p) => r matches Ok(v) && v@.len() == t[p as int].children.len()
                        && forall|i: int| 0 <= i < v@.len() ==> page_entry_ok(#[trigger] v@[i],
                            id@.map_values(|s: String| s@).push(t[t[p as int].children[i] as int].slug),
                            t[t[p as int].children[i] as int]),
                    None => r matches Err(e) && e.kind == ErrorKind::NotFound && e.message@ == no_such_page_message(abs),
                }
            }),
    {
        proof {
            use_type_invariant(self);
            lemma_manual_closed();
        }
        let abs = self.absolute(id);
        let p = match self.find(abs.as_slice()) {
            Some(p) => p,
            None => {
                return Err(no_such_page(abs.as_slice()));
            },
        };
        let ghost t = spec_manual_tree();
        let children = &self.tree[p].children;
        let mut out: Vec<Entry> = Vec::new();
        let mut i: usize = 0;
        while i < children.len()
            invariant
                i <= children@.len(),
                t == spec_manual_tree(),
                self.tree@.map_values(|q: ManualPage| q.view()) == t,
                tree_closed(t),
                p < t.len(),
                children@ == t[p as int].children,
                out@.len() == i,
                forall|k: int| 0 <= k < i ==> page_entry_ok(#[trigger] out@[k],
                    id@.map_values(|s: String| s@).push(t[t[p as int].children[k] as int].slug),
                    t[t[p as int].children[k] as int]),
            decreases children.len() - i,
        {
            let c = children[i];
            let mut cid = copy_ids(id);
            let ghost before = cid@;
            cid.push(self.tree[c].slug.clone());
            proof {
                assert(cid@.map_values(|s: String| s@) =~= before.map_values(|s: String| s@).push(t[c as int].slug));
            }
            out.push(page_entry(cid, &self.tree[c]));
            i = i + 1;
        }
        Ok(out)
    }

    /// The entry for this source's own root page.
    pub fn root_entry(&self) -> (e: Entry)
        ensures
            ({
                let t = spec_manual_tree();
                let p = spec_find(t, 0, self.spec_root())->Some_0;
                page_entry_ok(e, Seq::empty(), t[p as int])
            }),
    {
        proof {
            use_type_invariant(self);
            lemma_manual_closed();
        }
        let p = match self.find(self.root.as_slice()) {
            Some(p) => p,
            None => {
                proof {
                    assert(false);
                }
                0
            },
        };
        let e = page_entry(Vec::new(), &self.tree[p]);
        proof {
            assert(Seq::<String>::empty().map_values(|s: String| s@) =~= Seq::<Seq<char>>::empty());
        }
        e
    }

    /// The markdown text of the page at `id` (empty for a category), the
    /// raw bytes `open` hands out.
    pub fn page_text(&self, id: &[String]) -> (r: Result<String, SourceError>)
        ensures
            ({
                let abs = self.spec_root() + id@.map_values(|s: String| s@);
                let t = spec_manual_tree();
                match spec_find(t, 0, abs) {
                    Some(p) => r matches Ok(b) && b@ == t[p as int].body,
                    None => r matches Err(e) && e.kind == ErrorKind::NotFound && e.message@ == no_such_page_message(abs),
                }
            }),
    {
        proof {
            use_type_invariant(self);
        }
        let abs = self.absolute(id);
        match self.find(abs.as_slice()) {
            Some(p) => Ok(self.tree[p].body.clone()),
            None => Err(no_such_page(abs.as_slice())),
        }
    }

    /// The preview of the page at `id`: a leaf's markdown, highlighted as
    /// markdown; a category's children listed like a directory, with the
    /// line-number gutter off; an error line when no page has that id.
    pub fn preview(&self, reg: &Registry, id: &[String], hide_markers: bool, nerd_font: bool) -> (pv: Preview)
        ensures
            ({
                let abs = self.spec_root() + id@.map_values(|s: String| s@);
                let t = spec_manual_tree();
                match spec_find(t, 0, abs) {
                    Some(p) => if t[p as int].children.len() == 0 {
                        !pv.override_disable_line_numbers
                            && pv.text.view() == spec_highlighted_text(reg.spec_models(), "manual.md"@, t[p as int].body, hide_markers)
                    } else {
                        pv.override_disable_line_numbers
                            && pv.text.view().len() == t[p as int].children.len()
                            && forall|i: int| 0 <= i < pv.text.view().len() ==> #[trigger] pv.text.view()[i]
                                == page_line(t[t[p as int].children[i] as int], nerd_font)
                    },
                    None => !pv.override_disable_line_numbers
                        && pv.text.view() == spec_sanitize_lines(no_such_page_message(abs), fg_style(Color::Red), true),
                }
            }),
    {
        proof {
            use_type_invariant(self);
            lemma_manual_closed();
        }
        let abs = self.absolute(id);
        let p = match self.find(abs.as_slice()) {
            Some(p) => p,
            None => {
                let e = no_such_page(abs.as_slice());
                return Preview::new(error_text(e.message.as_str()));
            },
        };
        let ghost t = spec_manual_tree();
        if self.tree[p].children.len() == 0 {
            return Preview::new(highlighted_text(reg, "manual.md", self.tree[p].body.as_str(), hide_markers));
        }
        let entries = match self.read_dir(id) {
            Ok(v) => v,
            Err(_) => {
                proof {
                    assert(false);
                }
                Vec::new()
            },
        };
        let text = format_dir_preview(entries.as_slice(), nerd_font);
        proof {
            assert forall|i: int| 0 <= i < text.view().len() implies #[trigger] text.view()[i]
                == page_line(t[t[p as int].children[i] as int], nerd_font) by {
                assert(page_entry_ok(entries@[i], id@.map_values(|s: String| s@).push(t[t[p as int].children[i] as int].slug),
                    t[t[p as int].children[i] as int]));
            }
        }
        Preview::without_line_numbers(text)
    }

    /// The manual has no commands, so every one is refused.
    pub fn execute_command(&self, command: &Command) -> (r: Result<(), SourceError>)
        ensures
            r matches Err(e) && e.kind == ErrorKind::Unsupported
                && e.message@ == "the manual has no command named "@ + spec_debug_str(command.name@),
    {
        let mut m = String::from_str("the manual has no command named ");
        let d = debug_str(command.name.as_str());
        m.append(d.as_str());
        Err(SourceError::new(ErrorKind::Unsupported, m))
    }
}

} // verus!
