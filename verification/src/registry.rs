//! The kinds of node source the browser knows, and how a command-line path
//! selects one: whether the path looks like a URI at all, how a URI path is
//! split into `|`-piped segments, which registered scheme a segment
//! names, and which kinds accept (or require) a piped-in upstream source.
//!
//! Constructing a source itself (opening a directory, reading piped bytes)
//! is I/O and is left to the caller; this module makes every decision
//! around it.

use vstd::prelude::*;

use crate::error::{ErrorKind, SourceError, debug_str, spec_debug_str};
use crate::text::{chars_of, chars_eq, str_is, is_ascii_alpha, is_ascii_alpha_exec, is_ascii_alnum, is_ascii_digit_exec, slice_chars, starts_with_chars, string_of, trim, trim_chars};
use crate::toggle::Toggle;

verus! {

/// Which node source implementation a [`NodeSourceType`] describes.
#[derive(Clone, Copy, Debug, PartialEq, Eq, Structural)]
pub enum SourceKind {
    Manual,
    Fs,
    Zip,
}

/// Describes one kind of node source, independent of any instance of it:
/// the URI schemes that select it and the toggles it exposes.
pub struct NodeSourceType {
    pub kind: SourceKind,
    /// URI schemes that select this type on the command line, matched as a
    /// prefix of a path segment.
    pub schemes: Vec<String>,
    /// The toggles this type of source makes available.
    pub toggles: Vec<Toggle>,
}

/// The value of every toggle any registered source type exposes. Toggle
/// state is process-wide: only one source is in use at a time.
#[derive(Clone, Copy, Debug, PartialEq, Eq, Structural)]
pub struct ToggleState {
    pub hidden: bool,
    pub raw: bool,
    pub meta: bool,
}

/// The plain-value view of a [`NodeSourceType`]: its kind, its schemes and
/// its `(name, key)` toggles.
pub struct TypeView {
    pub kind: SourceKind,
    pub schemes: Seq<Seq<char>>,
    pub toggles: Seq<(Seq<char>, char)>,
}

impl NodeSourceType {
    pub open spec fn view(&self) -> TypeView {
        TypeView {
            kind: self.kind,
            schemes: self.schemes@.map_values(|s: String| s@),
            toggles: self.toggles@.map_values(|t: Toggle| (t.name@, t.key)),
        }
    }

    /// Whether this type exposes a toggle named `name` — as opposed to
    /// [`toggle_known`], which checks every registered type at once.
    pub fn has_toggle(&self, name: &str) -> (r: bool)
        ensures
            r == exists|j: int| 0 <= j < self.toggles@.len() && #[trigger] self.toggles@[j].name@ == name@,
    {
        let mut j: usize = 0;
        while j < self.toggles.len()
            invariant
                j <= self.toggles@.len(),
                forall|k: int| 0 <= k < j ==> #[trigger] self.toggles@[k].name@ != name@,
            decreases self.toggles.len() - j,
        {
            let n = self.toggles[j].name.as_str();
            let a = chars_of(n);
            let b = chars_of(name);
            if chars_eq(a.as_slice(), b.as_slice()) {
                return true;
            }
            j = j + 1;
        }
        false
    }

    /// Sets `toggle` (one of this type's own toggles) to `value` in `state`.
    /// A toggle this type does not expose is refused as `Unsupported`, and
    /// `state` is left alone.
    pub fn set_toggle(&self, state: &mut ToggleState, toggle: &Toggle, value: bool) -> (r: Result<(), SourceError>)
        ensures
            r is Ok <==> spec_type_has_toggle(self.view(), toggle.name@),
            r is Ok ==> *final(state) == spec_set_toggle(*old(state), toggle.name@, value),
            r is Err ==> *final(state) == *old(state) && r->Err_0.kind == ErrorKind::Unsupported,
    {
        if !self.has_toggle(toggle.name.as_str()) {
            let mut msg = type_label(self.kind);
            msg.append(" has no toggle named ");
            let q = debug_str(toggle.name.as_str());
            msg.append(q.as_str());
            proof {
                assert(!spec_type_has_toggle(self.view(), toggle.name@)) by {
                    if spec_type_has_toggle(self.view(), toggle.name@) {
                        let j = choose|j: int| 0 <= j < self.view().toggles.len() && self.view().toggles[j].0 == toggle.name@;
                        assert(self.toggles@[j].name@ == toggle.name@);
                    }
                }
            }
            return Err(SourceError::new(ErrorKind::Unsupported, msg));
        }
        proof {
            let j = choose|j: int| 0 <= j < self.toggles@.len() && #[trigger] self.toggles@[j].name@ == toggle.name@;
            assert(self.view().toggles[j].0 == toggle.name@);
        }
        *state = set_toggle_value(*state, toggle.name.as_str(), value);
        Ok(())
    }

    /// Reads the current value of `toggle` (one of this type's own toggles)
    /// from `state`. A toggle this type does not expose is refused as
    /// `Unsupported`.
    pub fn get_toggle(&self, state: &ToggleState, toggle: &Toggle) -> (r: Result<bool, SourceError>)
        ensures
            r is Ok <==> spec_type_has_toggle(self.view(), toggle.name@),
            r is Ok ==> r->Ok_0 == spec_get_toggle(*state, toggle.name@),
            r is Err ==> r->Err_0.kind == ErrorKind::Unsupported,
    {
        if !self.has_toggle(toggle.name.as_str()) {
            let mut msg = type_label(self.kind);
            msg.append(" has no toggle named ");
            let q = debug_str(toggle.name.as_str());
            msg.append(q.as_str());
            proof {
                assert(!spec_type_has_toggle(self.view(), toggle.name@)) by {
                    if spec_type_has_toggle(self.view(), toggle.name@) {
                        let j = choose|j: int| 0 <= j < self.view().toggles.len() && self.view().toggles[j].0 == toggle.name@;
                        assert(self.toggles@[j].name@ == toggle.name@);
                    }
                }
            }
            return Err(SourceError::new(ErrorKind::Unsupported, msg));
        }
        proof {
            let j = choose|j: int| 0 <= j < self.toggles@.len() && #[trigger] self.toggles@[j].name@ == toggle.name@;
            assert(self.view().toggles[j].0 == toggle.name@);
        }
        Ok(get_toggle_value(*state, toggle.name.as_str()))
    }
}

/// The name a source type uses for itself in error messages.
pub fn type_label(kind: SourceKind) -> (s: String)
    ensures
        s@ == spec_type_label(kind),
{
    match kind {
        SourceKind::Manual => String::from_str("the manual"),
        SourceKind::Fs => String::from_str("FsSource"),
        SourceKind::Zip => String::from_str("FsSource"),
    }
}

pub open spec fn spec_type_label(kind: SourceKind) -> Seq<char> {
    match kind {
        SourceKind::Manual => "the manual"@,
        SourceKind::Fs => "FsSource"@,
        SourceKind::Zip => "FsSource"@,
    }
}

pub open spec fn spec_type_has_toggle(t: TypeView, name: Seq<char>) -> bool {
    exists|j: int| 0 <= j < t.toggles.len() && t.toggles[j].0 == name
}

/// `state` with the toggle called `name` set to `value` (unchanged for a
/// name that is none of them).
pub open spec fn spec_set_toggle(state: ToggleState, name: Seq<char>, value: bool) -> ToggleState {
    if name == "hidden"@ {
        ToggleState { hidden: value, ..state }
    } else if name == "raw"@ {
        ToggleState { raw: value, ..state }
    } else if name == "meta"@ {
        ToggleState { meta: value, ..state }
    } else {
        state
    }
}

pub open spec fn spec_get_toggle(state: ToggleState, name: Seq<char>) -> bool {
    if name == "hidden"@ {
        state.hidden
    } else if name == "raw"@ {
        state.raw
    } else if name == "meta"@ {
        state.meta
    } else {
        false
    }
}

fn set_toggle_value(state: ToggleState, name: &str, value: bool) -> (r: ToggleState)
    ensures
        r == spec_set_toggle(state, name@, value),
{
    if str_is(name, "hidden") {
        ToggleState { hidden: value, ..state }
    } else if str_is(name, "raw") {
        ToggleState { raw: value, ..state }
    } else if str_is(name, "meta") {
        ToggleState { meta: value, ..state }
    } else {
        state
    }
}

fn get_toggle_value(state: ToggleState, name: &str) -> (r: bool)
    ensures
        r == spec_get_toggle(state, name@),
{
    if str_is(name, "hidden") {
        state.hidden
    } else if str_is(name, "raw") {
        state.raw
    } else if str_is(name, "meta") {
        state.meta
    } else {
        false
    }
}

/// The toggles the filesystem source (and the zip source, which browses an
/// archive with the filesystem source's machinery) exposes.
pub open spec fn spec_fs_toggles() -> Seq<(Seq<char>, char)> {
    seq![("hidden"@, 'H'), ("raw"@, 'r'), ("meta"@, 'm')]
}

/// Every registered node source type, in the order schemes are matched.
pub open spec fn spec_node_source_types() -> Seq<TypeView> {
    seq![
        TypeView { kind: SourceKind::Manual, schemes: seq!["manual://"@], toggles: seq![("raw"@, 'r')] },
        TypeView { kind: SourceKind::Fs, schemes: seq!["file://"@], toggles: spec_fs_toggles() },
        TypeView { kind: SourceKind::Zip, schemes: seq!["zip://"@], toggles: spec_fs_toggles() },
    ]
}

pub fn fs_toggles() -> (v: Vec<Toggle>)
    ensures
        v@.map_values(|t: Toggle| (t.name@, t.key)) == spec_fs_toggles(),
{
    let mut v: Vec<Toggle> = Vec::new();
    v.push(Toggle::new("hidden", 'H'));
    v.push(Toggle::new("raw", 'r'));
    v.push(Toggle::new("meta", 'm'));
    proof {
        assert(v@.map_values(|t: Toggle| (t.name@, t.key)) =~= spec_fs_toggles());
    }
    v
}

fn one_scheme(s: &str) -> (v: Vec<String>)
    ensures
        v@.map_values(|x: String| x@) == seq![s@],
{
    let mut v: Vec<String> = Vec::new();
    v.push(String::from_str(s));
    proof {
        assert(v@.map_values(|x: String| x@) =~= seq![s@]);
    }
    v
}

/// Every node source type the browser knows how to construct.
pub fn node_source_types() -> (v: Vec<NodeSourceType>)
    ensures
        v@.len() == spec_node_source_types().len(),
        forall|i: int| 0 <= i < v@.len() ==> #[trigger] v@[i].view() == spec_node_source_types()[i],
{
    let mut manual_toggles: Vec<Toggle> = Vec::new();
    manual_toggles.push(Toggle::new("raw", 'r'));
    proof {
        assert(manual_toggles@.map_values(|t: Toggle| (t.name@, t.key)) =~= seq![("raw"@, 'r')]);
    }
    let mut v: Vec<NodeSourceType> = Vec::new();
    v.push(NodeSourceType { kind: SourceKind::Manual, schemes: one_scheme("manual://"), toggles: manual_toggles });
    v.push(NodeSourceType { kind: SourceKind::Fs, schemes: one_scheme("file://"), toggles: fs_toggles() });
    v.push(NodeSourceType { kind: SourceKind::Zip, schemes: one_scheme("zip://"), toggles: fs_toggles() });
    v
}

/// Whether some registered node source type — not necessarily the one in
/// use — exposes a toggle named `name`.
pub open spec fn spec_toggle_known(name: Seq<char>) -> bool {
    exists|i: int| 0 <= i < spec_node_source_types().len() && #[trigger] spec_type_has_toggle(spec_node_source_types()[i], name)
}

/// Whether *some* known node source type exposes a toggle named `name`.
pub fn toggle_known(name: &str) -> (r: bool)
    ensures
        r == spec_toggle_known(name@),
{
    let types = node_source_types();
    let mut i: usize = 0;
    while i < types.len()
        invariant
            i <= types@.len(),
            types@.len() == spec_node_source_types().len(),
            forall|k: int| 0 <= k < types@.len() ==> #[trigger] types@[k].view() == spec_node_source_types()[k],
            forall|k: int| 0 <= k < i ==> !spec_type_has_toggle(#[trigger] spec_node_source_types()[k], name@),
        decreases types.len() - i,
    {
        if types[i].has_toggle(name) {
            proof {
                let j = choose|j: int| 0 <= j < types@[i as int].toggles@.len() && #[trigger] types@[i as int].toggles@[j].name@ == name@;
                assert(types@[i as int].view().toggles[j].0 == name@);
                assert(spec_type_has_toggle(spec_node_source_types()[i as int], name@));
            }
            return true;
        }
        proof {
            if spec_type_has_toggle(spec_node_source_types()[i as int], name@) {
                let t = types@[i as int].view();
                let j = choose|j: int| 0 <= j < t.toggles.len() && t.toggles[j].0 == name@;
                assert(types@[i as int].toggles@[j].name@ == name@);
            }
        }
        i = i + 1;
    }
    false
}

/// A character allowed in a URI scheme after its first: a letter, a digit,
/// `+`, `-` or `.` (RFC 3986 §3.1).
pub open spec fn is_scheme_char(c: char) -> bool {
    is_ascii_alnum(c) || c == '+' || c == '-' || c == '.'
}

pub open spec fn sep_at(s: Seq<char>, k: int) -> bool {
    0 <= k && k + 3 <= s.len() && s[k] == ':' && s[k + 1] == '/' && s[k + 2] == '/'
}

/// Whether `s` is shaped like `scheme://...`: a letter, then any letters,
/// digits, `+`, `-` or `.`, immediately followed by `://`.
pub open spec fn spec_looks_like_uri(s: Seq<char>) -> bool {
    exists|k: int|
        1 <= k && #[trigger] sep_at(s, k) && is_ascii_alpha(s[0]) && (forall|j: int| 1 <= j < k ==> is_scheme_char(#[trigger] s[j]))
}

fn is_scheme_char_exec(c: char) -> (r: bool)
    ensures
        r == is_scheme_char(c),
{
    is_ascii_alpha_exec(c) || is_ascii_digit_exec(c) || c == '+' || c == '-' || c == '.'
}

/// Whether `path_arg` looks like it's trying to be a URI — `scheme://...`
/// — as opposed to an ordinary filesystem path that happens to contain a
/// colon or slashes. The scheme grammar follows RFC 3986 §3.1.
pub fn looks_like_uri(path_arg: &str) -> (r: bool)
    ensures
        r == spec_looks_like_uri(path_arg@),
{
    let s = chars_of(path_arg);
    let n = s.len();
    if n == 0 || !is_ascii_alpha_exec(s[0]) {
        return false;
    }
    let mut i: usize = 1;
    while i < n && is_scheme_char_exec(s[i])
        invariant
            1 <= i <= n,
            n == s@.len(),
            s@ == path_arg@,
            forall|j: int| 1 <= j < i ==> is_scheme_char(#[trigger] s@[j]),
        decreases n - i,
    {
        i = i + 1;
    }
    let r = n - i >= 3 && s[i] == ':' && s[i + 1] == '/' && s[i + 2] == '/';
    proof {
        if r {
            assert(sep_at(s@, i as int));
        } else if spec_looks_like_uri(s@) {
            let k = choose|k: int|
                1 <= k && #[trigger] sep_at(s@, k) && is_ascii_alpha(s@[0]) && (forall|j: int| 1 <= j < k ==> is_scheme_char(#[trigger] s@[j]));
            if k < i {
                assert(is_scheme_char(s@[k]));
            } else if k > i {
                assert(is_scheme_char(s@[i as int]));
            }
        }
    }
    r
}

/// The raw `|`-delimited pieces of `s`, before trimming: a lone `|` ends a
/// piece, while `||` (resolved greedily, left to right) stands for one
/// literal `|` inside a piece.
pub open spec fn pipe_pieces(s: Seq<char>) -> Seq<Seq<char>>
    decreases s.len(),
{
    if s.len() == 0 {
        seq![Seq::<char>::empty()]
    } else if s[0] == '|' && s.len() >= 2 && s[1] == '|' {
        let rest = pipe_pieces(s.skip(2));
        rest.update(0, seq!['|'] + rest[0])
    } else if s[0] == '|' {
        seq![Seq::<char>::empty()] + pipe_pieces(s.skip(1))
    } else {
        let rest = pipe_pieces(s.skip(1));
        rest.update(0, seq![s[0]] + rest[0])
    }
}

pub proof fn lemma_pipe_pieces_nonempty(s: Seq<char>)
    ensures
        pipe_pieces(s).len() >= 1,
    decreases s.len(),
{
    if s.len() >= 2 && s[0] == '|' && s[1] == '|' {
        lemma_pipe_pieces_nonempty(s.skip(2));
    } else if s.len() > 0 {
        lemma_pipe_pieces_nonempty(s.skip(1));
    }
}

/// `s` with every `|` doubled, so that it reads as one literal `|` in a
/// pipe segment.
pub open spec fn escape_pipes(s: Seq<char>) -> Seq<char>
    decreases s.len(),
{
    if s.len() == 0 {
        Seq::empty()
    } else {
        (if s[0] == '|' { seq!['|', '|'] } else { seq![s[0]] }) + escape_pipes(s.skip(1))
    }
}

/// The segments `segs`, each with its `|`s doubled, joined by single `|`s.
pub open spec fn join_segments(segs: Seq<Seq<char>>) -> Seq<char>
    decreases segs.len(),
{
    if segs.len() == 0 {
        Seq::empty()
    } else if segs.len() == 1 {
        escape_pipes(segs[0])
    } else {
        escape_pipes(segs[0]) + seq!['|'] + join_segments(segs.skip(1))
    }
}

/// An escaped piece runs on into whatever follows it: its doubled `|`s
/// are read back in pairs, never as a boundary.
proof fn lemma_escaped_prefix(s: Seq<char>, t: Seq<char>)
    ensures
        pipe_pieces(escape_pipes(s) + t) == pipe_pieces(t).update(0, s + pipe_pieces(t)[0]),
    decreases s.len(),
{
    lemma_pipe_pieces_nonempty(t);
    let r = pipe_pieces(t);
    if s.len() == 0 {
        assert(escape_pipes(s) + t =~= t);
        assert(s + r[0] =~= r[0]);
        assert(r.update(0, r[0]) =~= r);
    } else {
        let u = escape_pipes(s) + t;
        lemma_escaped_prefix(s.skip(1), t);
        let tail = s.skip(1);
        if s[0] == '|' {
            assert(u.skip(2) =~= escape_pipes(tail) + t);
            assert(seq!['|'] + (tail + r[0]) =~= s + r[0]);
            assert(r.update(0, tail + r[0]).update(0, seq!['|'] + (tail + r[0])) =~= r.update(0, s + r[0]));
        } else {
            assert(u.skip(1) =~= escape_pipes(tail) + t);
            assert(seq![s[0]] + (tail + r[0]) =~= s + r[0]);
            assert(r.update(0, tail + r[0]).update(0, seq![s[0]] + (tail + r[0])) =~= r.update(0, s + r[0]));
        }
    }
}

proof fn lemma_pieces_of_joined(segs: Seq<Seq<char>>)
    requires
        segs.len() >= 1,
        forall|i: int| 1 <= i < segs.len() ==> joinable_later(#[trigger] segs[i], i == segs.len() - 1),
    ensures
        pipe_pieces(join_segments(segs)) == segs,
    decreases segs.len(),
{
    if segs.len() == 1 {
        lemma_escaped_prefix(segs[0], Seq::empty());
        assert(escape_pipes(segs[0]) + Seq::<char>::empty() =~= escape_pipes(segs[0]));
        assert(pipe_pieces(Seq::<char>::empty()).update(0, segs[0] + Seq::<char>::empty()) =~= segs);
    } else {
        let rest = segs.skip(1);
        assert forall|i: int| 1 <= i < rest.len() implies joinable_later(#[trigger] rest[i], i == rest.len() - 1) by {
            assert(rest[i] == segs[i + 1]);
            assert(joinable_later(segs[i + 1], i + 1 == segs.len() - 1));
        }
        lemma_pieces_of_joined(rest);
        let j = join_segments(rest);
        let t = seq!['|'] + j;
        assert(joinable_later(segs[1], 1 == segs.len() - 1));
        assert(t.skip(1) =~= j);
        if segs[1].len() == 0 {
            assert(rest.len() == 1);
            assert(j == escape_pipes(segs[1]));
            assert(j =~= Seq::<char>::empty());
            assert(t.len() == 1);
            assert(pipe_pieces(Seq::<char>::empty()) =~= seq![Seq::<char>::empty()]);
            assert(rest =~= seq![Seq::<char>::empty()]);
        } else {
            assert(j[0] == segs[1][0]) by {
                if rest.len() == 1 {
                    assert(j == escape_pipes(segs[1]));
                } else {
                    assert(j == escape_pipes(segs[1]) + seq!['|'] + join_segments(rest.skip(1)));
                }
            }
        }
        assert(pipe_pieces(t) == seq![Seq::<char>::empty()] + rest);
        lemma_escaped_prefix(segs[0], t);
        assert(escape_pipes(segs[0]) + seq!['|'] + j =~= escape_pipes(segs[0]) + t);
        assert(segs[0] + Seq::<char>::empty() =~= segs[0]);
        assert((seq![Seq::<char>::empty()] + rest).update(0, segs[0]) =~= segs);
    }
}

/// A segment after the first can be joined on: it does not start with `|`,
/// and it is empty only when it is the last.
pub open spec fn joinable_later(seg: Seq<char>, last: bool) -> bool {
    &&& (seg.len() > 0 ==> seg[0] != '|')
    &&& (seg.len() == 0 ==> last)
}

/// Doubling every `|` in each segment and joining the segments with single
/// `|`s addresses exactly those segments: `split_pipe_segments` of the
/// joined text (whose contract is `spec_split_pipe_segments`) gives them
/// back. This
/// holds for trimmed segments of which none after the first starts with
/// `|`, and none strictly between others is empty (either would put a
/// `||` across the boundary before it, which reads as a literal `|`).
pub proof fn lemma_split_undoes_join(segs: Seq<Seq<char>>)
    requires
        segs.len() >= 1,
        forall|i: int| 0 <= i < segs.len() ==> trim(#[trigger] segs[i], true) == segs[i],
        forall|i: int| 1 <= i < segs.len() ==> joinable_later(#[trigger] segs[i], i == segs.len() - 1),
    ensures
        spec_split_pipe_segments(join_segments(segs)) == segs,
{
    lemma_pieces_of_joined(segs);
    assert(segs.map_values(|p: Seq<char>| trim(p, true)) =~= segs);
}

/// The pipe segments of `s`: its `|`-delimited pieces, each trimmed of
/// surrounding ASCII whitespace.
pub open spec fn spec_split_pipe_segments(s: Seq<char>) -> Seq<Seq<char>> {
    pipe_pieces(s).map_values(|p: Seq<char>| trim(p, true))
}

/// Splits `path_arg` on unescaped `|` characters into pipe segments. A `|`
/// is a segment boundary unless doubled (`||`), which decodes to one
/// literal `|` within a segment instead; doubling is resolved greedily,
/// left to right, so `"a|||b"` splits into `"a|"` and `"b"`. Each segment
/// is trimmed of surrounding ASCII whitespace.
pub fn split_pipe_segments(path_arg: &str) -> (r: Vec<String>)
    ensures
        r@.len() == spec_split_pipe_segments(path_arg@).len(),
        forall|i: int| 0 <= i < r@.len() ==> #[trigger] r@[i]@ == spec_split_pipe_segments(path_arg@)[i],
{
    let s = chars_of(path_arg);
    let ghost whole = s@;
    let mut done: Vec<Vec<char>> = Vec::new();
    let mut cur: Vec<char> = Vec::new();
    let mut i: usize = 0;
    proof {
        assert(whole.skip(0) == whole);
        lemma_pipe_pieces_nonempty(whole);
    }
    while i < s.len()
        invariant
            i <= s@.len(),
            whole == s@,
            ({
                let rest = pipe_pieces(whole.skip(i as int));
                &&& rest.len() >= 1
                &&& pipe_pieces(whole).len() == done@.len() + rest.len()
                &&& forall|k: int| 0 <= k < done@.len() ==> #[trigger] done@[k]@ == pipe_pieces(whole)[k]
                &&& pipe_pieces(whole)[done@.len() as int] == cur@ + rest[0]
                &&& forall|k: int| 1 <= k < rest.len() ==> pipe_pieces(whole)[done@.len() + k] == #[trigger] rest[k]
            }),
        decreases s.len() - i,
    {
        let ghost suffix = whole.skip(i as int);
        let ghost old_done = done@;
        let ghost old_cur = cur@;
        let ghost total = pipe_pieces(whole);
        if s[i] == '|' && i + 1 < s.len() && s[i + 1] == '|' {
            let ghost rest2 = pipe_pieces(whole.skip(i + 2));
            proof {
                assert(suffix.skip(2) == whole.skip(i + 2));
                lemma_pipe_pieces_nonempty(whole.skip(i + 2));
                assert(pipe_pieces(suffix) == rest2.update(0, seq!['|'] + rest2[0]));
            }
            cur.push('|');
            proof {
                assert(cur@ + rest2[0] =~= old_cur + (seq!['|'] + rest2[0]));
                assert forall|k: int| 1 <= k < rest2.len() implies total[done@.len() + k] == #[trigger] rest2[k] by {
                    assert(pipe_pieces(suffix)[k] == rest2[k]);
                }
            }
            i = i + 2;
        } else if s[i] == '|' {
            let ghost rest1 = pipe_pieces(whole.skip(i + 1));
            proof {
                assert(suffix.skip(1) == whole.skip(i + 1));
                lemma_pipe_pieces_nonempty(whole.skip(i + 1));
                assert(pipe_pieces(suffix) == seq![Seq::<char>::empty()] + rest1);
                assert(old_cur + Seq::<char>::empty() =~= old_cur);
            }
            let piece = cur;
            done.push(piece);
            cur = Vec::new();
            proof {
                assert forall|k: int| 0 <= k < done@.len() implies #[trigger] done@[k]@ == total[k] by {
                    if k < old_done.len() {
                        assert(done@[k] == old_done[k]);
                    }
                }
                assert(total[done@.len() as int] == pipe_pieces(suffix)[1]);
                assert(cur@ + rest1[0] =~= rest1[0]);
                assert forall|k: int| 1 <= k < rest1.len() implies total[done@.len() + k] == #[trigger] rest1[k] by {
                    assert(pipe_pieces(suffix)[k + 1] == rest1[k]);
                }
            }
            i = i + 1;
        } else {
            let ghost rest1 = pipe_pieces(whole.skip(i + 1));
            proof {
                assert(suffix.skip(1) == whole.skip(i + 1));
                lemma_pipe_pieces_nonempty(whole.skip(i + 1));
                assert(suffix[0] == s@[i as int]);
                assert(pipe_pieces(suffix) == rest1.update(0, seq![suffix[0]] + rest1[0]));
            }
            cur.push(s[i]);
            proof {
                assert(cur@ + rest1[0] =~= old_cur + (seq![suffix[0]] + rest1[0]));
                assert forall|k: int| 1 <= k < rest1.len() implies total[done@.len() + k] == #[trigger] rest1[k] by {
                    assert(pipe_pieces(suffix)[k] == rest1[k]);
                }
            }
            i = i + 1;
        }
    }
    proof {
        assert(whole.skip(i as int).len() == 0);
        assert(pipe_pieces(whole.skip(i as int)) == seq![Seq::<char>::empty()]);
        assert(cur@ + Seq::<char>::empty() =~= cur@);
    }
    done.push(cur);
    let mut r: Vec<String> = Vec::new();
    let mut k: usize = 0;
    while k < done.len()
        invariant
            k <= done@.len(),
            done@.len() == pipe_pieces(whole).len(),
            whole == path_arg@,
            forall|m: int| 0 <= m < done@.len() ==> #[trigger] done@[m]@ == pipe_pieces(whole)[m],
            r@.len() == k,
            forall|m: int| 0 <= m < k ==> #[trigger] r@[m]@ == trim(pipe_pieces(whole)[m], true),
        decreases done.len() - k,
    {
        let t = trim_chars(done[k].as_slice(), true);
        r.push(string_of(t.as_slice()));
        k = k + 1;
    }
    r
}

/// How a command-line path is turned into a node source.
pub enum CreatePlan {
    /// The path does not look like a URI: browse it as a plain filesystem
    /// path with the filesystem type's `file://` scheme, unaltered — `|` is
    /// an ordinary character there.
    Filesystem,
    /// The path is a URI: build each pipe segment in turn, handing each the
    /// source built from the segment before it.
    Segments(Vec<String>),
}

/// Decides how `path_arg` selects its node source: plain filesystem paths
/// are never split on `|`, URI paths always are.
pub fn plan_create(path_arg: &str) -> (p: CreatePlan)
    ensures
        p is Filesystem <==> !spec_looks_like_uri(path_arg@),
        p matches CreatePlan::Segments(v) ==> {
            &&& v@.len() == spec_split_pipe_segments(path_arg@).len()
            &&& forall|i: int| 0 <= i < v@.len() ==> #[trigger] v@[i]@ == spec_split_pipe_segments(path_arg@)[i]
        },
{
    if !looks_like_uri(path_arg) {
        CreatePlan::Filesystem
    } else {
        CreatePlan::Segments(split_pipe_segments(path_arg))
    }
}

/// The first `(type, scheme)` pair, in registry order, whose scheme is a
/// prefix of `segment`.
pub open spec fn spec_scheme_matches(segment: Seq<char>, t: int, s: int) -> bool {
    let scheme = spec_node_source_types()[t].schemes[s];
    0 <= t < spec_node_source_types().len() && 0 <= s < spec_node_source_types()[t].schemes.len()
        && scheme.len() <= segment.len() && segment.subrange(0, scheme.len() as int) == scheme
}

pub open spec fn spec_pair_before(t1: int, s1: int, t2: int, s2: int) -> bool {
    t1 < t2 || (t1 == t2 && s1 < s2)
}

/// Which registered type a segment names, and the rest of the segment
/// after that type's scheme.
#[derive(Debug)]
pub struct SchemeMatch {
    pub type_index: usize,
    pub kind: SourceKind,
    pub scheme: String,
    pub rest: String,
}

/// Matches `segment` against every registered type's schemes as a prefix,
/// in registry order. Refuses a segment that names no registered scheme
/// with an `InvalidInput` error naming the unrecognized scheme and listing
/// every known one.
pub fn match_scheme(segment: &str) -> (r: Result<SchemeMatch, SourceError>)
    ensures
        r matches Ok(m) ==> {
            let t = m.type_index as int;
            exists|s: int| {
                &&& #[trigger] spec_scheme_matches(segment@, t, s)
                &&& forall|t2: int, s2: int| spec_pair_before(t2, s2, t, s) ==> !spec_scheme_matches(segment@, t2, s2)
                &&& m.scheme@ == spec_node_source_types()[t].schemes[s]
                &&& m.kind == spec_node_source_types()[t].kind
                &&& m.rest@ == segment@.subrange(spec_node_source_types()[t].schemes[s].len() as int, segment@.len() as int)
            }
        },
        r is Err <==> forall|t: int, s: int| !spec_scheme_matches(segment@, t, s),
        r matches Err(e) ==> e.kind == ErrorKind::InvalidInput && e.message@ == spec_unrecognized_scheme_message(segment@),
{
    let types = node_source_types();
    let seg = chars_of(segment);
    let mut t: usize = 0;
    while t < types.len()
        invariant
            t <= types@.len(),
            seg@ == segment@,
            types@.len() == spec_node_source_types().len(),
            forall|k: int| 0 <= k < types@.len() ==> #[trigger] types@[k].view() == spec_node_source_types()[k],
            forall|t2: int, s2: int| 0 <= t2 < t ==> !spec_scheme_matches(segment@, t2, s2),
        decreases types.len() - t,
    {
        let schemes = &types[t].schemes;
        let mut s: usize = 0;
        while s < schemes.len()
            invariant
                t < types@.len(),
                s <= schemes@.len(),
                schemes == &types@[t as int].schemes,
                seg@ == segment@,
                types@.len() == spec_node_source_types().len(),
                forall|k: int| 0 <= k < types@.len() ==> #[trigger] types@[k].view() == spec_node_source_types()[k],
                forall|t2: int, s2: int| 0 <= t2 < t ==> !spec_scheme_matches(segment@, t2, s2),
                forall|s2: int| 0 <= s2 < s ==> !spec_scheme_matches(segment@, t as int, s2),
            decreases schemes.len() - s,
        {
            let sc = chars_of(schemes[s].as_str());
            proof {
                assert(types@[t as int].view().schemes[s as int] == schemes@[s as int]@);
            }
            if starts_with_chars(seg.as_slice(), sc.as_slice()) {
                let rest = slice_chars(seg.as_slice(), sc.len(), seg.len());
                let m = SchemeMatch {
                    type_index: t,
                    kind: types[t].kind,
                    scheme: string_of(sc.as_slice()),
                    rest: string_of(rest.as_slice()),
                };
                proof {
                    let ti = t as int;
                    let si = s as int;
                    assert(types@[ti].view() == spec_node_source_types()[ti]);
                    assert(spec_scheme_matches(segment@, ti, si));
                    assert forall|t2: int, s2: int| spec_pair_before(t2, s2, ti, si) implies !spec_scheme_matches(segment@, t2, s2) by {
                        if t2 == t {
                        }
                    }
                    assert(m.scheme@ == spec_node_source_types()[ti].schemes[si]);
                    assert(m.kind == spec_node_source_types()[ti].kind);
                    assert(m.rest@ == segment@.subrange(spec_node_source_types()[ti].schemes[si].len() as int, segment@.len() as int));
                    assert(m.type_index as int == ti);
                    assert(exists|s3: int| {
                        &&& #[trigger] spec_scheme_matches(segment@, ti, s3)
                        &&& forall|t2: int, s2: int| spec_pair_before(t2, s2, ti, s3) ==> !spec_scheme_matches(segment@, t2, s2)
                        &&& m.scheme@ == spec_node_source_types()[ti].schemes[s3]
                        &&& m.kind == spec_node_source_types()[ti].kind
                        &&& m.rest@ == segment@.subrange(spec_node_source_types()[ti].schemes[s3].len() as int, segment@.len() as int)
                    });
                }
                return Ok(m);
            }
            s = s + 1;
        }
        proof {
            assert(types@[t as int].view() == spec_node_source_types()[t as int]);
            assert(types@[t as int].view().schemes.len() == schemes@.len());
            assert forall|s2: int| !spec_scheme_matches(segment@, t as int, s2) by {
                if 0 <= s2 < spec_node_source_types()[t as int].schemes.len() {
                    assert(s2 < s);
                }
            }
        }
        t = t + 1;
    }
    proof {
        assert forall|t2: int, s2: int| !spec_scheme_matches(segment@, t2, s2) by {
            if 0 <= t2 < spec_node_source_types().len() {
                assert(t2 < t);
            }
        }
    }
    Err(SourceError::new(ErrorKind::InvalidInput, unrecognized_scheme_message(segment)))
}

/// The index of the first `://` in `s` at or after `i`, if any.
pub open spec fn first_sep_from(s: Seq<char>, i: int) -> Option<int>
    decreases s.len() - i,
{
    if i < 0 || i + 3 > s.len() {
        None
    } else if sep_at(s, i) {
        Some(i)
    } else {
        first_sep_from(s, i + 1)
    }
}

/// The index of the first `://` in `s`, if any.
pub open spec fn first_sep(s: Seq<char>) -> Option<int> {
    first_sep_from(s, 0)
}

/// `segment.split("://").next()`: the text before the first `://`, or the
/// whole segment when it has none.
pub open spec fn scheme_part(s: Seq<char>) -> Seq<char> {
    match first_sep(s) {
        Some(k) => s.subrange(0, k),
        None => s,
    }
}

/// The error message for a segment that names no registered scheme.
pub open spec fn spec_unrecognized_scheme_message(segment: Seq<char>) -> Seq<char> {
    "unrecognized scheme \""@ + scheme_part(segment) + "://\" (known schemes: manual://, file://, zip://)"@
}

/// Finds the first `://` in `s`.
fn find_sep(s: &[char]) -> (r: Option<usize>)
    ensures
        r matches Some(k) ==> first_sep(s@) == Some(k as int) && k + 3 <= s@.len(),
        r is None ==> first_sep(s@) is None,
{
    let n = s.len();
    let mut i: usize = 0;
    while n >= 3 && i <= n - 3
        invariant
            i <= n,
            n == s@.len(),
            first_sep(s@) == first_sep_from(s@, i as int),
        decreases n - i,
    {
        if s[i] == ':' && s[i + 1] == '/' && s[i + 2] == '/' {
            return Some(i);
        }
        i = i + 1;
    }
    None
}

fn scheme_part_chars(s: &[char]) -> (r: Vec<char>)
    ensures
        r@ == scheme_part(s@),
{
    match find_sep(s) {
        Some(k) => slice_chars(s, 0, k),
        None => {
            proof {
                assert(s@.subrange(0, s@.len() as int) == s@);
            }
            slice_chars(s, 0, s.len())
        },
    }
}

fn unrecognized_scheme_message(segment: &str) -> (m: String)
    ensures
        m@ == spec_unrecognized_scheme_message(segment@),
{
    let s = chars_of(segment);
    let scheme = scheme_part_chars(s.as_slice());
    let mut m = String::from_str("unrecognized scheme \"");
    let sc = string_of(scheme.as_slice());
    m.append(sc.as_str());
    m.append("://\" (known schemes: manual://, file://, zip://)");
    m
}

/// Whether a source of `kind` may be built with (`has_pipe`) or without an
/// upstream source piped into it. The manual and the filesystem browse
/// something of their own and refuse a pipe; a zip archive has nothing to
/// read on its own and requires one.
pub fn check_pipe(kind: SourceKind, has_pipe: bool) -> (r: Result<(), SourceError>)
    ensures
        r is Ok <==> spec_pipe_ok(kind, has_pipe),
        r matches Err(e) ==> e.kind == spec_pipe_error_kind(kind) && e.message@ == spec_pipe_error_message(kind),
{
    match kind {
        SourceKind::Manual => {
            if has_pipe {
                Err(SourceError::new(ErrorKind::Unsupported, String::from_str("manual:// can't be piped into from another node source")))
            } else {
                Ok(())
            }
        },
        SourceKind::Fs => {
            if has_pipe {
                Err(SourceError::new(ErrorKind::Unsupported, String::from_str("file:// can't be piped into from another node source")))
            } else {
                Ok(())
            }
        },
        SourceKind::Zip => {
            if has_pipe {
                Ok(())
            } else {
                Err(SourceError::new(
                    ErrorKind::InvalidInput,
                    String::from_str("zip:// has nothing to read on its own — pipe another node source's bytes into it, e.g. \"file://archive.zip | zip://\""),
                ))
            }
        },
    }
}

/// Whether a source of `kind` accepts being built with (`has_pipe`) or
/// without an upstream source.
pub open spec fn spec_pipe_ok(kind: SourceKind, has_pipe: bool) -> bool {
    match kind {
        SourceKind::Manual => !has_pipe,
        SourceKind::Fs => !has_pipe,
        SourceKind::Zip => has_pipe,
    }
}

/// The error kind a source of `kind` refuses a wrong pipe with: a missing
/// one is invalid input, an unwanted one is unsupported.
pub open spec fn spec_pipe_error_kind(kind: SourceKind) -> ErrorKind {
    match kind {
        SourceKind::Zip => ErrorKind::InvalidInput,
        _ => ErrorKind::Unsupported,
    }
}

/// The message a source of `kind` refuses a wrong pipe with, naming its
/// scheme.
pub open spec fn spec_pipe_error_message(kind: SourceKind) -> Seq<char> {
    match kind {
        SourceKind::Manual => "manual:// can't be piped into from another node source"@,
        SourceKind::Fs => "file:// can't be piped into from another node source"@,
        SourceKind::Zip => "zip:// has nothing to read on its own — pipe another node source's bytes into it, e.g. \"file://archive.zip | zip://\""@,
    }
}

/// `(t, s)` is the first `(type, scheme)` pair, in registry order, whose
/// scheme prefixes `segment`.
pub open spec fn spec_first_match(segment: Seq<char>, t: int, s: int) -> bool {
    &&& spec_scheme_matches(segment, t, s)
    &&& forall|t2: int, s2: int| spec_pair_before(t2, s2, t, s) ==> !spec_scheme_matches(segment, t2, s2)
}

/// Decides everything about one pipe segment short of constructing its
/// source: which registered type its scheme selects, and whether that type
/// accepts the upstream source (`has_pipe`) it would be handed. A segment
/// naming no registered scheme is refused first, as `match_scheme` refuses
/// it; a type refusing the pipe (or its absence) is refused next, as
/// `check_pipe` refuses it.
pub fn select_segment(segment: &str, has_pipe: bool) -> (r: Result<SchemeMatch, SourceError>)
    ensures
        r matches Ok(m) ==> {
            let t = m.type_index as int;
            &&& exists|s: int| {
                &&& #[trigger] spec_first_match(segment@, t, s)
                &&& m.scheme@ == spec_node_source_types()[t].schemes[s]
                &&& m.rest@ == segment@.subrange(spec_node_source_types()[t].schemes[s].len() as int, segment@.len() as int)
            }
            &&& m.kind == spec_node_source_types()[t].kind
            &&& spec_pipe_ok(m.kind, has_pipe)
        },
        (forall|t: int, s: int| !spec_scheme_matches(segment@, t, s)) ==> (r matches Err(e) && e.kind
            == ErrorKind::InvalidInput && e.message@ == spec_unrecognized_scheme_message(segment@)),
        r matches Err(e) ==> (forall|t: int, s: int| !spec_scheme_matches(segment@, t, s)) || exists|t: int, s: int| {
            &&& #[trigger] spec_first_match(segment@, t, s)
            &&& !spec_pipe_ok(spec_node_source_types()[t].kind, has_pipe)
            &&& e.kind == spec_pipe_error_kind(spec_node_source_types()[t].kind)
            &&& e.message@ == spec_pipe_error_message(spec_node_source_types()[t].kind)
        },
{
    match match_scheme(segment) {
        Err(e) => Err(e),
        Ok(m) => {
            proof {
                let t = m.type_index as int;
                let s = choose|s: int| {
                    &&& #[trigger] spec_scheme_matches(segment@, t, s)
                    &&& forall|t2: int, s2: int| spec_pair_before(t2, s2, t, s) ==> !spec_scheme_matches(segment@, t2, s2)
                    &&& m.scheme@ == spec_node_source_types()[t].schemes[s]
                    &&& m.kind == spec_node_source_types()[t].kind
                    &&& m.rest@ == segment@.subrange(spec_node_source_types()[t].schemes[s].len() as int, segment@.len() as int)
                };
                assert(spec_first_match(segment@, t, s));
            }
            match check_pipe(m.kind, has_pipe) {
                Ok(()) => Ok(m),
                Err(e) => {
                    proof {
                        let t = m.type_index as int;
                        let s = choose|s: int| {
                            &&& #[trigger] spec_scheme_matches(segment@, t, s)
                            &&& forall|t2: int, s2: int| spec_pair_before(t2, s2, t, s) ==> !spec_scheme_matches(segment@, t2, s2)
                            &&& m.scheme@ == spec_node_source_types()[t].schemes[s]
                            &&& m.kind == spec_node_source_types()[t].kind
                            &&& m.rest@ == segment@.subrange(spec_node_source_types()[t].schemes[s].len() as int, segment@.len() as int)
                        };
                        assert(spec_first_match(segment@, t, s));
                    }
                    Err(e)
                },
            }
        },
    }
}

} // verus!
