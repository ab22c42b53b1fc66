//! The browsable tree over one zip archive's contents, addressed the way a
//! directory tree would be: listing, metadata, symlinks and path
//! resolution are all answered from the archive's [`Index`], built once
//! from its central directory. Reading an entry's bytes is left to whoever
//! holds the archive itself.

use vstd::prelude::*;

use crate::civil::{days_from_civil, lemma_days_from_civil_bounds, spec_days_from_civil};
use crate::error::{ErrorKind, SourceError};
use crate::strorder::{sorted_strs, strs_view};
use crate::text::{append_chars, chars_of, lemma_split_char_nonempty, nonempty_parts, nonempty_pieces, slice_chars, split_char, split_nonempty, string_of};
use crate::vfs::{DirEntryInfo, Metadata};
use crate::zip_index::{
    FileEntry, FileView, Index, Node, NodeView, Walk, join_chars, no_leading_slash, not_a_dir_message,
    resolve_result, resolved_view, spec_insert_dir, spec_insert_file, spec_join, spec_resolve,
    target_of, walk,
};

verus! {

/// The plain components of a path after `.` is dropped and `..` pops the
/// component before it (never above the root), as `Path::components`
/// followed by that folding gives them.
pub open spec fn path_stack(parts: Seq<Seq<char>>) -> Seq<Seq<char>>
    decreases parts.len(),
{
    if parts.len() == 0 {
        Seq::empty()
    } else {
        let st = path_stack(parts.drop_last());
        let p = parts.last();
        if p == seq!['.'] {
            st
        } else if p == seq!['.', '.'] {
            if st.len() > 0 { st.drop_last() } else { st }
        } else {
            st.push(p)
        }
    }
}

/// `parts.join("/")` for non-empty parts.
pub open spec fn join_parts(parts: Seq<Seq<char>>) -> Seq<char>
    decreases parts.len(),
{
    if parts.len() == 0 {
        Seq::empty()
    } else {
        spec_join(join_parts(parts.drop_last()), parts.last())
    }
}

/// The index key a path inside the archive names: its components with
/// `.` and `..` folded away, joined by `/`, with no leading slash.
pub open spec fn spec_key_from_path(path: Seq<char>) -> Seq<char> {
    join_parts(path_stack(split_nonempty(path, '/')))
}

/// The absolute path an index key stands for: the root key is `/`.
pub open spec fn spec_path_from_key(key: Seq<char>) -> Seq<char> {
    seq!['/'] + join_parts(split_nonempty(key, '/'))
}

/// A component a key can be built from: non-empty, without `/`, and
/// neither `.` nor `..`.
pub open spec fn plain_part(p: Seq<char>) -> bool {
    &&& p.len() > 0
    &&& p != seq!['.']
    &&& p != seq!['.', '.']
    &&& forall|i: int| 0 <= i < p.len() ==> p[i] != '/'
}

proof fn lemma_split_plain(q: Seq<char>)
    requires
        forall|i: int| 0 <= i < q.len() ==> q[i] != '/',
    ensures
        split_char(q, '/') == seq![q],
    decreases q.len(),
{
    if q.len() == 0 {
        assert(q =~= Seq::<char>::empty());
    } else {
        lemma_split_plain(q.drop_first());
        assert(seq![q[0]] + q.drop_first() =~= q);
        assert(seq![q.drop_first()].update(0, seq![q[0]] + q.drop_first()) =~= seq![q]);
    }
}

proof fn lemma_split_append(t: Seq<char>, q: Seq<char>)
    requires
        forall|i: int| 0 <= i < q.len() ==> q[i] != '/',
    ensures
        split_char(t + seq!['/'] + q, '/') == split_char(t, '/') + seq![q],
    decreases t.len(),
{
    let s = t + seq!['/'] + q;
    if t.len() == 0 {
        assert(s.drop_first() =~= q);
        assert(s[0] == '/');
        lemma_split_plain(q);
        assert(seq![Seq::<char>::empty()] + seq![q] =~= split_char(t, '/') + seq![q]);
    } else {
        lemma_split_append(t.drop_first(), q);
        assert(s.drop_first() =~= t.drop_first() + seq!['/'] + q);
        assert(s[0] == t[0]);
        lemma_split_char_nonempty(t.drop_first(), '/');
        let r = split_char(t.drop_first(), '/');
        if t[0] == '/' {
            assert(seq![Seq::<char>::empty()] + (r + seq![q]) =~= (seq![Seq::<char>::empty()] + r) + seq![q]);
        } else {
            assert((r + seq![q]).update(0, seq![t[0]] + (r + seq![q])[0]) =~= r.update(0, seq![t[0]] + r[0]) + seq![q]);
        }
    }
}

proof fn lemma_nonempty_one(q: Seq<char>)
    ensures
        nonempty_pieces(seq![q]) == (if q.len() > 0 { seq![q] } else { Seq::<Seq<char>>::empty() }),
{
    reveal_with_fuel(Seq::filter, 2);
    assert(seq![q].drop_last() =~= Seq::<Seq<char>>::empty());
    assert(Seq::<Seq<char>>::empty().push(q) =~= seq![q]);
}

proof fn lemma_split_joined(ps: Seq<Seq<char>>)
    requires
        forall|i: int| 0 <= i < ps.len() ==> plain_part(#[trigger] ps[i]),
    ensures
        split_nonempty(join_parts(ps), '/') == ps,
        ps.len() > 0 ==> join_parts(ps).len() > 0,
    decreases ps.len(),
{
    if ps.len() == 0 {
        lemma_nonempty_one(Seq::<char>::empty());
        assert(ps =~= Seq::<Seq<char>>::empty());
    } else {
        let init = ps.drop_last();
        let last = ps.last();
        assert(plain_part(ps[ps.len() - 1]));
        assert forall|i: int| 0 <= i < init.len() implies plain_part(#[trigger] init[i]) by {
            assert(init[i] == ps[i]);
        }
        lemma_split_joined(init);
        lemma_split_plain(last);
        lemma_nonempty_one(last);
        if init.len() == 0 {
            assert(join_parts(ps) == last);
            assert(seq![last] =~= ps);
        } else {
            assert(join_parts(ps) == join_parts(init) + seq!['/'] + last);
            lemma_split_append(join_parts(init), last);
            assert(nonempty_pieces(split_char(join_parts(init), '/') + seq![last])
                == nonempty_pieces(split_char(join_parts(init), '/')) + nonempty_pieces(seq![last]));
            assert(init + seq![last] =~= ps);
        }
    }
}

proof fn lemma_stack_plain(ps: Seq<Seq<char>>)
    requires
        forall|i: int| 0 <= i < ps.len() ==> plain_part(#[trigger] ps[i]),
    ensures
        path_stack(ps) == ps,
    decreases ps.len(),
{
    if ps.len() > 0 {
        let init = ps.drop_last();
        assert(plain_part(ps[ps.len() - 1]));
        assert forall|i: int| 0 <= i < init.len() implies plain_part(#[trigger] init[i]) by {
            assert(init[i] == ps[i]);
        }
        lemma_stack_plain(init);
        assert(init.push(ps.last()) =~= ps);
    }
}

/// A key built from plain components is read back from the path it stands
/// for: `key_from_path` undoes `path_from_key`.
pub proof fn lemma_key_path_round_trip(ps: Seq<Seq<char>>)
    requires
        forall|i: int| 0 <= i < ps.len() ==> plain_part(#[trigger] ps[i]),
    ensures
        spec_key_from_path(spec_path_from_key(join_parts(ps))) == join_parts(ps),
{
    let k = join_parts(ps);
    lemma_split_joined(ps);
    lemma_stack_plain(ps);
    let path = seq!['/'] + k;
    assert(spec_path_from_key(k) == path);
    assert(path[0] == '/');
    assert(path.drop_first() =~= k);
    assert(split_char(path, '/') == seq![Seq::<char>::empty()] + split_char(k, '/'));
    lemma_nonempty_one(Seq::<char>::empty());
    assert(nonempty_pieces(seq![Seq::<char>::empty()] + split_char(k, '/'))
        == nonempty_pieces(seq![Seq::<char>::empty()]) + nonempty_pieces(split_char(k, '/')));
    assert(Seq::<Seq<char>>::empty() + ps =~= ps);
}

/// Every prefix of `dir` (its first `i + 1` components, for each `i`) is a
/// directory of the index, and every component is plain.
pub open spec fn dirs_along(m: Map<Seq<char>, NodeView>, dir: Seq<Seq<char>>) -> bool {
    forall|i: int| 0 <= i < dir.len() ==> {
        &&& plain_part(#[trigger] dir[i])
        &&& m.contains_key(join_parts(dir.take(i + 1)))
        &&& m[join_parts(dir.take(i + 1))] is Dir
    }
}

proof fn lemma_walk_through_dirs(m: Map<Seq<char>, NodeView>, dir: Seq<Seq<char>>, k: int, rest: Seq<Seq<char>>, hops: nat, follow: bool)
    requires
        0 <= k <= dir.len(),
        dirs_along(m, dir),
    ensures
        walk(m, join_parts(dir.take(k)), dir.skip(k) + rest, hops, follow) == walk(m, join_parts(dir), rest, hops, follow),
    decreases dir.len() - k,
{
    if k == dir.len() {
        assert(dir.skip(k) + rest =~= rest);
        assert(dir.take(k) =~= dir);
    } else {
        let q = dir.skip(k) + rest;
        assert(q[0] == dir[k]);
        assert(q.drop_first() =~= dir.skip(k + 1) + rest);
        assert(dir.take(k + 1).drop_last() =~= dir.take(k));
        assert(dir.take(k + 1).last() == dir[k]);
        assert(plain_part(dir[k]));
        assert(join_parts(dir.take(k + 1)) == spec_join(join_parts(dir.take(k)), dir[k]));
        lemma_walk_through_dirs(m, dir, k + 1, rest, hops, follow);
    }
}

/// Following a symlink whose target does not start with `/` continues from
/// the directory that holds the link: for a link `dir/l` whose target is
/// the relative path `tp` (plain components), where every directory along
/// `dir` and then along `tp` is a directory of the index and `dir/tp` is
/// a file that is not itself a symlink (or a directory), resolving
/// `dir/l` and following the final link ends at `dir/tp`.
pub proof fn lemma_relative_link_from_its_dir(m: Map<Seq<char>, NodeView>, dir: Seq<Seq<char>>, l: Seq<char>, tp: Seq<Seq<char>>, f: FileView)
    requires
        dirs_along(m, dir + tp.drop_last()),
        plain_part(l),
        tp.len() > 0,
        forall|i: int| 0 <= i < tp.len() ==> plain_part(#[trigger] tp[i]),
        m.contains_key(join_parts(dir.push(l))),
        m[join_parts(dir.push(l))] == NodeView::File(f),
        f.is_symlink,
        f.target == Some(join_parts(tp)),
        m.contains_key(join_parts(dir + tp)),
        !(m[join_parts(dir + tp)] matches NodeView::File(g) && g.is_symlink),
    ensures
        spec_resolve(m, join_parts(dir.push(l)), true) == Walk::Found(join_parts(dir + tp)),
{
    let full = dir + tp.drop_last();
    let link = dir.push(l);
    assert(dirs_along(m, dir)) by {
        assert forall|i: int| 0 <= i < dir.len() implies {
            &&& plain_part(#[trigger] dir[i])
            &&& m.contains_key(join_parts(dir.take(i + 1)))
            &&& m[join_parts(dir.take(i + 1))] is Dir
        } by {
            assert(full[i] == dir[i]);
            assert(full.take(i + 1) =~= dir.take(i + 1));
        }
    }
    assert forall|i: int| 0 <= i < link.len() implies plain_part(#[trigger] link[i]) by {
        if i < dir.len() {
            assert(full[i] == dir[i]);
        }
    }
    lemma_split_joined(link);
    lemma_walk_through_dirs(m, dir, 0, seq![l], 0, true);
    assert(dir.take(0) =~= Seq::<Seq<char>>::empty());
    assert(dir.skip(0) + seq![l] =~= link);
    let d = join_parts(dir);
    assert(link.drop_last() =~= dir);
    assert(join_parts(link) == spec_join(d, l));
    // the link is met last and followed from the directory holding it
    let t = join_parts(tp);
    lemma_split_joined(tp);
    assert(t.len() > 0);
    assert(t[0] != '/') by {
        lemma_join_parts_first(tp);
    }
    assert(walk(m, d, seq![l], 0, true) == walk(m, d, tp + Seq::<Seq<char>>::empty(), 1, true)) by {
        assert(seq![l].drop_first() =~= Seq::<Seq<char>>::empty());
    }
    assert(tp + Seq::<Seq<char>>::empty() =~= tp);
    // then along the target's directories to its last component
    let n = dir.len() as int;
    let last = tp.last();
    lemma_walk_through_dirs(m, full, n, seq![last], 1, true);
    assert(full.take(n) =~= dir);
    assert(full.skip(n) + seq![last] =~= tp);
    assert(full.push(last) =~= dir + tp);
    assert(join_parts(dir + tp) == spec_join(join_parts(full), last)) by {
        assert((dir + tp).drop_last() =~= full);
        assert((dir + tp).last() == last);
    }
    assert(plain_part(tp[tp.len() - 1]));
    let e = join_parts(dir + tp);
    assert(seq![last].drop_first() =~= Seq::<Seq<char>>::empty());
    assert(walk(m, e, Seq::<Seq<char>>::empty(), 1, true) == Walk::Found(e));
}

/// A symlink whose target starts with `/` is followed from the archive's
/// root, wherever the link sits: for a link `dir/l` whose target is `/`
/// followed by the plain components `tp`, where every directory along
/// `dir` and along `tp` is a directory of the index and `tp` names a file
/// that is not itself a symlink (or a directory), resolving `dir/l` and
/// following the final link ends at `tp`.
pub proof fn lemma_absolute_link_from_root(m: Map<Seq<char>, NodeView>, dir: Seq<Seq<char>>, l: Seq<char>, tp: Seq<Seq<char>>, f: FileView)
    requires
        dirs_along(m, dir),
        dirs_along(m, tp.drop_last()),
        plain_part(l),
        tp.len() > 0,
        forall|i: int| 0 <= i < tp.len() ==> plain_part(#[trigger] tp[i]),
        m.contains_key(join_parts(dir.push(l))),
        m[join_parts(dir.push(l))] == NodeView::File(f),
        f.is_symlink,
        f.target == Some(seq!['/'] + join_parts(tp)),
        m.contains_key(join_parts(tp)),
        !(m[join_parts(tp)] matches NodeView::File(g) && g.is_symlink),
    ensures
        spec_resolve(m, join_parts(dir.push(l)), true) == Walk::Found(join_parts(tp)),
{
    let link = dir.push(l);
    assert forall|i: int| 0 <= i < link.len() implies plain_part(#[trigger] link[i]) by {
        if i < dir.len() {
            assert(plain_part(dir[i]));
        }
    }
    lemma_split_joined(link);
    lemma_walk_through_dirs(m, dir, 0, seq![l], 0, true);
    assert(dir.take(0) =~= Seq::<Seq<char>>::empty());
    assert(dir.skip(0) + seq![l] =~= link);
    let d = join_parts(dir);
    assert(link.drop_last() =~= dir);
    assert(join_parts(link) == spec_join(d, l));
    // the target restarts from the root
    let j = join_parts(tp);
    let t = seq!['/'] + j;
    lemma_split_joined(tp);
    assert(t[0] == '/');
    assert(t.drop_first() =~= j);
    lemma_split_char_nonempty(j, '/');
    assert(split_char(t, '/') == seq![Seq::<char>::empty()] + split_char(j, '/'));
    lemma_nonempty_one(Seq::<char>::empty());
    assert(nonempty_pieces(seq![Seq::<char>::empty()] + split_char(j, '/'))
        == nonempty_pieces(seq![Seq::<char>::empty()]) + nonempty_pieces(split_char(j, '/')));
    assert(split_nonempty(t, '/') =~= tp);
    assert(walk(m, d, seq![l], 0, true) == walk(m, Seq::<char>::empty(), tp + Seq::<Seq<char>>::empty(), 1, true)) by {
        assert(seq![l].drop_first() =~= Seq::<Seq<char>>::empty());
    }
    assert(tp + Seq::<Seq<char>>::empty() =~= tp);
    // then along the target's directories to its last component
    let full = tp.drop_last();
    let last = tp.last();
    lemma_walk_through_dirs(m, full, 0, seq![last], 1, true);
    assert(full.take(0) =~= Seq::<Seq<char>>::empty());
    assert(full.skip(0) + seq![last] =~= tp);
    assert(j == spec_join(join_parts(full), last));
    assert(plain_part(tp[tp.len() - 1]));
    assert(seq![last].drop_first() =~= Seq::<Seq<char>>::empty());
    assert(walk(m, j, Seq::<Seq<char>>::empty(), 1, true) == Walk::Found(j));
}

/// The first character of a path joined from plain components is not `/`.
proof fn lemma_join_parts_first(ps: Seq<Seq<char>>)
    requires
        ps.len() > 0,
        forall|i: int| 0 <= i < ps.len() ==> plain_part(#[trigger] ps[i]),
    ensures
        join_parts(ps).len() > 0,
        join_parts(ps)[0] == ps[0][0],
    decreases ps.len(),
{
    assert(plain_part(ps[0]));
    if ps.len() == 1 {
        assert(join_parts(ps.drop_last()) == Seq::<char>::empty());
    } else {
        let init = ps.drop_last();
        assert forall|i: int| 0 <= i < init.len() implies plain_part(#[trigger] init[i]) by {
            assert(init[i] == ps[i]);
        }
        lemma_join_parts_first(init);
        assert(init[0] == ps[0]);
        assert(plain_part(ps[ps.len() - 1]));
    }
}

/// The pieces `ps` joined with a `/` between each two.
pub open spec fn join_slash(ps: Seq<Seq<char>>) -> Seq<char>
    decreases ps.len(),
{
    if ps.len() == 0 {
        Seq::empty()
    } else if ps.len() == 1 {
        ps[0]
    } else {
        join_slash(ps.drop_last()) + seq!['/'] + ps.last()
    }
}

proof fn lemma_join_slash_prepend_empty(r: Seq<Seq<char>>)
    requires
        r.len() >= 1,
    ensures
        join_slash(seq![Seq::<char>::empty()] + r) == seq!['/'] + join_slash(r),
    decreases r.len(),
{
    let a = seq![Seq::<char>::empty()] + r;
    if r.len() == 1 {
        assert(a.drop_last() =~= seq![Seq::<char>::empty()]);
        assert(join_slash(a.drop_last()) =~= Seq::<char>::empty());
        assert(join_slash(a) =~= seq!['/'] + r[0]);
    } else {
        assert(a.drop_last() =~= seq![Seq::<char>::empty()] + r.drop_last());
        lemma_join_slash_prepend_empty(r.drop_last());
        assert(a.last() == r.last());
        assert(join_slash(a) =~= seq!['/'] + join_slash(r));
    }
}

proof fn lemma_join_slash_prefix(r: Seq<Seq<char>>, c: char)
    requires
        r.len() >= 1,
    ensures
        join_slash(r.update(0, seq![c] + r[0])) == seq![c] + join_slash(r),
    decreases r.len(),
{
    let a = r.update(0, seq![c] + r[0]);
    if r.len() == 1 {
        assert(join_slash(a) == a[0]);
    } else {
        assert(a.drop_last() =~= r.drop_last().update(0, seq![c] + r.drop_last()[0]));
        lemma_join_slash_prefix(r.drop_last(), c);
        assert(a.last() == r.last());
        assert(join_slash(a) =~= seq![c] + join_slash(r));
    }
}

/// Joining the pieces of `s` split at every `/` gives `s` back.
proof fn lemma_join_split(s: Seq<char>)
    ensures
        join_slash(split_char(s, '/')) == s,
    decreases s.len(),
{
    if s.len() == 0 {
        assert(s =~= Seq::<char>::empty());
    } else {
        lemma_join_split(s.drop_first());
        lemma_split_char_nonempty(s.drop_first(), '/');
        let r = split_char(s.drop_first(), '/');
        if s[0] == '/' {
            lemma_join_slash_prepend_empty(r);
        } else {
            lemma_join_slash_prefix(r, s[0]);
        }
        assert(seq![s[0]] + s.drop_first() =~= s);
    }
}

proof fn lemma_join_parts_slash(ps: Seq<Seq<char>>)
    requires
        forall|i: int| 0 <= i < ps.len() ==> (#[trigger] ps[i]).len() > 0,
    ensures
        join_parts(ps) == join_slash(ps),
        ps.len() > 0 ==> join_slash(ps).len() > 0,
    decreases ps.len(),
{
    if ps.len() > 0 {
        let d = ps.drop_last();
        assert forall|i: int| 0 <= i < d.len() implies (#[trigger] d[i]).len() > 0 by {
            assert(d[i] == ps[i]);
        }
        lemma_join_parts_slash(d);
        assert(ps[ps.len() - 1].len() > 0);
        if ps.len() == 1 {
            assert(join_parts(d) =~= Seq::<char>::empty());
        }
    }
}

/// Whether `k` is written as an index key is: the root `""`, or plain
/// components joined by single `/`s (no leading, trailing or doubled `/`,
/// no `.` or `..`).
pub open spec fn is_key_form(k: Seq<char>) -> bool {
    k.len() == 0 || forall|i: int| 0 <= i < split_char(k, '/').len() ==> plain_part(#[trigger] split_char(k, '/')[i])
}

/// `key_from_path` undoes `path_from_key` for every key in the form the
/// index stores keys in.
pub proof fn lemma_key_form_round_trip(k: Seq<char>)
    requires
        is_key_form(k),
    ensures
        spec_key_from_path(spec_path_from_key(k)) == k,
{
    if k.len() == 0 {
        lemma_key_path_round_trip(Seq::empty());
        assert(join_parts(Seq::<Seq<char>>::empty()) =~= k);
    } else {
        let ps = split_char(k, '/');
        lemma_join_split(k);
        assert forall|i: int| 0 <= i < ps.len() implies (#[trigger] ps[i]).len() > 0 by {
            assert(plain_part(ps[i]));
        }
        lemma_join_parts_slash(ps);
        lemma_key_path_round_trip(ps);
    }
}

fn is_dot(s: &[char]) -> (r: bool)
    ensures
        r == (s@ == seq!['.']),
{
    if s.len() == 1 && s[0] == '.' {
        proof {
            assert(s@ =~= seq!['.']);
        }
        true
    } else {
        proof {
            if s@ == seq!['.'] {
                assert(s@.len() == 1 && s@[0] == '.');
            }
        }
        false
    }
}

fn is_dot_dot(s: &[char]) -> (r: bool)
    ensures
        r == (s@ == seq!['.', '.']),
{
    if s.len() == 2 && s[0] == '.' && s[1] == '.' {
        proof {
            assert(s@ =~= seq!['.', '.']);
        }
        true
    } else {
        proof {
            if s@ == seq!['.', '.'] {
                assert(s@.len() == 2 && s@[0] == '.' && s@[1] == '.');
            }
        }
        false
    }
}

/// `parts` joined by `/`.
fn join_all(parts: &Vec<Vec<char>>) -> (r: Vec<char>)
    ensures
        r@ == join_parts(strs_view(parts@)),
{
    let ghost all = strs_view(parts@);
    let mut r: Vec<char> = Vec::new();
    let mut i: usize = 0;
    while i < parts.len()
        invariant
            i <= parts@.len(),
            all == strs_view(parts@),
            r@ == join_parts(all.subrange(0, i as int)),
        decreases parts.len() - i,
    {
        proof {
            assert(all.subrange(0, i + 1).drop_last() =~= all.subrange(0, i as int));
        }
        if r.len() > 0 {
            r.push('/');
        }
        append_chars(&mut r, parts[i].as_slice());
        proof {
            let prev = all.subrange(0, i as int);
            if join_parts(prev).len() > 0 {
                assert(r@ =~= join_parts(prev) + seq!['/'] + all[i as int]);
            } else {
                assert(r@ =~= all[i as int]);
            }
        }
        i = i + 1;
    }
    proof {
        assert(all.subrange(0, parts@.len() as int) =~= all);
    }
    r
}

fn key_chars_from_path(path: &str) -> (r: Vec<char>)
    ensures
        r@ == spec_key_from_path(path@),
{
    let pc = chars_of(path);
    let parts = nonempty_parts(pc.as_slice(), '/');
    let ghost all = strs_view(parts@);
    proof {
        assert(all == split_nonempty(path@, '/'));
    }
    let mut stack: Vec<Vec<char>> = Vec::new();
    let mut i: usize = 0;
    while i < parts.len()
        invariant
            i <= parts@.len(),
            all == strs_view(parts@),
            strs_view(stack@) == path_stack(all.subrange(0, i as int)),
        decreases parts.len() - i,
    {
        proof {
            assert(all.subrange(0, i + 1).drop_last() =~= all.subrange(0, i as int));
            assert(all.subrange(0, i + 1).last() == all[i as int]);
        }
        let ghost before = stack@;
        if is_dot(parts[i].as_slice()) {
        } else if is_dot_dot(parts[i].as_slice()) {
            if stack.len() > 0 {
                stack.pop();
                proof {
                    assert(strs_view(stack@) =~= strs_view(before).drop_last());
                }
            }
        } else {
            let n = parts[i].len();
            let c = slice_chars(parts[i].as_slice(), 0, n);
            proof {
                assert(parts@[i as int]@.subrange(0, n as int) =~= parts@[i as int]@);
            }
            stack.push(c);
            proof {
                assert(strs_view(stack@) =~= strs_view(before).push(all[i as int]));
            }
        }
        i = i + 1;
    }
    proof {
        assert(all.subrange(0, parts@.len() as int) =~= all);
    }
    join_all(&stack)
}

/// Normalizes a path inside the archive to its index key: `.` and `..`
/// are folded structurally (they never depend on the archive's contents),
/// empty components are dropped, and the result has no leading slash.
pub fn key_from_path(path: &str) -> (k: String)
    ensures
        k@ == spec_key_from_path(path@),
{
    let r = key_chars_from_path(path);
    string_of(r.as_slice())
}

/// The absolute path for an index key: the root key becomes `/`, and each
/// component is appended as a plain segment.
pub fn path_from_key(key: &str) -> (p: String)
    ensures
        p@ == spec_path_from_key(key@),
{
    let kc = chars_of(key);
    let parts = nonempty_parts(kc.as_slice(), '/');
    let joined = join_all(&parts);
    let mut r: Vec<char> = Vec::new();
    r.push('/');
    append_chars(&mut r, joined.as_slice());
    proof {
        assert(strs_view(parts@) == split_nonempty(key@, '/'));
        assert(r@ =~= spec_path_from_key(key@));
    }
    string_of(r.as_slice())
}

/// What the metadata of a node reports: a directory has no size and no
/// file flag; a symlink (not followed) is neither a file nor a directory.
pub open spec fn metadata_of(md: Metadata, n: NodeView) -> bool {
    &&& md.accessed is None
    &&& md.created is None
    &&& md.unix is None
    &&& match n {
        NodeView::Dir { modified, .. } => {
            &&& md.is_dir
            &&& !md.is_file
            &&& !md.is_symlink
            &&& md.len == 0
            &&& md.modified == modified
        },
        NodeView::File(f) => {
            &&& !md.is_dir
            &&& md.is_file == !f.is_symlink
            &&& md.is_symlink == f.is_symlink
            &&& md.len == f.size
            &&& md.modified == f.modified
        },
    }
}

/// The metadata an index node reports.
pub fn node_to_metadata(node: &Node) -> (md: Metadata)
    ensures
        metadata_of(md, node.view()),
{
    match node {
        Node::Dir { modified, .. } => Metadata {
            is_dir: true,
            is_file: false,
            is_symlink: false,
            len: 0,
            modified: *modified,
            accessed: None,
            created: None,
            unix: None,
        },
        Node::File(f) => Metadata {
            is_dir: false,
            is_file: !f.is_symlink,
            is_symlink: f.is_symlink,
            len: f.size,
            modified: f.modified,
            accessed: None,
            created: None,
            unix: None,
        },
    }
}

/// A zip entry's DOS-derived timestamp, broken into its fields.
#[derive(Clone, Copy, Debug)]
pub struct ZipDateTime {
    pub year: u16,
    pub month: u8,
    pub day: u8,
    pub hour: u8,
    pub minute: u8,
    pub second: u8,
}

/// Seconds since the Unix epoch of a zip timestamp, read as UTC.
pub open spec fn spec_zip_seconds(dt: ZipDateTime) -> int {
    spec_days_from_civil(dt.year as int, dt.month as int, dt.day as int) * 86400 + dt.hour * 3600
        + dt.minute * 60 + dt.second
}

/// Zip's timestamps carry no time zone, so — like the filesystem
/// preview's handling of a real, already-UTC time — the fields are read
/// as UTC. Returns whole seconds relative to the Unix epoch.
pub fn system_time_from_zip_datetime(dt: &ZipDateTime) -> (secs: i64)
    requires
        !(dt.month == 3 && dt.day == 0),
    ensures
        secs == spec_zip_seconds(*dt),
{
    let days = days_from_civil(dt.year as i64, dt.month as u32, dt.day as u32);
    proof {
        lemma_days_from_civil_bounds(dt.year as int, dt.month as int, dt.day as int);
    }
    days * 86400 + dt.hour as i64 * 3600 + dt.minute as i64 * 60 + dt.second as i64
}


/// Number of leading `/` in `s`.
pub open spec fn lead_slashes(s: Seq<char>) -> nat
    decreases s.len(),
{
    if s.len() > 0 && s[0] == '/' { 1 + lead_slashes(s.drop_first()) } else { 0 }
}

/// Number of trailing `/` in `s`.
pub open spec fn trail_slashes(s: Seq<char>) -> nat
    decreases s.len(),
{
    if s.len() > 0 && s.last() == '/' { 1 + trail_slashes(s.drop_last()) } else { 0 }
}

/// `s.trim_matches('/')`.
pub open spec fn trim_slashes(s: Seq<char>) -> Seq<char> {
    let a = lead_slashes(s);
    if a == s.len() { Seq::empty() } else { s.subrange(a as int, s.len() - trail_slashes(s)) }
}

proof fn lemma_lead_slashes(s: Seq<char>, k: nat)
    requires
        k <= s.len(),
        forall|j: int| 0 <= j < k ==> #[trigger] s[j] == '/',
        k < s.len() ==> s[k as int] != '/',
    ensures
        lead_slashes(s) == k,
    decreases s.len(),
{
    if s.len() > 0 && k > 0 {
        assert forall|j: int| 0 <= j < k - 1 implies #[trigger] s.drop_first()[j] == '/' by {
            assert(s.drop_first()[j] == s[j + 1]);
        }
        lemma_lead_slashes(s.drop_first(), (k - 1) as nat);
    }
}

proof fn lemma_trail_slashes(s: Seq<char>, k: nat)
    requires
        k <= s.len(),
        forall|j: int| s.len() - k <= j < s.len() ==> #[trigger] s[j] == '/',
        k < s.len() ==> s[s.len() - k - 1] != '/',
    ensures
        trail_slashes(s) == k,
    decreases s.len(),
{
    if s.len() > 0 && k > 0 {
        assert forall|j: int| s.drop_last().len() - (k - 1) <= j < s.drop_last().len() implies #[trigger] s.drop_last()[j] == '/' by {
            assert(s.drop_last()[j] == s[j]);
        }
        lemma_trail_slashes(s.drop_last(), (k - 1) as nat);
    }
}

/// `s.trim_matches('/')` on characters; the result has no leading `/`.
fn trim_slashes_chars(s: &[char]) -> (r: Vec<char>)
    ensures
        r@ == trim_slashes(s@),
        no_leading_slash(r@),
{
    let n = s.len();
    let mut a: usize = 0;
    while a < n && s[a] == '/'
        invariant
            a <= n,
            n == s@.len(),
            forall|j: int| 0 <= j < a ==> #[trigger] s@[j] == '/',
        decreases n - a,
    {
        a = a + 1;
    }
    proof {
        lemma_lead_slashes(s@, a as nat);
    }
    if a == n {
        return Vec::new();
    }
    let mut b: usize = n;
    while b > a && s[b - 1] == '/'
        invariant
            a < n,
            a <= b <= n,
            n == s@.len(),
            s@[a as int] != '/',
            forall|j: int| b <= j < n ==> #[trigger] s@[j] == '/',
        decreases b,
    {
        b = b - 1;
    }
    proof {
        lemma_trail_slashes(s@, (n - b) as nat);
    }
    slice_chars(s, a, b)
}

/// One entry of an archive's central directory, as read from the archive:
/// its raw name, its kind, its uncompressed size, its timestamp and — for
/// a symlink — the text of its target (empty otherwise).
#[derive(Clone, Debug)]
pub struct RawEntry {
    pub name: String,
    pub is_dir: bool,
    pub is_symlink: bool,
    pub size: u64,
    pub modified: Option<ZipDateTime>,
    pub link_target: String,
}

pub open spec fn entry_time(e: RawEntry) -> Option<i64> {
    match e.modified {
        Some(dt) => Some(spec_zip_seconds(dt) as i64),
        None => None,
    }
}

pub open spec fn entry_file(e: RawEntry, i: int) -> FileView {
    FileView {
        archive_index: i as usize,
        size: e.size,
        modified: entry_time(e),
        is_symlink: e.is_symlink,
        target: if e.is_symlink { Some(e.link_target@) } else { None },
    }
}

/// The index after recording entry `e`, found at position `i`, under its
/// name with surrounding slashes trimmed.
pub open spec fn entry_step(m: Map<Seq<char>, NodeView>, e: RawEntry, i: int) -> Map<Seq<char>, NodeView> {
    let key = trim_slashes(e.name@);
    if e.is_dir {
        spec_insert_dir(m, key, entry_time(e))
    } else {
        spec_insert_file(m, key, entry_file(e, i))
    }
}

/// The index built from the central directory `es`, entry by entry, over
/// an index holding only the root.
pub open spec fn build_view(es: Seq<RawEntry>) -> Map<Seq<char>, NodeView>
    decreases es.len(),
{
    if es.len() == 0 {
        Map::<Seq<char>, NodeView>::empty().insert(Seq::<char>::empty(), crate::zip_index::empty_dir())
    } else {
        entry_step(build_view(es.drop_last()), es.last(), es.len() - 1)
    }
}

/// Whether every timestamp in `es` is one a zip archive can hold a
/// conversion for (a March timestamp needs a day of at least 1).
pub open spec fn times_ok(es: Seq<RawEntry>) -> bool {
    forall|i: int| 0 <= i < es.len() ==> ((#[trigger] es[i]).modified matches Some(dt) ==> !(dt.month == 3 && dt.day == 0))
}

/// A browsable tree over a zip archive's entries.
pub struct ZipVfs {
    index: Index,
}

/// The outcome of resolving a path, as an error, when it is not `Found`.
pub open spec fn resolve_failed(m: Map<Seq<char>, NodeView>, w: Walk, e: SourceError) -> bool {
    !(w is Found) && resolve_result(m, w, Err((e.kind, e.message@)))
}

impl ZipVfs {
    #[verifier::type_invariant]
    spec fn inv(self) -> bool {
        self.index.wf()
    }

    /// The archive's structure, as a map from index key to node.
    pub closed spec fn view(&self) -> Map<Seq<char>, NodeView> {
        self.index.view()
    }

    /// Indexes every entry of an archive's central directory, so that every
    /// later lookup is answered from memory.
    pub fn new(entries: &Vec<RawEntry>) -> (z: ZipVfs)
        requires
            times_ok(entries@),
            entries@.len() <= usize::MAX,
        ensures
            z.view() == build_view(entries@),
    {
        let mut index = Index::new();
        let mut i: usize = 0;
        while i < entries.len()
            invariant
                i <= entries@.len(),
                index.wf(),
                times_ok(entries@),
                index.view() == build_view(entries@.subrange(0, i as int)),
            decreases entries.len() - i,
        {
            proof {
                assert(entries@.subrange(0, i + 1).drop_last() =~= entries@.subrange(0, i as int));
                assert(entries@.subrange(0, i + 1).last() == entries@[i as int]);
            }
            let e = &entries[i];
            let nc = chars_of(e.name.as_str());
            let kc = trim_slashes_chars(nc.as_slice());
            let key = string_of(kc.as_slice());
            let modified: Option<i64> = match &e.modified {
                Some(dt) => {
                    proof {
                        assert(entries@[i as int].modified matches Some(d) ==> !(d.month == 3 && d.day == 0));
                    }
                    Some(system_time_from_zip_datetime(dt))
                },
                None => None,
            };
            proof {
                assert(modified == entry_time(entries@[i as int]));
            }
            if e.is_dir {
                index.insert_dir(key.as_str(), modified);
            } else {
                let target: Option<String> = if e.is_symlink { Some(e.link_target.clone()) } else { None };
                proof {
                    if e.is_symlink {
                        assert(target matches Some(t) && t@ == e.link_target@);
                    }
                }
                let f = FileEntry { archive_index: i, size: e.size, modified, is_symlink: e.is_symlink, symlink_target: target };
                proof {
                    assert(f.view() == entry_file(entries@[i as int], i as int));
                }
                index.insert_file(key.as_str(), f);
            }
            i = i + 1;
        }
        proof {
            assert(entries@.subrange(0, entries@.len() as int) =~= entries@);
        }
        ZipVfs { index }
    }

    fn resolve(&self, path: &str, follow_final: bool) -> (r: Result<(String, &Node), SourceError>)
        ensures
            resolve_result(self.view(), spec_resolve(self.view(), spec_key_from_path(path@), follow_final), resolved_view(r)),
            r matches Ok((_, n)) ==> n.wf(),
    {
        proof {
            use_type_invariant(self);
        }
        let key = key_from_path(path);
        self.index.resolve(key.as_str(), follow_final)
    }

    /// The absolute, symlink-free path `path` resolves to.
    pub fn canonicalize(&self, path: &str) -> (r: Result<String, SourceError>)
        ensures
            ({
                let w = spec_resolve(self.view(), spec_key_from_path(path@), true);
                match r {
                    Ok(p) => w matches Walk::Found(k) && p@ == spec_path_from_key(k),
                    Err(e) => resolve_failed(self.view(), w, e),
                }
            }),
    {
        match self.resolve(path, true) {
            Ok((key, _)) => Ok(path_from_key(key.as_str())),
            Err(e) => Err(e),
        }
    }

    /// Metadata for `path`, following a trailing symlink (like `stat`).
    pub fn metadata(&self, path: &str) -> (r: Result<Metadata, SourceError>)
        ensures
            ({
                let w = spec_resolve(self.view(), spec_key_from_path(path@), true);
                match r {
                    Ok(md) => w matches Walk::Found(k) && metadata_of(md, self.view()[k]),
                    Err(e) => resolve_failed(self.view(), w, e),
                }
            }),
    {
        match self.resolve(path, true) {
            Ok((_, node)) => Ok(node_to_metadata(node)),
            Err(e) => Err(e),
        }
    }

    /// Metadata for `path` itself, not following a trailing symlink (like
    /// `lstat`).
    pub fn symlink_metadata(&self, path: &str) -> (r: Result<Metadata, SourceError>)
        ensures
            ({
                let w = spec_resolve(self.view(), spec_key_from_path(path@), false);
                match r {
                    Ok(md) => w matches Walk::Found(k) && metadata_of(md, self.view()[k]),
                    Err(e) => resolve_failed(self.view(), w, e),
                }
            }),
    {
        match self.resolve(path, false) {
            Ok((_, node)) => Ok(node_to_metadata(node)),
            Err(e) => Err(e),
        }
    }

    /// The unresolved target of the symlink at `path` (like `readlink`).
    pub fn read_link(&self, path: &str) -> (r: Result<String, SourceError>)
        ensures
            ({
                let m = self.view();
                let w = spec_resolve(m, spec_key_from_path(path@), false);
                match w {
                    Walk::Found(k) => match m[k] {
                        NodeView::File(f) if f.is_symlink => r matches Ok(t) && t@ == target_of(f),
                        _ => r matches Err(e) && e.kind == ErrorKind::InvalidInput && e.message@ == k + ": not a symlink"@,
                    },
                    _ => r matches Err(e) && resolve_failed(m, w, e),
                }
            }),
    {
        match self.resolve(path, false) {
            Ok((key, node)) => {
                match node {
                    Node::File(f) => {
                        if f.is_symlink {
                            let t = match &f.symlink_target {
                                Some(t) => t.clone(),
                                None => String::new(),
                            };
                            return Ok(t);
                        }
                    },
                    Node::Dir { .. } => {},
                }
                let mut m = key;
                m.append(": not a symlink");
                Err(SourceError::new(ErrorKind::InvalidInput, m))
            },
            Err(e) => Err(e),
        }
    }

    /// The regular-file (or symlink-to-file) entry `path` resolves to,
    /// refusing a directory the way opening one as a file would.
    pub fn resolve_file(&self, path: &str) -> (r: Result<&FileEntry, SourceError>)
        ensures
            ({
                let m = self.view();
                let w = spec_resolve(m, spec_key_from_path(path@), true);
                match w {
                    Walk::Found(k) => match m[k] {
                        NodeView::File(fv) => r matches Ok(f) && f.view() == fv,
                        NodeView::Dir { .. } => r matches Err(e) && e.kind == ErrorKind::Other && e.message@ == k + ": is a directory"@,
                    },
                    _ => r matches Err(e) && resolve_failed(m, w, e),
                }
            }),
    {
        match self.resolve(path, true) {
            Ok((key, node)) => match node {
                Node::File(f) => Ok(f),
                Node::Dir { .. } => {
                    let mut m = key;
                    m.append(": is a directory");
                    Err(SourceError::new(ErrorKind::Other, m))
                },
            },
            Err(e) => Err(e),
        }
    }

    /// The immediate children of the directory at `path` (following
    /// symlinks), in name order: each child's name, whether it is a
    /// directory and whether it is a symlink.
    pub fn read_dir(&self, path: &str) -> (r: Result<Vec<DirEntryInfo>, SourceError>)
        ensures
            ({
                let m = self.view();
                let w = spec_resolve(m, spec_key_from_path(path@), true);
                match w {
                    Walk::Found(k) => match m[k] {
                        NodeView::Dir { children, .. } => r matches Ok(v) && {
                            let names = v@.map_values(|e: DirEntryInfo| e.name@);
                            &&& sorted_strs(names)
                            &&& names.to_set() == children
                            &&& forall|i: int| 0 <= i < v@.len() ==> {
                                let c = m[spec_join(k, #[trigger] v@[i].name@)];
                                &&& m.contains_key(spec_join(k, v@[i].name@))
                                &&& v@[i].is_dir == (c is Dir)
                                &&& v@[i].is_link == (c matches NodeView::File(f) && f.is_symlink)
                            }
                        },
                        NodeView::File(_) => r matches Err(e) && e.kind == ErrorKind::Other && e.message@ == not_a_dir_message(k),
                    },
                    _ => r matches Err(e) && resolve_failed(m, w, e),
                }
            }),
    {
        proof {
            use_type_invariant(self);
        }
        let (key, node) = match self.resolve(path, true) {
            Ok(x) => x,
            Err(e) => {
                return Err(e);
            },
        };
        let ghost m = self.view();
        let ghost k = key@;
        proof {
            crate::zip_index::lemma_walk_found(m, Seq::empty(), split_nonempty(spec_key_from_path(path@), '/'), 0, true);
        }
        let children = match node {
            Node::Dir { children, .. } => children,
            Node::File(_) => {
                let mut msg = key;
                msg.append(": not a directory");
                return Err(SourceError::new(ErrorKind::Other, msg));
            },
        };
        let ghost cs = strs_view(children@);
        let kc = chars_of(key.as_str());
        let mut out: Vec<DirEntryInfo> = Vec::new();
        let mut i: usize = 0;
        while i < children.len()
            invariant
                self.index.wf(),
                m == self.view(),
                kc@ == k,
                m.contains_key(k),
                m[k] matches NodeView::Dir { children: set, .. } && set == cs.to_set(),
                cs == strs_view(children@),
                i <= children@.len(),
                out@.len() == i,
                forall|j: int| 0 <= j < i ==> {
                    let c = m[spec_join(k, #[trigger] out@[j].name@)];
                    &&& out@[j].name@ == cs[j]
                    &&& m.contains_key(spec_join(k, out@[j].name@))
                    &&& out@[j].is_dir == (c is Dir)
                    &&& out@[j].is_link == (c matches NodeView::File(f) && f.is_symlink)
                },
            decreases children.len() - i,
        {
            let name = &children[i];
            proof {
                assert(cs.contains(cs[i as int]));
                assert(cs.to_set().contains(name@));
                self.index.lemma_child_present(k, name@);
            }
            let ck = join_chars(kc.as_slice(), name.as_slice());
            let child = match self.index.get_chars(ck.as_slice()) {
                Some(c) => c,
                None => {
                    proof {
                        assert(false);
                    }
                    return Err(SourceError::new(ErrorKind::NotFound, String::new()));
                },
            };
            let is_dir = match child {
                Node::Dir { .. } => true,
                Node::File(_) => false,
            };
            let is_link = match child {
                Node::File(f) => f.is_symlink,
                Node::Dir { .. } => false,
            };
            out.push(DirEntryInfo { name: string_of(name.as_slice()), is_dir, is_link });
            i = i + 1;
        }
        proof {
            let names = out@.map_values(|e: DirEntryInfo| e.name@);
            assert(names =~= cs);
            assert(node.wf());
        }
        Ok(out)
    }
}

} // verus!
