//! The order `String`'s `Ord` puts strings in — lexicographic by character
//! (which is the same as lexicographic by UTF-8 byte) — and sorted,
//! duplicate-free sequences of strings kept in that order, standing in for
//! a `BTreeSet<String>`.

use vstd::prelude::*;

verus! {

/// `a < b` in `String` order.
pub open spec fn lex_lt(a: Seq<char>, b: Seq<char>) -> bool
    decreases a.len(),
{
    if a.len() == 0 {
        b.len() > 0
    } else if b.len() == 0 {
        false
    } else if a[0] != b[0] {
        a[0] < b[0]
    } else {
        lex_lt(a.drop_first(), b.drop_first())
    }
}

pub proof fn lemma_lex_irreflexive(a: Seq<char>)
    ensures
        !lex_lt(a, a),
    decreases a.len(),
{
    if a.len() > 0 {
        lemma_lex_irreflexive(a.drop_first());
    }
}

pub proof fn lemma_lex_asymmetric(a: Seq<char>, b: Seq<char>)
    ensures
        !(lex_lt(a, b) && lex_lt(b, a)),
    decreases a.len(),
{
    if a.len() > 0 && b.len() > 0 && a[0] == b[0] {
        lemma_lex_asymmetric(a.drop_first(), b.drop_first());
    }
}

pub proof fn lemma_lex_total(a: Seq<char>, b: Seq<char>)
    ensures
        a != b ==> lex_lt(a, b) || lex_lt(b, a),
    decreases a.len(),
{
    if a.len() > 0 && b.len() > 0 && a[0] == b[0] {
        lemma_lex_total(a.drop_first(), b.drop_first());
        if a.drop_first() == b.drop_first() {
            assert(a =~= seq![a[0]] + a.drop_first());
            assert(b =~= seq![b[0]] + b.drop_first());
            assert(a =~= b);
        }
    } else if a.len() == 0 && b.len() == 0 {
        assert(a =~= b);
    } else if a.len() > 0 && b.len() > 0 {
        assert(a[0] != b[0]);
    }
}

pub proof fn lemma_lex_transitive(a: Seq<char>, b: Seq<char>, c: Seq<char>)
    requires
        lex_lt(a, b),
        lex_lt(b, c),
    ensures
        lex_lt(a, c),
    decreases a.len(),
{
    if a.len() > 0 && b.len() > 0 && c.len() > 0 && a[0] == b[0] && b[0] == c[0] {
        lemma_lex_transitive(a.drop_first(), b.drop_first(), c.drop_first());
    }
}

/// The outcome of comparing two strings.
#[derive(Clone, Copy, Debug, PartialEq, Eq, Structural)]
pub enum Cmp {
    Less,
    Equal,
    Greater,
}

/// Compares `a` with `b` in `String` order.
pub fn compare_chars(a: &[char], b: &[char]) -> (r: Cmp)
    ensures
        r == Cmp::Less <==> lex_lt(a@, b@),
        r == Cmp::Equal <==> a@ == b@,
        r == Cmp::Greater <==> lex_lt(b@, a@),
{
    let mut i: usize = 0;
    proof {
        assert(a@.skip(0) == a@);
        assert(b@.skip(0) == b@);
    }
    while i < a.len() && i < b.len()
        invariant
            i <= a@.len(),
            i <= b@.len(),
            forall|k: int| 0 <= k < i ==> a@[k] == b@[k],
            lex_lt(a@, b@) == lex_lt(a@.skip(i as int), b@.skip(i as int)),
            lex_lt(b@, a@) == lex_lt(b@.skip(i as int), a@.skip(i as int)),
        decreases a.len() - i,
    {
        if a[i] != b[i] {
            proof {
                lemma_lex_total(a@, b@);
                lemma_lex_asymmetric(a@, b@);
                assert(a@[i as int] != b@[i as int]);
            }
            if a[i] < b[i] {
                return Cmp::Less;
            } else {
                return Cmp::Greater;
            }
        }
        proof {
            assert(a@.skip(i as int).drop_first() == a@.skip(i + 1));
            assert(b@.skip(i as int).drop_first() == b@.skip(i + 1));
        }
        i = i + 1;
    }
    proof {
        lemma_lex_irreflexive(a@);
    }
    if a.len() == b.len() {
        proof {
            assert(a@ =~= b@);
        }
        Cmp::Equal
    } else if a.len() < b.len() {
        proof {
            assert(a@ != b@);
        }
        Cmp::Less
    } else {
        proof {
            assert(a@ != b@);
        }
        Cmp::Greater
    }
}

/// Strictly increasing in `String` order (so also free of duplicates).
pub open spec fn sorted_strs(s: Seq<Seq<char>>) -> bool {
    forall|i: int, j: int| 0 <= i < j < s.len() ==> lex_lt(#[trigger] s[i], #[trigger] s[j])
}

pub open spec fn strs_view(v: Seq<Vec<char>>) -> Seq<Seq<char>> {
    v.map_values(|x: Vec<char>| x@)
}

/// Inserts `name` into the sorted `v`, keeping it sorted; does nothing if
/// `name` is already there.
pub fn insert_sorted(v: &mut Vec<Vec<char>>, name: &[char])
    requires
        sorted_strs(strs_view(old(v)@)),
    ensures
        sorted_strs(strs_view(final(v)@)),
        strs_view(final(v)@).to_set() == strs_view(old(v)@).to_set().insert(name@),
{
    let ghost old_s = strs_view(v@);
    let mut p: usize = 0;
    while p < v.len() && compare_chars(v[p].as_slice(), name) == Cmp::Less
        invariant
            p <= v@.len(),
            v@ == old(v)@,
            old_s == strs_view(v@),
            forall|k: int| 0 <= k < p ==> lex_lt(#[trigger] old_s[k], name@),
        decreases v.len() - p,
    {
        p = p + 1;
    }
    if p < v.len() && compare_chars(v[p].as_slice(), name) == Cmp::Equal {
        proof {
            assert(old_s.to_set().insert(name@) =~= old_s.to_set()) by {
                assert(old_s[p as int] == name@);
            }
        }
        return;
    }
    let mut nv: Vec<char> = Vec::new();
    let mut j: usize = 0;
    while j < name.len()
        invariant
            j <= name@.len(),
            nv@ == name@.subrange(0, j as int),
        decreases name.len() - j,
    {
        nv.push(name[j]);
        j = j + 1;
    }
    proof {
        assert(name@.subrange(0, name@.len() as int) == name@);
        if p < old_s.len() {
            lemma_lex_total(old_s[p as int], name@);
        }
    }
    v.insert(p, nv);
    proof {
        let s = strs_view(v@);
        assert(s =~= old_s.insert(p as int, name@));
        assert forall|i: int, j: int| 0 <= i < j < s.len() implies lex_lt(#[trigger] s[i], #[trigger] s[j]) by {
            if j < p {
            } else if j == p {
            } else if i < p {
                assert(s[j] == old_s[j - 1]);
                assert(lex_lt(old_s[i], name@));
                if j - 1 > p {
                    assert(lex_lt(old_s[p as int], old_s[j - 1]));
                    lemma_lex_transitive(name@, old_s[p as int], old_s[j - 1]);
                }
                lemma_lex_transitive(old_s[i], name@, old_s[j - 1]);
            } else if i == p {
                assert(s[j] == old_s[j - 1]);
                if j - 1 > p {
                    lemma_lex_transitive(name@, old_s[p as int], old_s[j - 1]);
                }
            } else {
                assert(s[i] == old_s[i - 1]);
                assert(s[j] == old_s[j - 1]);
            }
        }
        assert(s.to_set() =~= old_s.to_set().insert(name@)) by {
            assert forall|x: Seq<char>| s.to_set().contains(x) implies old_s.to_set().insert(name@).contains(x) by {
                let i = choose|i: int| 0 <= i < s.len() && s[i] == x;
                if i < p {
                    assert(old_s[i] == x);
                } else if i > p {
                    assert(old_s[i - 1] == x);
                }
            }
            assert forall|x: Seq<char>| old_s.to_set().insert(name@).contains(x) implies s.to_set().contains(x) by {
                if x == name@ {
                    assert(s[p as int] == x);
                } else {
                    let i = choose|i: int| 0 <= i < old_s.len() && old_s[i] == x;
                    if i < p {
                        assert(s[i] == x);
                    } else {
                        assert(s[i + 1] == x);
                    }
                }
            }
        }
    }
}

} // verus!
