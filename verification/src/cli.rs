//! Decisions around the command line: which flags the `IOTACTL_FLAGS`
//! environment variable may set, where its words go in the argument list,
//! and in what order the `--toggle-on`/`--toggle-off` requests apply.
//! Parsing the arguments themselves is `clap`'s work and stays with the
//! program.

use vstd::prelude::*;

use crate::text::{chars_of, str_is, string_of};

verus! {

broadcast use {vstd::multiset::group_multiset_axioms, vstd::seq_lib::group_to_multiset_ensures};

/// The argument ids (the option names with `_` for `-`) that
/// `IOTACTL_FLAGS` may set. The starting path is deliberately not among
/// them: a path smuggled in through the environment would silently change
/// which directory opens.
pub open spec fn env_allowed(id: Seq<char>) -> bool {
    ||| id == "nerd_font"@
    ||| id == "no_nerd_font"@
    ||| id == "mouse"@
    ||| id == "no_mouse"@
    ||| id == "toggle_on"@
    ||| id == "toggle_off"@
    ||| id == "allow_slow_pipes"@
    ||| id == "slow_pipe_buffer_size"@
}

/// `s` with every `_` turned into `-`.
pub open spec fn dashed(s: Seq<char>) -> Seq<char> {
    Seq::new(s.len(), |i: int| if s[i] == '_' { '-' } else { s[i] })
}

/// Why `IOTACTL_FLAGS` may not set the argument `id`.
pub open spec fn env_refusal_message(id: Seq<char>) -> Seq<char> {
    "IOTACTL_FLAGS may not set "@ + if id == "path"@ { "the PATH argument"@ } else { "--"@ + dashed(id) }
}

/// The refusal for an argument `IOTACTL_FLAGS` set, if it may not set it.
pub fn env_arg_refusal(id: &str) -> (r: Option<String>)
    ensures
        r is None <==> env_allowed(id@),
        r matches Some(m) ==> m@ == env_refusal_message(id@),
{
    if str_is(id, "nerd_font") || str_is(id, "no_nerd_font") || str_is(id, "mouse") || str_is(id, "no_mouse")
        || str_is(id, "toggle_on") || str_is(id, "toggle_off") || str_is(id, "allow_slow_pipes")
        || str_is(id, "slow_pipe_buffer_size") {
        return None;
    }
    let mut m: Vec<char> = chars_of("IOTACTL_FLAGS may not set ");
    if str_is(id, "path") {
        let t = chars_of("the PATH argument");
        let mut k: usize = 0;
        let ghost m0 = m@;
        while k < t.len()
            invariant
                k <= t@.len(),
                m@ == m0 + t@.subrange(0, k as int),
            decreases t.len() - k,
        {
            m.push(t[k]);
            proof {
                assert(m@ =~= m0 + t@.subrange(0, k + 1));
            }
            k = k + 1;
        }
        proof {
            assert(t@.subrange(0, t@.len() as int) =~= t@);
        }
    } else {
        m.push('-');
        m.push('-');
        let cs = chars_of(id);
        let ghost m0 = m@;
        let mut k: usize = 0;
        while k < cs.len()
            invariant
                k <= cs@.len(),
                m@ == m0 + dashed(cs@).subrange(0, k as int),
            decreases cs.len() - k,
        {
            m.push(if cs[k] == '_' { '-' } else { cs[k] });
            proof {
                assert(m@ =~= m0 + dashed(cs@).subrange(0, k + 1));
            }
            k = k + 1;
        }
        proof {
            reveal_strlit("--");
            assert(dashed(cs@).subrange(0, cs@.len() as int) =~= dashed(cs@));
        }
    }
    proof {
        assert(m@ =~= env_refusal_message(id@));
    }
    Some(string_of(m.as_slice()))
}

/// The effective arguments: the program name, then the words of
/// `IOTACTL_FLAGS`, then the rest of the command line — so that a flag
/// given on the command line wins over the same flag from the environment.
pub fn splice_env_args(argv: Vec<String>, env_args: Vec<String>) -> (r: Vec<String>)
    ensures
        argv@.len() == 0 ==> r@ == env_args@,
        argv@.len() > 0 ==> r@ == seq![argv@[0]] + env_args@ + argv@.subrange(1, argv@.len() as int),
{
    let mut argv = argv;
    let mut env_args = env_args;
    if argv.len() == 0 {
        return env_args;
    }
    let ghost a = argv@;
    let ghost e = env_args@;
    let mut rest = argv.split_off(1);
    argv.append(&mut env_args);
    argv.append(&mut rest);
    proof {
        assert(argv@ =~= seq![a[0]] + e + a.subrange(1, a.len() as int)) by {
            assert(a.subrange(0, 1) =~= seq![a[0]]);
        }
    }
    argv
}

/// Sorted by position.
pub open spec fn by_position(s: Seq<(usize, String, bool)>) -> bool {
    forall|i: int, j: int| 0 <= i < j < s.len() ==> (#[trigger] s[i]).0 <= (#[trigger] s[j]).0
}

/// The `--toggle-on` requests (`true`) and `--toggle-off` requests
/// (`false`), each with its position on the command line, merged into the
/// order they were given in — so that, when one name is both set and
/// cleared, the later request wins.
pub fn order_toggle_requests(on: Vec<(usize, String)>, off: Vec<(usize, String)>) -> (r: Vec<(String, bool)>)
    ensures
        exists|merged: Seq<(usize, String, bool)>| {
            &&& by_position(merged)
            &&& merged.to_multiset() =~= (on@.map_values(|p: (usize, String)| (p.0, p.1, true))
                + off@.map_values(|p: (usize, String)| (p.0, p.1, false))).to_multiset()
            &&& r@ == merged.map_values(|t: (usize, String, bool)| (t.1, t.2))
        },
{
    let ghost all = on@.map_values(|p: (usize, String)| (p.0, p.1, true)) + off@.map_values(|p: (usize, String)| (p.0, p.1, false));
    let mut items: Vec<(usize, String, bool)> = Vec::new();
    let mut on = on;
    let mut off = off;
    let ghost on0 = on@;
    let ghost off0 = off@;
    let n_on: usize = on.len();
    let n_off: usize = off.len();
    let mut k: usize = 0;
    while on.len() > 0
        invariant
            k + on@.len() == on0.len(),
            on0.len() == n_on,
            on@ == on0.subrange(k as int, on0.len() as int),
            items@ == on0.subrange(0, k as int).map_values(|p: (usize, String)| (p.0, p.1, true)),
        decreases on.len(),
    {
        let (i, name) = on.remove(0);
        items.push((i, name, true));
        proof {
            assert(items@ =~= on0.subrange(0, k + 1).map_values(|p: (usize, String)| (p.0, p.1, true)));
        }
        k = k + 1;
        proof {
            assert(on@ =~= on0.subrange(k as int, on0.len() as int));
        }
    }
    let mut k2: usize = 0;
    let ghost base = items@;
    proof {
        assert(on0.subrange(0, on0.len() as int) =~= on0);
    }
    while off.len() > 0
        invariant
            k2 + off@.len() == off0.len(),
            off0.len() == n_off,
            off@ == off0.subrange(k2 as int, off0.len() as int),
            items@ == base + off0.subrange(0, k2 as int).map_values(|p: (usize, String)| (p.0, p.1, false)),
        decreases off.len(),
    {
        let (i, name) = off.remove(0);
        items.push((i, name, false));
        proof {
            assert(items@ =~= base + off0.subrange(0, k2 + 1).map_values(|p: (usize, String)| (p.0, p.1, false)));
        }
        k2 = k2 + 1;
        proof {
            assert(off@ =~= off0.subrange(k2 as int, off0.len() as int));
        }
    }
    proof {
        assert(off0.subrange(0, off0.len() as int) =~= off0);
        assert(items@ =~= all);
    }
    let mut sorted: Vec<(usize, String, bool)> = Vec::new();
    let ghost src = items@;
    while items.len() > 0
        invariant
            by_position(sorted@),
            sorted@.to_multiset().add(items@.to_multiset()) =~= src.to_multiset(),
        decreases items.len(),
    {
        let ghost before_items = items@;
        let it = items.remove(0);
        proof {
            assert(before_items =~= seq![it] + items@);
            vstd::seq_lib::lemma_multiset_commutative(seq![it], items@);
        }
        let mut p: usize = 0;
        while p < sorted.len() && sorted[p].0 <= it.0
            invariant
                p <= sorted@.len(),
                forall|q: int| 0 <= q < p ==> (#[trigger] sorted@[q]).0 <= it.0,
            decreases sorted.len() - p,
        {
            p = p + 1;
        }
        let ghost before = sorted@;
        sorted.insert(p, it);
        proof {
            assert(sorted@ =~= before.insert(p as int, it));
            assert forall|i: int, j: int| 0 <= i < j < sorted@.len() implies (#[trigger] sorted@[i]).0 <= (#[trigger] sorted@[j]).0 by {
                if j < p {
                    assert(before[i].0 <= before[j].0);
                } else if j == p {
                    assert(before[i].0 <= it.0);
                } else if i < p {
                    assert(before[i].0 <= it.0);
                    assert(sorted@[j] == before[j - 1]);
                    if p < before.len() {
                        assert(it.0 < before[p as int].0);
                        if j - 1 > p {
                            assert(before[p as int].0 <= before[j - 1].0);
                        }
                    }
                } else if i == p {
                    assert(sorted@[j] == before[j - 1]);
                    if p < before.len() {
                        assert(it.0 < before[p as int].0);
                        if j - 1 > p {
                            assert(before[p as int].0 <= before[j - 1].0);
                        }
                    }
                } else {
                    assert(before[i - 1].0 <= before[j - 1].0);
                }
            }
            vstd::seq_lib::to_multiset_insert(before, p as int, it);
        }
    }
    proof {
        assert(items@.to_multiset() =~= vstd::multiset::Multiset::<(usize, String, bool)>::empty());
    }
    let ghost merged = sorted@;
    let mut out: Vec<(String, bool)> = Vec::new();
    let mut j: usize = 0;
    let n: usize = sorted.len();
    while sorted.len() > 0
        invariant
            j + sorted@.len() == merged.len(),
            merged.len() == n,
            sorted@ == merged.subrange(j as int, merged.len() as int),
            out@ == merged.subrange(0, j as int).map_values(|t: (usize, String, bool)| (t.1, t.2)),
        decreases sorted.len(),
    {
        let (_pos, name, value) = sorted.remove(0);
        out.push((name, value));
        proof {
            assert(out@ =~= merged.subrange(0, j + 1).map_values(|t: (usize, String, bool)| (t.1, t.2)));
        }
        j = j + 1;
        proof {
            assert(sorted@ =~= merged.subrange(j as int, merged.len() as int));
        }
    }
    proof {
        assert(merged.subrange(0, merged.len() as int) =~= merged);
        assert(by_position(merged));
    }
    out
}

} // verus!
