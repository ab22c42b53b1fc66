//! A node source over a parsed JSON document: an object's keys and an
//! array's positions are child nodes, and a scalar (string, number, bool
//! or null) is a leaf whose preview is its own value. The document is
//! parsed once, up front, by the caller; every operation here walks the
//! parsed tree in memory.

use vstd::prelude::*;

use vstd::string::StringSliceAdditionalSpecFns;

use crate::byte_size::{all_digits, digits_value, parse_usize, spec_parse_usize};
use crate::entry::{Entry, FOLDER_ICON};
use crate::error::{ErrorKind, SourceError, debug_str, spec_debug_str};
use crate::manual::{join_id, join_slash};
use crate::style::Color;
use crate::text::{chars_eq, chars_of, decimal, decimal_chars, digit_char, is_ascii_digit, split_nonempty, split_nonempty_strings, string_of};

verus! {

/// A parsed JSON value. Numbers keep the text they are written with; an
/// object keeps its keys in document order (keys are distinct).
#[derive(Debug)]
pub enum JsonValue {
    Null,
    Bool(bool),
    Number(String),
    Str(String),
    Array(Vec<JsonValue>),
    Object(Vec<(String, JsonValue)>),
}

/// Splits the command-line path after a scheme (`json://`, `manual://`)
/// into id segments, ignoring empty ones (a leading, trailing or doubled
/// `/`): `rest.split('/').filter(|s| !s.is_empty())`.
pub fn split_id(rest: &str) -> (r: Vec<String>)
    ensures
        r@.map_values(|s: String| s@) == split_nonempty(rest@, '/'),
{
    let r = split_nonempty_strings(rest, '/');
    proof {
        assert(r@.map_values(|s: String| s@) =~= split_nonempty(rest@, '/'));
    }
    r
}

/// Whether a value has children: an object or an array.
pub open spec fn is_container(v: JsonValue) -> bool {
    v is Object || v is Array
}

/// The first entry of an object with key `k`.
pub open spec fn object_get(entries: Seq<(String, JsonValue)>, k: Seq<char>) -> Option<JsonValue>
    decreases entries.len(),
{
    if entries.len() == 0 {
        None
    } else if entries[0].0@ == k {
        Some(entries[0].1)
    } else {
        object_get(entries.drop_first(), k)
    }
}

/// Walks `id` down from `v`: an object segment matches a key exactly, an
/// array segment parses as a position; `None` as soon as one does not
/// resolve (a missing key, a bad or out-of-range position, or a segment
/// below a scalar).
pub open spec fn spec_resolve(v: JsonValue, id: Seq<Seq<char>>) -> Option<JsonValue>
    decreases id.len(),
{
    if id.len() == 0 {
        Some(v)
    } else {
        let next = match v {
            JsonValue::Object(m) => object_get(m@, id[0]),
            JsonValue::Array(items) => match spec_parse_usize(id[0]) {
                Some(i) => if i < items@.len() { Some(items@[i as int]) } else { None },
                None => None,
            },
            _ => None,
        };
        match next {
            Some(c) => spec_resolve(c, id.drop_first()),
            None => None,
        }
    }
}

/// Resolving a path is resolving its first part and then the rest from
/// there: a source scoped to a node sees below it exactly what the whole
/// document has below that node.
pub proof fn lemma_resolve_in_steps(v: JsonValue, a: Seq<Seq<char>>, b: Seq<Seq<char>>)
    ensures
        spec_resolve(v, a + b) == match spec_resolve(v, a) {
            Some(w) => spec_resolve(w, b),
            None => None,
        },
    decreases a.len(),
{
    if a.len() == 0 {
        assert(a + b =~= b);
    } else {
        assert((a + b)[0] == a[0]);
        assert((a + b).drop_first() =~= a.drop_first() + b);
        let next = match v {
            JsonValue::Object(m) => object_get(m@, a[0]),
            JsonValue::Array(items) => match spec_parse_usize(a[0]) {
                Some(i) => if i < items@.len() { Some(items@[i as int]) } else { None },
                None => None,
            },
            _ => None,
        };
        match next {
            Some(c) => lemma_resolve_in_steps(c, a.drop_first(), b),
            None => {},
        }
    }
}

/// `decimal(n)` reads back as `n`: it is one or more ASCII digits, with
/// no sign, whose value is `n`.
proof fn lemma_decimal_parses(n: nat)
    ensures
        decimal(n).len() > 0,
        decimal(n)[0] != '+',
        all_digits(decimal(n)),
        digits_value(decimal(n)) == n,
    decreases n,
{
    let c = digit_char(n % 10);
    assert(c as u32 == n % 10 + 48);
    if n < 10 {
        let d = decimal(n);
        assert(d =~= seq![c]);
        assert(d.drop_last() =~= Seq::<char>::empty());
        assert(d.last() == c);
        assert(digits_value(d) == digits_value(d.drop_last()) * 10 + ((c as u32) - 48) as nat);
    } else {
        lemma_decimal_parses(n / 10);
        let p = decimal(n / 10);
        let d = p.push(c);
        assert(decimal(n) == d);
        assert(d.drop_last() =~= p);
        assert(d.last() == c);
        assert(d[0] == p[0]);
        assert(digits_value(d) == digits_value(p) * 10 + ((c as u32) - 48) as nat);
        assert((n / 10) * 10 + n % 10 == n);
        assert forall|i: int| 0 <= i < d.len() implies is_ascii_digit(#[trigger] d[i]) by {
            if i < p.len() {
                assert(d[i] == p[i]);
            }
        }
    }
}

/// The value an object's entries give for the key of entry `k`, when no
/// earlier entry has the same key, is entry `k`'s value.
proof fn lemma_object_get_at(entries: Seq<(String, JsonValue)>, k: int)
    requires
        0 <= k < entries.len(),
        forall|j: int| 0 <= j < k ==> entries[j].0@ != entries[k].0@,
    ensures
        object_get(entries, entries[k].0@) == Some(entries[k].1),
    decreases k,
{
    if k > 0 {
        let rest = entries.drop_first();
        assert(rest[k - 1] == entries[k]);
        assert forall|j: int| 0 <= j < k - 1 implies (#[trigger] rest[j]).0@ != rest[k - 1].0@ by {
            assert(rest[j] == entries[j + 1]);
        }
        lemma_object_get_at(rest, k - 1);
    }
}

/// The children `read_dir` lists below an array resolve to the items they
/// were listed with: the child `k` is named `decimal(k)` and is item `k`,
/// counted from the front.
pub proof fn lemma_listed_item_resolves(items: Vec<JsonValue>, id: Seq<Seq<char>>, es: Seq<Entry>, k: int)
    requires
        children_ok(JsonValue::Array(items), id, es),
        0 <= k < es.len(),
    ensures
        es[k].name@ == decimal(k as nat),
        spec_resolve(JsonValue::Array(items), seq![es[k].name@]) == Some(items@[k]),
{
    assert(child_entry_ok(es[k], id, decimal(k as nat), items@[k]));
    lemma_array_position_resolves(items, k as nat);
}

/// The children `read_dir` lists below an object resolve to the values
/// they were listed with: the child `k` is named by entry `k`'s key and,
/// when no earlier entry has that key, is entry `k`'s value.
pub proof fn lemma_listed_entry_resolves(m: Vec<(String, JsonValue)>, id: Seq<Seq<char>>, es: Seq<Entry>, k: int)
    requires
        children_ok(JsonValue::Object(m), id, es),
        0 <= k < es.len(),
        forall|j: int| 0 <= j < k ==> m@[j].0@ != m@[k].0@,
    ensures
        es[k].name@ == m@[k].0@,
        spec_resolve(JsonValue::Object(m), seq![es[k].name@]) == Some(m@[k].1),
{
    assert(child_entry_ok(es[k], id, m@[k].0@, m@[k].1));
    lemma_object_get_at(m@, k);
    let id1 = seq![es[k].name@];
    assert(id1.drop_first() =~= Seq::<Seq<char>>::empty());
    assert(spec_resolve(m@[k].1, Seq::<Seq<char>>::empty()) == Some(m@[k].1));
}

/// Position `i` of an array, named in decimal as `read_dir` names it,
/// resolves to item `i` counted from the front.
pub proof fn lemma_array_position_resolves(items: Vec<JsonValue>, i: nat)
    requires
        i < items@.len(),
    ensures
        spec_resolve(JsonValue::Array(items), seq![decimal(i)]) == Some(items@[i as int]),
{
    lemma_decimal_parses(i);
    assert(items@.len() == items.len());
    let d = decimal(i);
    assert(spec_parse_usize(d) == Some(i));
    let id = seq![d];
    assert(id[0] == d);
    assert(id.drop_first() =~= Seq::<Seq<char>>::empty());
    assert(spec_resolve(items@[i as int], Seq::<Seq<char>>::empty()) == Some(items@[i as int]));
}

fn object_get_exec<'a>(entries: &'a Vec<(String, JsonValue)>, k: &[char]) -> (r: Option<&'a JsonValue>)
    ensures
        match r {
            Some(v) => object_get(entries@, k@) == Some(*v),
            None => object_get(entries@, k@) is None,
        },
{
    let mut i: usize = 0;
    proof {
        assert(entries@.skip(0) =~= entries@);
    }
    while i < entries.len()
        invariant
            i <= entries@.len(),
            object_get(entries@.skip(i as int), k@) == object_get(entries@, k@),
        decreases entries.len() - i,
    {
        proof {
            assert(entries@.skip(i as int)[0] == entries@[i as int]);
            assert(entries@.skip(i as int).drop_first() =~= entries@.skip(i + 1));
        }
        let kc = chars_of(entries[i].0.as_str());
        if chars_eq(kc.as_slice(), k) {
            return Some(&entries[i].1);
        }
        i = i + 1;
    }
    proof {
        assert(entries@.skip(entries@.len() as int).len() == 0);
    }
    None
}

/// The value `id` names below `root`, as `spec_resolve` states.
pub fn resolve<'v>(root: &'v JsonValue, id: &[String]) -> (r: Option<&'v JsonValue>)
    ensures
        match r {
            Some(v) => spec_resolve(*root, id@.map_values(|s: String| s@)) == Some(*v),
            None => spec_resolve(*root, id@.map_values(|s: String| s@)) is None,
        },
{
    let ghost ids = id@.map_values(|s: String| s@);
    let mut current: &JsonValue = root;
    let mut i: usize = 0;
    proof {
        assert(ids.skip(0) =~= ids);
    }
    while i < id.len()
        invariant
            i <= id@.len(),
            ids == id@.map_values(|s: String| s@),
            spec_resolve(*current, ids.skip(i as int)) == spec_resolve(*root, ids),
        decreases id.len() - i,
    {
        let ghost rest = ids.skip(i as int);
        proof {
            assert(rest[0] == id@[i as int]@);
            assert(rest.drop_first() =~= ids.skip(i + 1));
        }
        let seg = chars_of(id[i].as_str());
        let next: Option<&JsonValue> = match current {
            JsonValue::Object(m) => object_get_exec(m, seg.as_slice()),
            JsonValue::Array(items) => match parse_usize(seg.as_slice()) {
                Some(k) => if k < items.len() { Some(&items[k]) } else { None },
                None => None,
            },
            _ => None,
        };
        match next {
            Some(c) => {
                current = c;
            },
            None => {
                return None;
            },
        }
        i = i + 1;
    }
    proof {
        assert(ids.skip(id@.len() as int).len() == 0);
    }
    Some(current)
}

/// Glyph shared by every scalar leaf; leaves are told apart by color.
pub const LEAF_ICON: char = '\u{f15b}';

/// The icon of a value: the folder glyph (no color) for a container, the
/// leaf glyph colored by kind for a scalar — green strings, yellow
/// numbers, light red booleans and nulls.
pub open spec fn spec_value_icon(v: JsonValue) -> (char, Option<Color>) {
    match v {
        JsonValue::Object(_) | JsonValue::Array(_) => (FOLDER_ICON, None),
        JsonValue::Str(_) => (LEAF_ICON, Some(Color::Green)),
        JsonValue::Number(_) => (LEAF_ICON, Some(Color::Yellow)),
        JsonValue::Bool(_) | JsonValue::Null => (LEAF_ICON, Some(Color::LightRed)),
    }
}

pub fn value_icon(v: &JsonValue) -> (r: (char, Option<Color>))
    ensures
        r == spec_value_icon(*v),
{
    match v {
        JsonValue::Object(_) | JsonValue::Array(_) => (FOLDER_ICON, None),
        JsonValue::Str(_) => (LEAF_ICON, Some(Color::Green)),
        JsonValue::Number(_) => (LEAF_ICON, Some(Color::Yellow)),
        JsonValue::Bool(_) | JsonValue::Null => (LEAF_ICON, Some(Color::LightRed)),
    }
}

/// The entry for the child `name` (holding `v`) of the node at `id`.
pub open spec fn child_entry_ok(e: Entry, id: Seq<Seq<char>>, name: Seq<char>, v: JsonValue) -> bool {
    &&& e.name@ == name
    &&& e.id@.map_values(|s: String| s@) == id.push(name)
    &&& e.is_dir == is_container(v)
    &&& !e.is_link
    &&& e.suggested_commands@.len() == 0
    &&& e.nerd_icon == Some(spec_value_icon(v).0)
    &&& e.nerd_icon_color == spec_value_icon(v).1
}

fn copy_ids(id: &[String]) -> (r: Vec<String>)
    ensures
        r@.map_values(|s: String| s@) == id@.map_values(|s: String| s@),
{
    let mut r: Vec<String> = Vec::new();
    let mut i: usize = 0;
    while i < id.len()
        invariant
            i <= id@.len(),
            r@.map_values(|s: String| s@) == id@.map_values(|s: String| s@).subrange(0, i as int),
        decreases id.len() - i,
    {
        let ghost before = r@;
        r.push(id[i].clone());
        proof {
            let iv = id@.map_values(|s: String| s@);
            assert(r@.map_values(|s: String| s@) =~= before.map_values(|s: String| s@).push(id@[i as int]@));
            assert(iv.subrange(0, i + 1) =~= iv.subrange(0, i as int).push(iv[i as int]));
        }
        i = i + 1;
    }
    proof {
        assert(id@.map_values(|s: String| s@).subrange(0, id@.len() as int) =~= id@.map_values(|s: String| s@));
    }
    r
}

fn child_entry(id: &[String], name: String, v: &JsonValue) -> (e: Entry)
    ensures
        child_entry_ok(e, id@.map_values(|s: String| s@), name@, *v),
{
    let mut cid = copy_ids(id);
    let ghost before = cid@;
    cid.push(name.clone());
    proof {
        assert(cid@.map_values(|s: String| s@) =~= before.map_values(|s: String| s@).push(name@));
    }
    let (icon, color) = value_icon(v);
    let is_dir = match v {
        JsonValue::Object(_) | JsonValue::Array(_) => true,
        _ => false,
    };
    Entry { name, id: cid, is_dir, is_link: false, suggested_commands: Vec::new(), nerd_icon: Some(icon), nerd_icon_color: color }
}

pub open spec fn no_such_node_message(id: Seq<Seq<char>>) -> Seq<char> {
    "no such node in the JSON tree: "@ + join_slash(id)
}

/// The error for an id that names no node.
pub fn no_such_node(id: &[String]) -> (e: SourceError)
    ensures
        e.kind == ErrorKind::NotFound,
        e.message@ == no_such_node_message(id@.map_values(|x: String| x@)),
{
    let mut m = String::from_str("no such node in the JSON tree: ");
    let j = join_id(id);
    m.append(j.as_str());
    SourceError::new(ErrorKind::NotFound, m)
}

/// The children of a container as entries under `id`: an object's keys in
/// document order, an array's positions in index order.
pub open spec fn children_ok(v: JsonValue, id: Seq<Seq<char>>, es: Seq<Entry>) -> bool {
    match v {
        JsonValue::Object(m) => es.len() == m@.len() && forall|i: int| 0 <= i < es.len() ==> child_entry_ok(#[trigger] es[i], id, m@[i].0@, m@[i].1),
        JsonValue::Array(items) => es.len() == items@.len() && forall|i: int| 0 <= i < es.len() ==> child_entry_ok(#[trigger] es[i], id, decimal(i as nat), items@[i]),
        _ => false,
    }
}

/// Whether a JSON source may be built with (`has_pipe`) or without an
/// upstream source: it has nothing to read on its own, so the document's
/// bytes must be piped into it.
pub fn check_json_pipe(has_pipe: bool) -> (r: Result<(), SourceError>)
    ensures
        r is Ok <==> has_pipe,
        r matches Err(e) ==> e.kind == ErrorKind::InvalidInput,
{
    if has_pipe {
        Ok(())
    } else {
        Err(SourceError::new(
            ErrorKind::InvalidInput,
            String::from_str("json:// has nothing to read on its own — pipe another node source's bytes into it, e.g. \"file://data.json | json://\""),
        ))
    }
}

/// A node source over a JSON document, scoped to the node its `root` id
/// names: every id it is given is relative to that node.
pub struct JsonSource {
    root_value: JsonValue,
    root: Vec<String>,
}

impl JsonSource {
    #[verifier::type_invariant]
    spec fn inv(self) -> bool {
        spec_resolve(self.root_value, self.root@.map_values(|s: String| s@)) is Some
    }

    pub closed spec fn spec_value(&self) -> JsonValue {
        self.root_value
    }

    pub closed spec fn spec_root(&self) -> Seq<Seq<char>> {
        self.root@.map_values(|s: String| s@)
    }

    /// Scopes a source over `value` to the node `root` names (the path
    /// after `json://`, split as `split_id` does). Refused when no node has
    /// that id.
    pub fn new(value: JsonValue, root: &str) -> (r: Result<JsonSource, SourceError>)
        ensures
            ({
                let id = split_nonempty(root@, '/');
                match r {
                    Ok(s) => spec_resolve(value, id) is Some && s.spec_value() == value && s.spec_root() == id,
                    Err(e) => spec_resolve(value, id) is None && e.kind == ErrorKind::NotFound && e.message@ == no_such_node_message(id),
                }
            }),
    {
        let id = split_id(root);
        let found = resolve(&value, id.as_slice()).is_some();
        if found {
            Ok(JsonSource { root_value: value, root: id })
        } else {
            Err(no_such_node(id.as_slice()))
        }
    }

    /// The id from the document's root of the node `id` names here.
    pub fn absolute(&self, id: &[String]) -> (r: Vec<String>)
        ensures
            r@.map_values(|s: String| s@) == self.spec_root() + id@.map_values(|s: String| s@),
    {
        let mut r = copy_ids(self.root.as_slice());
        let mut more = copy_ids(id);
        let ghost a = r@;
        let ghost b = more@;
        r.append(&mut more);
        proof {
            assert(r@ == a + b);
            assert(r@.map_values(|s: String| s@) =~= self.spec_root() + id@.map_values(|s: String| s@));
        }
        r
    }

    /// The children of the container at `id`. A missing node is reported
    /// as not found; a scalar has no children to list.
    pub fn read_dir(&self, id: &[String]) -> (r: Result<Vec<Entry>, SourceError>)
        ensures
            ({
                let abs = self.spec_root() + id@.map_values(|s: String| s@);
                match spec_resolve(self.spec_value(), abs) {
                    None => r matches Err(e) && e.kind == ErrorKind::NotFound && e.message@ == no_such_node_message(abs),
                    Some(v) => if is_container(v) {
                        r matches Ok(es) && children_ok(v, id@.map_values(|s: String| s@), es@)
                    } else {
                        r matches Err(e) && e.kind == ErrorKind::InvalidInput
                            && e.message@ == join_slash(abs) + " is a leaf value, not a container"@
                    },
                }
            }),
    {
        let abs = self.absolute(id);
        let v = match resolve(&self.root_value, abs.as_slice()) {
            Some(v) => v,
            None => {
                return Err(no_such_node(abs.as_slice()));
            },
        };
        let ghost idv = id@.map_values(|s: String| s@);
        match v {
            JsonValue::Object(m) => {
                let mut out: Vec<Entry> = Vec::new();
                let mut i: usize = 0;
                while i < m.len()
                    invariant
                        i <= m@.len(),
                        idv == id@.map_values(|s: String| s@),
                        out@.len() == i,
                        forall|k: int| 0 <= k < i ==> child_entry_ok(#[trigger] out@[k], idv, m@[k].0@, m@[k].1),
                    decreases m.len() - i,
                {
                    out.push(child_entry(id, m[i].0.clone(), &m[i].1));
                    i = i + 1;
                }
                Ok(out)
            },
            JsonValue::Array(items) => {
                let mut out: Vec<Entry> = Vec::new();
                let mut i: usize = 0;
                while i < items.len()
                    invariant
                        i <= items@.len(),
                        idv == id@.map_values(|s: String| s@),
                        out@.len() == i,
                        forall|k: int| 0 <= k < i ==> child_entry_ok(#[trigger] out@[k], idv, decimal(k as nat), items@[k]),
                    decreases items.len() - i,
                {
                    let d = decimal_chars(i as u64);
                    out.push(child_entry(id, string_of(d.as_slice()), &items[i]));
                    i = i + 1;
                }
                Ok(out)
            },
            _ => {
                let mut m = join_id(abs.as_slice());
                m.append(" is a leaf value, not a container");
                Err(SourceError::new(ErrorKind::InvalidInput, m))
            },
        }
    }

    /// The entry describing this source's own root node: named by the last
    /// segment of its scoping id, or `$` (the document's root, as JSONPath
    /// spells it) when unscoped.
    pub fn root_entry(&self) -> (e: Entry)
        ensures
            ({
                let v = spec_resolve(self.spec_value(), self.spec_root())->Some_0;
                &&& e.name@ == (if self.spec_root().len() == 0 { "$"@ } else { self.spec_root().last() })
                &&& e.id@.len() == 0
                &&& e.is_dir == is_container(v)
                &&& !e.is_link
                &&& e.suggested_commands@.len() == 0
                &&& e.nerd_icon == Some(spec_value_icon(v).0)
                &&& e.nerd_icon_color == spec_value_icon(v).1
            }),
    {
        proof {
            use_type_invariant(self);
        }
        let v = match resolve(&self.root_value, self.root.as_slice()) {
            Some(v) => v,
            None => {
                proof {
                    assert(false);
                }
                &self.root_value
            },
        };
        let name = if self.root.len() == 0 {
            String::from_str("$")
        } else {
            self.root[self.root.len() - 1].clone()
        };
        let (icon, color) = value_icon(v);
        let is_dir = match v {
            JsonValue::Object(_) | JsonValue::Array(_) => true,
            _ => false,
        };
        Entry { name, id: Vec::new(), is_dir, is_link: false, suggested_commands: Vec::new(), nerd_icon: Some(icon), nerd_icon_color: color }
    }

    /// The JSON source has no commands, so every one is refused.
    pub fn execute_command(&self, command: &crate::command::Command) -> (r: Result<(), SourceError>)
        ensures
            r matches Err(e) && e.kind == ErrorKind::Unsupported
                && e.message@ == "the JSON source has no command named "@ + spec_debug_str(command.name@),
    {
        let mut m = String::from_str("the JSON source has no command named ");
        let d = debug_str(command.name.as_str());
        m.append(d.as_str());
        Err(SourceError::new(ErrorKind::Unsupported, m))
    }
}

/// The JSON source has no toggles, so setting or reading one is refused.
pub fn json_toggle_error(name: &str) -> (e: SourceError)
    ensures
        e.kind == ErrorKind::Unsupported,
        e.message@ == "the JSON source has no toggle named "@ + spec_debug_str(name@),
{
    let mut m = String::from_str("the JSON source has no toggle named ");
    let d = debug_str(name);
    m.append(d.as_str());
    SourceError::new(ErrorKind::Unsupported, m)
}


/// A lower-case hexadecimal digit.
pub open spec fn lower_hex(d: nat) -> char {
    if d < 10 { ((d + 48) as u32) as char } else { ((d - 10 + 97) as u32) as char }
}

/// How JSON text spells one character of a string: `"` and `\` and the
/// control characters below `0x20` are escaped (the usual short escapes
/// where there is one, `\u00XX` otherwise); everything else is as is.
pub open spec fn escape_char(c: char) -> Seq<char> {
    if c == '"' { seq!['\\', '"'] }
    else if c == '\\' { seq!['\\', '\\'] }
    else if c == '\u{08}' { seq!['\\', 'b'] }
    else if c == '\u{0C}' { seq!['\\', 'f'] }
    else if c == '\n' { seq!['\\', 'n'] }
    else if c == '\r' { seq!['\\', 'r'] }
    else if c == '\t' { seq!['\\', 't'] }
    else if (c as u32) <= 0x1F { seq!['\\', 'u', '0', '0', lower_hex((c as u32 as nat) / 16), lower_hex((c as u32 as nat) % 16)] }
    else { seq![c] }
}

/// A JSON string literal for `s`.
pub open spec fn escaped(s: Seq<char>) -> Seq<char>
    decreases s.len(),
{
    if s.len() == 0 { Seq::empty() } else { escaped(s.drop_last()) + escape_char(s.last()) }
}

pub open spec fn quoted(s: Seq<char>) -> Seq<char> {
    seq!['"'] + escaped(s) + seq!['"']
}

/// `v` printed the way `serde_json::to_string_pretty` prints it, with `ind`
/// the indentation of the line it starts on: two spaces per level, one
/// array element or object member per line, `": "` after a key, and `[]` or
/// `{}` for an empty container.
pub open spec fn pretty(v: JsonValue, ind: Seq<char>) -> Seq<char>
    decreases v, 1nat, 0nat,
{
    match v {
        JsonValue::Null => "null"@,
        JsonValue::Bool(b) => if b { "true"@ } else { "false"@ },
        JsonValue::Number(n) => n@,
        JsonValue::Str(s) => quoted(s@),
        JsonValue::Array(items) => if items@.len() == 0 {
            "[]"@
        } else {
            seq!['['] + pretty_items(v, ind, 0) + seq!['\n'] + ind + seq![']']
        },
        JsonValue::Object(m) => if m@.len() == 0 {
            "{}"@
        } else {
            seq!['{'] + pretty_items(v, ind, 0) + seq!['\n'] + ind + seq!['}']
        },
    }
}

/// The elements (or members) of the container `v` from position `i` on,
/// each on a line of its own, separated by commas.
pub open spec fn pretty_items(v: JsonValue, ind: Seq<char>, i: nat) -> Seq<char>
    decreases v, 0nat, (match v { JsonValue::Array(items) => items@.len(), JsonValue::Object(m) => m@.len(), _ => 0 }) - i,
{
    let inner = ind + seq![' ', ' '];
    match v {
        JsonValue::Array(items) => if i >= items@.len() {
            Seq::empty()
        } else {
            (if i > 0 { seq![','] } else { Seq::empty() }) + seq!['\n'] + inner + pretty(items@[i as int], inner)
                + pretty_items(v, ind, i + 1)
        },
        JsonValue::Object(m) => if i >= m@.len() {
            Seq::empty()
        } else {
            (if i > 0 { seq![','] } else { Seq::empty() }) + seq!['\n'] + inner + quoted(m@[i as int].0@) + seq![':', ' ']
                + pretty(m@[i as int].1, inner) + pretty_items(v, ind, i + 1)
        },
        _ => Seq::empty(),
    }
}

/// `v` printed compactly, as `serde_json::to_vec` prints it: no
/// whitespace at all.
pub open spec fn compact(v: JsonValue) -> Seq<char>
    decreases v, 1nat, 0nat,
{
    match v {
        JsonValue::Null => "null"@,
        JsonValue::Bool(b) => if b { "true"@ } else { "false"@ },
        JsonValue::Number(n) => n@,
        JsonValue::Str(s) => quoted(s@),
        JsonValue::Array(_) => seq!['['] + compact_items(v, 0) + seq![']'],
        JsonValue::Object(_) => seq!['{'] + compact_items(v, 0) + seq!['}'],
    }
}

pub open spec fn compact_items(v: JsonValue, i: nat) -> Seq<char>
    decreases v, 0nat, (match v { JsonValue::Array(items) => items@.len(), JsonValue::Object(m) => m@.len(), _ => 0 }) - i,
{
    match v {
        JsonValue::Array(items) => if i >= items@.len() {
            Seq::empty()
        } else {
            (if i > 0 { seq![','] } else { Seq::empty() }) + compact(items@[i as int]) + compact_items(v, i + 1)
        },
        JsonValue::Object(m) => if i >= m@.len() {
            Seq::empty()
        } else {
            (if i > 0 { seq![','] } else { Seq::empty() }) + quoted(m@[i as int].0@) + seq![':'] + compact(m@[i as int].1)
                + compact_items(v, i + 1)
        },
        _ => Seq::empty(),
    }
}

fn lower_hex_exec(d: u32) -> (c: char)
    requires
        d < 16,
    ensures
        c == lower_hex(d as nat),
{
    if d < 10 { crate::text::char_from_ascii(d + 48) } else { crate::text::char_from_ascii(d - 10 + 97) }
}

fn push_lit(out: &mut Vec<char>, lit: &str)
    ensures
        final(out)@ == old(out)@ + lit@,
{
    crate::text::append_str(out, lit);
}

fn write_quoted(s: &str, out: &mut Vec<char>)
    ensures
        final(out)@ == old(out)@ + quoted(s@),
{
    let cs = chars_of(s);
    out.push('"');
    let ghost base = out@;
    let mut i: usize = 0;
    while i < cs.len()
        invariant
            i <= cs@.len(),
            cs@ == s@,
            out@ == base + escaped(cs@.subrange(0, i as int)),
        decreases cs.len() - i,
    {
        proof {
            assert(cs@.subrange(0, i + 1).drop_last() =~= cs@.subrange(0, i as int));
            assert(cs@.subrange(0, i + 1).last() == cs@[i as int]);
        }
        let c = cs[i];
        let code: u32 = c as u32;
        let ghost before = out@;
        if c == '"' { out.push('\\'); out.push('"'); }
        else if c == '\\' { out.push('\\'); out.push('\\'); }
        else if c == '\u{08}' { out.push('\\'); out.push('b'); }
        else if c == '\u{0C}' { out.push('\\'); out.push('f'); }
        else if c == '\n' { out.push('\\'); out.push('n'); }
        else if c == '\r' { out.push('\\'); out.push('r'); }
        else if c == '\t' { out.push('\\'); out.push('t'); }
        else if code <= 0x1F {
            out.push('\\');
            out.push('u');
            out.push('0');
            out.push('0');
            out.push(lower_hex_exec(code / 16));
            out.push(lower_hex_exec(code % 16));
        } else {
            out.push(c);
        }
        proof {
            assert(out@ =~= before + escape_char(c));
        }
        i = i + 1;
    }
    proof {
        assert(cs@.subrange(0, cs@.len() as int) =~= cs@);
    }
    out.push('"');
    proof {
        assert(out@ =~= old(out)@ + quoted(s@));
    }
}

/// Appends `v` printed as `pretty` states.
fn write_pretty(v: &JsonValue, ind: &Vec<char>, out: &mut Vec<char>)
    ensures
        final(out)@ == old(out)@ + pretty(*v, ind@),
    decreases *v, 1nat, 0nat,
{
    match v {
        JsonValue::Null => push_lit(out, "null"),
        JsonValue::Bool(b) => if *b { push_lit(out, "true") } else { push_lit(out, "false") },
        JsonValue::Number(n) => push_lit(out, n.as_str()),
        JsonValue::Str(s) => write_quoted(s.as_str(), out),
        JsonValue::Array(items) => {
            if items.len() == 0 {
                push_lit(out, "[]");
            } else {
                out.push('[');
                write_pretty_items(v, ind, out);
                out.push('\n');
                crate::text::append_chars(out, ind.as_slice());
                out.push(']');
                proof {
                    assert(out@ =~= old(out)@ + pretty(*v, ind@));
                }
            }
        },
        JsonValue::Object(m) => {
            if m.len() == 0 {
                push_lit(out, "{}");
            } else {
                out.push('{');
                write_pretty_items(v, ind, out);
                out.push('\n');
                crate::text::append_chars(out, ind.as_slice());
                out.push('}');
                proof {
                    assert(out@ =~= old(out)@ + pretty(*v, ind@));
                }
            }
        },
    }
}

fn write_pretty_items(v: &JsonValue, ind: &Vec<char>, out: &mut Vec<char>)
    ensures
        final(out)@ == old(out)@ + pretty_items(*v, ind@, 0),
    decreases *v, 0nat, (match *v { JsonValue::Array(items) => items@.len(), JsonValue::Object(m) => m@.len(), _ => 0 }) + 1,
{
    let mut inner: Vec<char> = Vec::new();
    crate::text::append_chars(&mut inner, ind.as_slice());
    inner.push(' ');
    inner.push(' ');
    proof {
        assert(inner@ =~= ind@ + seq![' ', ' ']);
    }
    let ghost base = old(out)@;
    match v {
        JsonValue::Array(items) => {
            let mut i: usize = 0;
            while i < items.len()
                invariant
                    i <= items@.len(),
                    *v == JsonValue::Array(*items),
                    inner@ == ind@ + seq![' ', ' '],
                    out@ + pretty_items(*v, ind@, i as nat) == base + pretty_items(*v, ind@, 0),
                decreases items.len() - i,
            {
                let ghost before = out@;
                if i > 0 {
                    out.push(',');
                }
                out.push('\n');
                crate::text::append_chars(out, inner.as_slice());
                write_pretty(&items[i], &inner, out);
                proof {
                    assert(before + pretty_items(*v, ind@, i as nat) =~= out@ + pretty_items(*v, ind@, (i + 1) as nat));
                }
                i = i + 1;
            }
            proof {
                assert(pretty_items(*v, ind@, i as nat) =~= Seq::<char>::empty());
                assert(out@ =~= base + pretty_items(*v, ind@, 0));
            }
        },
        JsonValue::Object(m) => {
            let mut i: usize = 0;
            while i < m.len()
                invariant
                    i <= m@.len(),
                    *v == JsonValue::Object(*m),
                    inner@ == ind@ + seq![' ', ' '],
                    out@ + pretty_items(*v, ind@, i as nat) == base + pretty_items(*v, ind@, 0),
                decreases m.len() - i,
            {
                let ghost before = out@;
                if i > 0 {
                    out.push(',');
                }
                out.push('\n');
                crate::text::append_chars(out, inner.as_slice());
                write_quoted(m[i].0.as_str(), out);
                out.push(':');
                out.push(' ');
                write_pretty(&m[i].1, &inner, out);
                proof {
                    assert(before + pretty_items(*v, ind@, i as nat) =~= out@ + pretty_items(*v, ind@, (i + 1) as nat));
                }
                i = i + 1;
            }
            proof {
                assert(pretty_items(*v, ind@, i as nat) =~= Seq::<char>::empty());
                assert(out@ =~= base + pretty_items(*v, ind@, 0));
            }
        },
        _ => {
            proof {
                assert(pretty_items(*v, ind@, 0) =~= Seq::<char>::empty());
                assert(out@ =~= base + pretty_items(*v, ind@, 0));
            }
        },
    }
}

/// Appends `v` printed as `compact` states.
fn write_compact(v: &JsonValue, out: &mut Vec<char>)
    ensures
        final(out)@ == old(out)@ + compact(*v),
    decreases *v, 1nat, 0nat,
{
    match v {
        JsonValue::Null => push_lit(out, "null"),
        JsonValue::Bool(b) => if *b { push_lit(out, "true") } else { push_lit(out, "false") },
        JsonValue::Number(n) => push_lit(out, n.as_str()),
        JsonValue::Str(s) => write_quoted(s.as_str(), out),
        JsonValue::Array(_) => {
            out.push('[');
            write_compact_items(v, out);
            out.push(']');
            proof {
                assert(out@ =~= old(out)@ + compact(*v));
            }
        },
        JsonValue::Object(_) => {
            out.push('{');
            write_compact_items(v, out);
            out.push('}');
            proof {
                assert(out@ =~= old(out)@ + compact(*v));
            }
        },
    }
}

fn write_compact_items(v: &JsonValue, out: &mut Vec<char>)
    ensures
        final(out)@ == old(out)@ + compact_items(*v, 0),
    decreases *v, 0nat, (match *v { JsonValue::Array(items) => items@.len(), JsonValue::Object(m) => m@.len(), _ => 0 }) + 1,
{
    let ghost base = old(out)@;
    match v {
        JsonValue::Array(items) => {
            let mut i: usize = 0;
            while i < items.len()
                invariant
                    i <= items@.len(),
                    *v == JsonValue::Array(*items),
                    out@ + compact_items(*v, i as nat) == base + compact_items(*v, 0),
                decreases items.len() - i,
            {
                let ghost before = out@;
                if i > 0 {
                    out.push(',');
                }
                write_compact(&items[i], out);
                proof {
                    assert(before + compact_items(*v, i as nat) =~= out@ + compact_items(*v, (i + 1) as nat));
                }
                i = i + 1;
            }
            proof {
                assert(compact_items(*v, i as nat) =~= Seq::<char>::empty());
                assert(out@ =~= base + compact_items(*v, 0));
            }
        },
        JsonValue::Object(m) => {
            let mut i: usize = 0;
            while i < m.len()
                invariant
                    i <= m@.len(),
                    *v == JsonValue::Object(*m),
                    out@ + compact_items(*v, i as nat) == base + compact_items(*v, 0),
                decreases m.len() - i,
            {
                let ghost before = out@;
                if i > 0 {
                    out.push(',');
                }
                write_quoted(m[i].0.as_str(), out);
                out.push(':');
                write_compact(&m[i].1, out);
                proof {
                    assert(before + compact_items(*v, i as nat) =~= out@ + compact_items(*v, (i + 1) as nat));
                }
                i = i + 1;
            }
            proof {
                assert(compact_items(*v, i as nat) =~= Seq::<char>::empty());
                assert(out@ =~= base + compact_items(*v, 0));
            }
        },
        _ => {
            proof {
                assert(compact_items(*v, 0) =~= Seq::<char>::empty());
                assert(out@ =~= base + compact_items(*v, 0));
            }
        },
    }
}

/// `serde_json::to_string_pretty`'s rendering of `v`.
pub fn to_string_pretty(v: &JsonValue) -> (s: String)
    ensures
        s@ == pretty(*v, Seq::empty()),
{
    let mut out: Vec<char> = Vec::new();
    let ind: Vec<char> = Vec::new();
    write_pretty(v, &ind, &mut out);
    string_of(out.as_slice())
}

/// `serde_json::to_vec`'s (compact) rendering of `v`, as text.
pub fn to_string_compact(v: &JsonValue) -> (s: String)
    ensures
        s@ == compact(*v),
{
    let mut out: Vec<char> = Vec::new();
    write_compact(v, &mut out);
    string_of(out.as_slice())
}


/// Bound on how much of a value's pretty-printed text is highlighted and
/// shown, so a huge embedded string costs no giant highlight pass.
pub const PREVIEW_TEXT_LIMIT: usize = 65536;

/// The largest character boundary of `bytes` at or below `k`.
pub open spec fn boundary_at_or_below(bytes: Seq<u8>, k: int) -> int
    decreases k,
{
    if k <= 0 { 0 } else if vstd::utf8::is_char_boundary(bytes, k) { k } else { boundary_at_or_below(bytes, k - 1) }
}

/// `s` cut to at most `limit` bytes, backing off to a character boundary.
pub open spec fn spec_truncate(bytes: Seq<u8>, limit: int) -> Seq<u8> {
    if bytes.len() <= limit { bytes } else { bytes.subrange(0, boundary_at_or_below(bytes, limit)) }
}

/// Cuts `s` to at most `limit` bytes without splitting a character.
pub fn truncate_to_char_boundary(s: &str, limit: usize) -> (r: &str)
    ensures
        r.spec_bytes() == spec_truncate(s.spec_bytes(), limit as int),
{
    let n: usize = s.as_bytes().len();
    if n <= limit {
        return s;
    }
    let mut end: usize = limit;
    while end > 0 && !s.is_char_boundary(end)
        invariant
            end <= limit,
            boundary_at_or_below(s.spec_bytes(), end as int) == boundary_at_or_below(s.spec_bytes(), limit as int),
        decreases end,
    {
        end = end - 1;
    }
    proof {
        assert(boundary_at_or_below(s.spec_bytes(), end as int) == end);
        broadcast use vstd::utf8::encode_utf8_valid_utf8;
    }
    let (head, _tail) = s.split_at(end);
    head
}

/// The preview of a value: its pretty-printed JSON, cut to the preview
/// limit, highlighted as JSON.
pub open spec fn spec_preview_value(configs: Seq<crate::hl_config::ConfigModel>, v: JsonValue) -> Seq<Seq<crate::style::SpanView>> {
    let bytes = vstd::utf8::encode_utf8(pretty(v, Seq::empty()));
    crate::highlight::spec_highlighted_text(configs, "value.json"@,
        vstd::utf8::decode_utf8(spec_truncate(bytes, PREVIEW_TEXT_LIMIT as int)), false)
}

pub fn preview_value(reg: &crate::highlight::Registry, v: &JsonValue) -> (t: crate::sanitize::SanitizedText)
    ensures
        t.view() == spec_preview_value(reg.spec_models(), *v),
{
    let pretty_s = to_string_pretty(v);
    let cut = truncate_to_char_boundary(pretty_s.as_str(), PREVIEW_TEXT_LIMIT);
    proof {
        broadcast use vstd::utf8::encode_utf8_decode_utf8;
        assert(cut@ == vstd::utf8::decode_utf8(vstd::utf8::encode_utf8(cut@)));
    }
    crate::highlight::highlighted_text(reg, "value.json", cut, false)
}

impl JsonSource {
    /// The preview of the node at `id`: its whole pretty-printed value
    /// (an object or array included), highlighted; an error line when the
    /// id names no node.
    pub fn preview(&self, reg: &crate::highlight::Registry, id: &[String]) -> (p: crate::node_source::Preview)
        ensures
            !p.override_disable_line_numbers,
            ({
                let abs = self.spec_root() + id@.map_values(|s: String| s@);
                match spec_resolve(self.spec_value(), abs) {
                    Some(v) => p.text.view() == spec_preview_value(reg.spec_models(), v),
                    None => p.text.view() == crate::sanitize::spec_sanitize_lines(no_such_node_message(abs), crate::style::fg_style(Color::Red), true),
                }
            }),
    {
        let abs = self.absolute(id);
        match resolve(&self.root_value, abs.as_slice()) {
            Some(v) => crate::node_source::Preview::new(preview_value(reg, v)),
            None => {
                let e = no_such_node(abs.as_slice());
                crate::node_source::Preview::new(crate::fs_preview::error_text(e.message.as_str()))
            },
        }
    }

    /// The raw bytes `open` hands out for the node at `id`: its compact
    /// JSON, as text.
    pub fn serialize(&self, id: &[String]) -> (r: Result<String, SourceError>)
        ensures
            ({
                let abs = self.spec_root() + id@.map_values(|s: String| s@);
                match spec_resolve(self.spec_value(), abs) {
                    Some(v) => r matches Ok(t) && t@ == compact(v),
                    None => r matches Err(e) && e.kind == ErrorKind::NotFound && e.message@ == no_such_node_message(abs),
                }
            }),
    {
        let abs = self.absolute(id);
        match resolve(&self.root_value, abs.as_slice()) {
            Some(v) => Ok(to_string_compact(v)),
            None => Err(no_such_node(abs.as_slice())),
        }
    }
}

} // verus!
