//! Data contexts for rendering, and loading them from JSON or CSV bytes.
//!
//! A [`DataContext`] binds dot-separated paths to scalar strings (`fields`)
//! and names to ordered lists of strings (`arrays`). JSON objects are
//! flattened to dot paths; JSON arrays of scalars become array columns. CSV
//! takes its first data row as fields and every row as per-column arrays.

use vstd::prelude::*;
use vstd::string::StringExecFns;
use vstd::utf8::{valid_utf8, decode_utf8};
use serde_json::Value;
use crate::table::StrMap;
use crate::paths::{ext_in_text, named_file_path, path_ext, path_extension};
use crate::text::{strings_view, str_eq};

verus! {

// ── Data context ────────────────────────────────────────────────────────────

/// The abstract value of a [`DataContext`].
#[verifier::ext_equal]
pub struct DataView {
    /// Scalar bindings, by dot path.
    pub fields: Map<Seq<char>, Seq<char>>,
    /// Array columns, by name.
    pub arrays: Map<Seq<char>, Seq<Seq<char>>>,
}

/// The context with no binding.
pub open spec fn empty_data() -> DataView {
    DataView { fields: Map::empty(), arrays: Map::empty() }
}

/// Named data fields and ordered array columns, each kept in key order.
#[derive(Debug, Clone)]
pub struct DataContext {
    fields: StrMap<String>,
    arrays: StrMap<Vec<String>>,
}

impl View for DataContext {
    type V = DataView;

    closed spec fn view(&self) -> DataView {
        DataView { fields: self.fields@, arrays: self.arrays@ }
    }
}

impl Default for DataContext {
    fn default() -> (r: Self)
        ensures
            r@ == empty_data(),
    {
        DataContext::new()
    }
}

impl DataContext {
    /// The context with no binding.
    pub fn new() -> (r: Self)
        ensures
            r@ == empty_data(),
    {
        let r = DataContext { fields: StrMap::new(), arrays: StrMap::new() };
        assert(r@ =~= empty_data());
        r
    }

    /// The scalar value bound at `path`, if any.
    pub fn get(&self, path: &str) -> (r: Option<&str>)
        ensures
            match r {
                Some(v) => self@.fields.contains_key(path@) && v@ == self@.fields[path@],
                None => !self@.fields.contains_key(path@),
            },
    {
        match self.fields.get(path) {
            Some(v) => Some(v.as_str()),
            None => None,
        }
    }

    /// The array column named `key`, in source order, if any.
    pub fn get_array(&self, key: &str) -> (r: Option<&[String]>)
        ensures
            match r {
                Some(v) => self@.arrays.contains_key(key@) && strings_view(v@) == self@.arrays[key@],
                None => !self@.arrays.contains_key(key@),
            },
    {
        match self.arrays.get(key) {
            Some(v) => {
                assert(strings_view(v@) =~= v.deep_view());
                Some(v.as_slice())
            },
            None => None,
        }
    }

    /// Bind `path` to the scalar `value`, replacing any earlier value.
    pub fn insert_field(&mut self, path: String, value: String)
        ensures
            final(self)@ == (DataView {
                fields: old(self)@.fields.insert(path@, value@),
                arrays: old(self)@.arrays,
            }),
    {
        self.fields.insert(path, value);
    }

    /// Bind the array column `key` to `values`, replacing any earlier column.
    pub fn insert_array(&mut self, key: String, values: Vec<String>)
        ensures
            final(self)@ == (DataView {
                fields: old(self)@.fields,
                arrays: old(self)@.arrays.insert(key@, strings_view(values@)),
            }),
    {
        assert(strings_view(values@) =~= values.deep_view());
        self.arrays.insert(key, values);
    }

    /// The scalar paths, in increasing order.
    pub fn field_keys(&self) -> (r: Vec<String>)
        ensures
            crate::table::keys_sorted(strings_view(r@)),
            forall|k: Seq<char>| #[trigger] self@.fields.contains_key(k) <==> strings_view(r@).contains(k),
    {
        self.fields.keys()
    }

    /// The array column names, in increasing order.
    pub fn array_keys(&self) -> (r: Vec<String>)
        ensures
            crate::table::keys_sorted(strings_view(r@)),
            forall|k: Seq<char>| #[trigger] self@.arrays.contains_key(k) <==> strings_view(r@).contains(k),
    {
        self.arrays.keys()
    }
}

// ── Errors ──────────────────────────────────────────────────────────────────

/// Error produced while loading a data context.
#[derive(Debug)]
pub struct DataInputError {
    /// Human-readable description of the failure.
    pub message: String,
}

impl DataInputError {
    /// An error carrying `message`.
    pub fn new(message: String) -> (r: Self)
        ensures
            r.message@ == message@,
    {
        DataInputError { message }
    }
}

/// `a`, `b`, `c`, `d` and `e` in order, as a new string.
fn cat5(a: &str, b: &str, c: &str, d: &str, e: &str) -> (r: String)
    ensures
        r@ == a@ + b@ + c@ + d@ + e@,
{
    let mut s = String::new();
    s.append(a);
    s.append(b);
    s.append(c);
    s.append(d);
    s.append(e);
    s
}

/// `a`, `b`, `c` and `d` in order, as a new string.
fn cat4(a: &str, b: &str, c: &str, d: &str) -> (r: String)
    ensures
        r@ == a@ + b@ + c@ + d@,
{
    let mut s = String::new();
    s.append(a);
    s.append(b);
    s.append(c);
    s.append(d);
    s
}

/// `a` followed by `b` and `c`, as a new string.
fn cat3(a: &str, b: &str, c: &str) -> (r: String)
    ensures
        r@ == a@ + b@ + c@,
{
    let mut s = String::new();
    s.append(a);
    s.append(b);
    s.append(c);
    s
}

// ── JSON documents ──────────────────────────────────────────────────────────

/// What a JSON value is, with its text where it is a number or a string.
#[derive(Debug, Clone, PartialEq, Eq)]
pub enum JsonKind {
    Null,
    Bool(bool),
    /// A number, with its JSON text.
    Number(String),
    /// A string, with its contents.
    Str(String),
    Array,
    Object,
}

/// The abstract value of a [`JsonKind`].
pub enum JsonKindView {
    Null,
    Bool(bool),
    Number(Seq<char>),
    Str(Seq<char>),
    Array,
    Object,
}

impl View for JsonKind {
    type V = JsonKindView;

    open spec fn view(&self) -> JsonKindView {
        match self {
            JsonKind::Null => JsonKindView::Null,
            JsonKind::Bool(b) => JsonKindView::Bool(*b),
            JsonKind::Number(t) => JsonKindView::Number(t@),
            JsonKind::Str(t) => JsonKindView::Str(t@),
            JsonKind::Array => JsonKindView::Array,
            JsonKind::Object => JsonKindView::Object,
        }
    }
}

/// One value of a JSON document, in a flat list where each value names its
/// container by position.
#[derive(Debug, Clone, PartialEq, Eq)]
pub struct JsonNode {
    /// Position of the enclosing array or object; `None` for the document.
    pub parent: Option<usize>,
    /// The member name inside an object; empty otherwise.
    pub key: String,
    /// The value itself.
    pub kind: JsonKind,
}

/// The abstract value of a [`JsonNode`].
pub struct JsonNodeView {
    pub parent: Option<usize>,
    pub key: Seq<char>,
    pub kind: JsonKindView,
}

impl View for JsonNode {
    type V = JsonNodeView;

    open spec fn view(&self) -> JsonNodeView {
        JsonNodeView { parent: self.parent, key: self.key@, kind: self.kind@ }
    }
}

pub open spec fn json_node_views(nodes: Seq<JsonNode>) -> Seq<JsonNodeView> {
    nodes.map_values(|n: JsonNode| n@)
}

/// The values of the JSON document `text` in breadth-first order, each with
/// its container's position and its member name, or the parser's error
/// message.
pub uninterp spec fn json_shape(text: Seq<char>) -> Result<Seq<(Option<usize>, Seq<char>)>, Seq<char>>;

/// What each value of the JSON document `text` is, in the same
/// breadth-first order, or the parser's error message.
pub uninterp spec fn json_kinds(text: Seq<char>) -> Result<Seq<JsonKindView>, Seq<char>>;

/// The flat value list of the JSON document `text`: each position present in
/// both the shape and the kind list.
pub open spec fn json_document(text: Seq<char>) -> Result<Seq<JsonNodeView>, Seq<char>> {
    match json_shape(text) {
        Err(e) => Err(e),
        Ok(shape) => match json_kinds(text) {
            Err(e) => Err(e),
            Ok(kinds) => Ok(
                Seq::new(
                    if shape.len() <= kinds.len() { shape.len() } else { kinds.len() },
                    |i: int| JsonNodeView { parent: shape[i].0, key: shape[i].1, kind: kinds[i] },
                ),
            ),
        },
    }
}

pub open spec fn shape_view(r: Result<Vec<(Option<usize>, String)>, String>) -> Result<
    Seq<(Option<usize>, Seq<char>)>,
    Seq<char>,
> {
    match r {
        Ok(v) => Ok(v@.map_values(|n: (Option<usize>, String)| (n.0, n.1@))),
        Err(e) => Err(e@),
    }
}

pub open spec fn kinds_view(r: Result<Vec<JsonKind>, String>) -> Result<Seq<JsonKindView>, Seq<char>> {
    match r {
        Ok(v) => Ok(v@.map_values(|k: JsonKind| k@)),
        Err(e) => Err(e@),
    }
}

/// `serde_json::from_str::<Value>`, then each value breadth-first (array
/// items in order, object members in the map's order): the position of its
/// container and its member name. The result is named by `json_shape`; what
/// it is on given text is not stated.
#[verifier::external_body]
fn json_parse_shape(text: &str) -> (r: Result<Vec<(Option<usize>, String)>, String>)
    ensures
        shape_view(r) == json_shape(text@),
{
    let root = serde_json::from_str::<Value>(text).map_err(|e| e.to_string())?;
    let mut todo = vec![(None, "", &root)];
    let mut out = Vec::new();
    while let Some(&(parent, key, v)) = todo.get(out.len()) {
        let idx = Some(out.len());
        match v {
            Value::Array(a) => todo.extend(a.iter().map(|c| (idx, "", c))),
            Value::Object(m) => todo.extend(m.iter().map(|(k, c)| (idx, k.as_str(), c))),
            _ => {},
        }
        out.push((parent, key.to_owned()));
    }
    Ok(out)
}

/// `serde_json::from_str::<Value>`, then each value in the same
/// breadth-first order: its variant, with a number's `to_string` text or a
/// string's contents. The result is named by `json_kinds`; what it is on
/// given text is not stated.
#[verifier::external_body]
fn json_parse_kinds(text: &str) -> (r: Result<Vec<JsonKind>, String>)
    ensures
        kinds_view(r) == json_kinds(text@),
{
    let root = serde_json::from_str::<Value>(text).map_err(|e| e.to_string())?;
    let mut todo = vec![&root];
    let mut out = Vec::new();
    while let Some(&v) = todo.get(out.len()) {
        out.push(match v {
            Value::Null => JsonKind::Null,
            Value::Bool(b) => JsonKind::Bool(*b),
            Value::Number(n) => JsonKind::Number(n.to_string()),
            Value::String(s) => JsonKind::Str(s.clone()),
            Value::Array(a) => { todo.extend(a); JsonKind::Array },
            Value::Object(m) => { todo.extend(m.values()); JsonKind::Object },
        });
    }
    Ok(out)
}

fn clone_kind(k: &JsonKind) -> (r: JsonKind)
    ensures
        r@ == k@,
{
    match k {
        JsonKind::Null => JsonKind::Null,
        JsonKind::Bool(b) => JsonKind::Bool(*b),
        JsonKind::Number(t) => JsonKind::Number(t.clone()),
        JsonKind::Str(t) => JsonKind::Str(t.clone()),
        JsonKind::Array => JsonKind::Array,
        JsonKind::Object => JsonKind::Object,
    }
}

/// Parse `text` as JSON: its values breadth-first, each with its
/// container's position, its member name and what it is, or the parser's
/// error message.
pub fn json_parse_nodes(text: &str) -> (r: Result<Vec<JsonNode>, String>)
    ensures
        match r {
            Ok(v) => json_document(text@) == Ok::<Seq<JsonNodeView>, Seq<char>>(json_node_views(v@)),
            Err(e) => json_document(text@) == Err::<Seq<JsonNodeView>, Seq<char>>(e@),
        },
{
    let shape = match json_parse_shape(text) {
        Ok(s) => s,
        Err(e) => return Err(e),
    };
    let kinds = match json_parse_kinds(text) {
        Ok(k) => k,
        Err(e) => return Err(e),
    };
    let n = if shape.len() <= kinds.len() { shape.len() } else { kinds.len() };
    let mut out: Vec<JsonNode> = Vec::new();
    let mut i: usize = 0;
    while i < n
        invariant
            n <= shape@.len(),
            n <= kinds@.len(),
            i <= n,
            out@.len() == i,
            forall|j: int| 0 <= j < i ==> #[trigger] out@[j]@ == (JsonNodeView {
                parent: shape@[j].0,
                key: shape@[j].1@,
                kind: kinds@[j]@,
            }),
        decreases n - i,
    {
        let node = JsonNode { parent: shape[i].0, key: shape[i].1.clone(), kind: clone_kind(&kinds[i]) };
        out.push(node);
        i = i + 1;
    }
    proof {
        assert(json_node_views(out@) =~= json_document(text@)->Ok_0);
    }
    Ok(out)
}

// ── Flattening a JSON object ────────────────────────────────────────────────

/// `key` under `prefix`: `prefix.key`, or `key` alone when `prefix` is empty.
pub open spec fn join_key(prefix: Seq<char>, key: Seq<char>) -> Seq<char> {
    if prefix.len() == 0 {
        key
    } else {
        prefix + "."@ + key
    }
}

/// `bool`'s `to_string`.
pub open spec fn bool_text(b: bool) -> Seq<char> {
    if b {
        "true"@
    } else {
        "false"@
    }
}

/// The string a scalar stands for: `null` is empty, a boolean or a number
/// its text, a string its contents; `None` for an array or an object.
pub open spec fn scalar_text(k: JsonKindView) -> Option<Seq<char>> {
    match k {
        JsonKindView::Null => Some(Seq::empty()),
        JsonKindView::Bool(b) => Some(bool_text(b)),
        JsonKindView::Number(t) => Some(t),
        JsonKindView::Str(t) => Some(t),
        _ => None,
    }
}

/// Position `j` holds a direct item or member of the container at `p`.
pub open spec fn is_child(nodes: Seq<JsonNodeView>, p: int, j: int) -> bool {
    0 <= p < j < nodes.len() && nodes[j].parent == Some(p as usize)
}

/// The texts of the scalar items of the array at `a`, among positions
/// before `n`, in order; nested arrays and objects are left out.
pub open spec fn array_items(nodes: Seq<JsonNodeView>, a: int, n: int) -> Seq<Seq<char>>
    decreases n,
{
    if n <= 0 {
        Seq::empty()
    } else {
        let prev = array_items(nodes, a, n - 1);
        let j = n - 1;
        if is_child(nodes, a, j) && scalar_text(nodes[j].kind) is Some {
            prev.push(scalar_text(nodes[j].kind)->Some_0)
        } else {
            prev
        }
    }
}

/// The context `acc` after binding, in order, each member of the object at
/// `o` found at positions from `j` on, with dot paths under `prefix`: a
/// scalar binds its text, a non-empty list of scalar array items binds an
/// array column, and a nested object binds its own members the same way.
pub open spec fn walk(
    nodes: Seq<JsonNodeView>,
    o: int,
    prefix: Seq<char>,
    j: int,
    acc: DataView,
) -> DataView
    decreases nodes.len() - o, nodes.len() - j,
{
    if 0 <= o < j < nodes.len() {
        let next = if is_child(nodes, o, j) {
            let path = join_key(prefix, nodes[j].key);
            match nodes[j].kind {
                JsonKindView::Object => walk(nodes, j, path, j + 1, acc),
                JsonKindView::Array => {
                    let items = array_items(nodes, j, nodes.len() as int);
                    if items.len() > 0 {
                        DataView { fields: acc.fields, arrays: acc.arrays.insert(path, items) }
                    } else {
                        acc
                    }
                },
                k => DataView {
                    fields: acc.fields.insert(path, scalar_text(k)->Some_0),
                    arrays: acc.arrays,
                },
            }
        } else {
            acc
        };
        walk(nodes, o, prefix, j + 1, next)
    } else {
        acc
    }
}

/// The context built from the object at `r`.
pub open spec fn flatten(nodes: Seq<JsonNodeView>, r: int) -> DataView {
    walk(nodes, r, Seq::empty(), r + 1, empty_data())
}

// ── Array columns are keyed by their dot path ───────────────────────────────

/// The dot path of the value at `m` inside the object at `r`: the member
/// names from `r` down to `m` joined with `.`, when every container strictly
/// between them is an object; `None` when `m` is not reached that way.
pub open spec fn dot_path(nodes: Seq<JsonNodeView>, r: int, m: int) -> Option<Seq<char>>
    decreases m - r,
{
    if m == r {
        Some(Seq::empty())
    } else if 0 <= r < m < nodes.len() && nodes[m].parent is Some {
        let q = nodes[m].parent->Some_0 as int;
        if r <= q < m && (q == r || nodes[q].kind is Object) {
            match dot_path(nodes, r, q) {
                Some(pp) => Some(join_key(pp, nodes[m].key)),
                None => None,
            }
        } else {
            None
        }
    } else {
        None
    }
}

/// The direct member of the container at `o` on the way down to `m`
/// through objects, or `-1`.
spec fn member_towards(nodes: Seq<JsonNodeView>, o: int, m: int) -> int
    decreases m - o,
{
    if 0 <= o < m < nodes.len() && nodes[m].parent is Some {
        let q = nodes[m].parent->Some_0 as int;
        if q == o {
            m
        } else if o < q < m && nodes[q].kind is Object {
            member_towards(nodes, o, q)
        } else {
            -1
        }
    } else {
        -1
    }
}

/// Every array column of `d` comes from an array member of the object at
/// `r`: it is keyed by that member's dot path and holds the texts of its
/// scalar items, of which there is at least one.
pub open spec fn columns_from_members(nodes: Seq<JsonNodeView>, r: int, d: DataView) -> bool {
    forall|k: Seq<char>|
        #[trigger] d.arrays.contains_key(k) ==> exists|m: int|
            m != r && dot_path(nodes, r, m) == Some(k) && nodes[m].kind is Array && d.arrays[k]
                == array_items(nodes, m, nodes.len() as int) && array_items(
                nodes,
                m,
                nodes.len() as int,
            ).len() > 0
}

proof fn lemma_member_towards(nodes: Seq<JsonNodeView>, o: int, m: int)
    requires
        member_towards(nodes, o, m) >= 0,
    ensures
        ({
            let c = member_towards(nodes, o, m);
            &&& o < c <= m < nodes.len()
            &&& nodes[c].parent == Some(o as usize)
            &&& c != m ==> nodes[c].kind is Object && member_towards(nodes, c, m) > c
        }),
    decreases m - o,
{
    let q = nodes[m].parent->Some_0 as int;
    if q != o {
        lemma_member_towards(nodes, o, q);
        let c = member_towards(nodes, o, q);
        if c != q {
            assert(member_towards(nodes, c, m) == member_towards(nodes, c, q));
        }
    }
}

proof fn lemma_dot_path_member(nodes: Seq<JsonNodeView>, r: int, m: int)
    requires
        m != r,
        dot_path(nodes, r, m) is Some,
    ensures
        member_towards(nodes, r, m) > r,
    decreases m - r,
{
    let q = nodes[m].parent->Some_0 as int;
    if q != r {
        lemma_dot_path_member(nodes, r, q);
    }
}

proof fn lemma_walk_keeps(nodes: Seq<JsonNodeView>, o: int, prefix: Seq<char>, j: int, acc: DataView, k: Seq<char>)
    requires
        acc.arrays.contains_key(k),
    ensures
        walk(nodes, o, prefix, j, acc).arrays.contains_key(k),
    decreases nodes.len() - o, nodes.len() - j,
{
    if 0 <= o < j < nodes.len() {
        let next = if is_child(nodes, o, j) {
            let path = join_key(prefix, nodes[j].key);
            match nodes[j].kind {
                JsonKindView::Object => walk(nodes, j, path, j + 1, acc),
                JsonKindView::Array => {
                    let items = array_items(nodes, j, nodes.len() as int);
                    if items.len() > 0 {
                        DataView { fields: acc.fields, arrays: acc.arrays.insert(path, items) }
                    } else {
                        acc
                    }
                },
                kd => DataView {
                    fields: acc.fields.insert(path, scalar_text(kd)->Some_0),
                    arrays: acc.arrays,
                },
            }
        } else {
            acc
        };
        if is_child(nodes, o, j) && nodes[j].kind is Object {
            lemma_walk_keeps(nodes, j, join_key(prefix, nodes[j].key), j + 1, acc, k);
        }
        assert(next.arrays.contains_key(k));
        lemma_walk_keeps(nodes, o, prefix, j + 1, next, k);
    }
}

proof fn lemma_walk_sound(nodes: Seq<JsonNodeView>, r: int, o: int, prefix: Seq<char>, j: int, acc: DataView)
    requires
        0 <= r <= o,
        nodes.len() <= usize::MAX,
        dot_path(nodes, r, o) == Some(prefix),
        o == r || nodes[o].kind is Object,
        columns_from_members(nodes, r, acc),
    ensures
        columns_from_members(nodes, r, walk(nodes, o, prefix, j, acc)),
    decreases nodes.len() - o, nodes.len() - j,
{
    if 0 <= o < j < nodes.len() {
        let path = join_key(prefix, nodes[j].key);
        let next = if is_child(nodes, o, j) {
            match nodes[j].kind {
                JsonKindView::Object => walk(nodes, j, path, j + 1, acc),
                JsonKindView::Array => {
                    let items = array_items(nodes, j, nodes.len() as int);
                    if items.len() > 0 {
                        DataView { fields: acc.fields, arrays: acc.arrays.insert(path, items) }
                    } else {
                        acc
                    }
                },
                kd => DataView {
                    fields: acc.fields.insert(path, scalar_text(kd)->Some_0),
                    arrays: acc.arrays,
                },
            }
        } else {
            acc
        };
        if is_child(nodes, o, j) {
            assert(dot_path(nodes, r, j) == Some(path));
            if nodes[j].kind is Object {
                lemma_walk_sound(nodes, r, j, path, j + 1, acc);
            } else if nodes[j].kind is Array {
                let items = array_items(nodes, j, nodes.len() as int);
                if items.len() > 0 {
                    assert forall|k: Seq<char>| #[trigger] next.arrays.contains_key(k) implies exists|m: int|
                        m != r && dot_path(nodes, r, m) == Some(k) && nodes[m].kind is Array
                            && next.arrays[k] == array_items(nodes, m, nodes.len() as int) && array_items(
                            nodes,
                            m,
                            nodes.len() as int,
                        ).len() > 0 by {
                        if k == path {
                            assert(next.arrays[k] == items);
                        } else {
                            assert(acc.arrays.contains_key(k));
                            assert(next.arrays[k] == acc.arrays[k]);
                        }
                    }
                }
            }
        }
        assert(columns_from_members(nodes, r, next));
        lemma_walk_sound(nodes, r, o, prefix, j + 1, next);
    }
}

proof fn lemma_walk_complete(
    nodes: Seq<JsonNodeView>,
    r: int,
    o: int,
    prefix: Seq<char>,
    j: int,
    acc: DataView,
    m: int,
)
    requires
        0 <= r <= o < j,
        nodes.len() <= usize::MAX,
        dot_path(nodes, r, o) == Some(prefix),
        o == r || nodes[o].kind is Object,
        dot_path(nodes, r, m) is Some,
        nodes[m].kind is Array,
        array_items(nodes, m, nodes.len() as int).len() > 0,
        member_towards(nodes, o, m) >= j,
    ensures
        walk(nodes, o, prefix, j, acc).arrays.contains_key(dot_path(nodes, r, m)->Some_0),
    decreases nodes.len() - o, nodes.len() - j,
{
    lemma_member_towards(nodes, o, m);
    let c = member_towards(nodes, o, m);
    let path = join_key(prefix, nodes[j].key);
    let next = if is_child(nodes, o, j) {
        match nodes[j].kind {
            JsonKindView::Object => walk(nodes, j, path, j + 1, acc),
            JsonKindView::Array => {
                let items = array_items(nodes, j, nodes.len() as int);
                if items.len() > 0 {
                    DataView { fields: acc.fields, arrays: acc.arrays.insert(path, items) }
                } else {
                    acc
                }
            },
            kd => DataView {
                fields: acc.fields.insert(path, scalar_text(kd)->Some_0),
                arrays: acc.arrays,
            },
        }
    } else {
        acc
    };
    let p = dot_path(nodes, r, m)->Some_0;
    assert(walk(nodes, o, prefix, j, acc) == walk(nodes, o, prefix, j + 1, next));
    if j < c {
        lemma_walk_complete(nodes, r, o, prefix, j + 1, next, m);
    } else {
        assert(is_child(nodes, o, j));
        assert(dot_path(nodes, r, j) == Some(path));
        if c == m {
            assert(p == path);
            assert(next.arrays.contains_key(p));
        } else {
            lemma_walk_complete(nodes, r, j, path, j + 1, acc, m);
        }
        lemma_walk_keeps(nodes, o, prefix, j + 1, next, p);
    }
}

/// Every field of `d` comes from a scalar member of the object at `r`: it
/// is keyed by that member's dot path and holds the member's text.
pub open spec fn fields_from_members(nodes: Seq<JsonNodeView>, r: int, d: DataView) -> bool {
    forall|k: Seq<char>|
        #[trigger] d.fields.contains_key(k) ==> exists|m: int|
            m != r && dot_path(nodes, r, m) == Some(k) && scalar_text(nodes[m].kind) == Some(d.fields[k])
}

proof fn lemma_walk_keeps_fields(nodes: Seq<JsonNodeView>, o: int, prefix: Seq<char>, j: int, acc: DataView, k: Seq<char>)
    requires
        acc.fields.contains_key(k),
    ensures
        walk(nodes, o, prefix, j, acc).fields.contains_key(k),
    decreases nodes.len() - o, nodes.len() - j,
{
    if 0 <= o < j < nodes.len() {
        let path = join_key(prefix, nodes[j].key);
        let next = if is_child(nodes, o, j) {
            match nodes[j].kind {
                JsonKindView::Object => walk(nodes, j, path, j + 1, acc),
                JsonKindView::Array => {
                    let items = array_items(nodes, j, nodes.len() as int);
                    if items.len() > 0 {
                        DataView { fields: acc.fields, arrays: acc.arrays.insert(path, items) }
                    } else {
                        acc
                    }
                },
                kd => DataView {
                    fields: acc.fields.insert(path, scalar_text(kd)->Some_0),
                    arrays: acc.arrays,
                },
            }
        } else {
            acc
        };
        if is_child(nodes, o, j) && nodes[j].kind is Object {
            lemma_walk_keeps_fields(nodes, j, path, j + 1, acc, k);
        }
        assert(next.fields.contains_key(k));
        lemma_walk_keeps_fields(nodes, o, prefix, j + 1, next, k);
    }
}

proof fn lemma_walk_fields_sound(nodes: Seq<JsonNodeView>, r: int, o: int, prefix: Seq<char>, j: int, acc: DataView)
    requires
        0 <= r <= o,
        nodes.len() <= usize::MAX,
        dot_path(nodes, r, o) == Some(prefix),
        o == r || nodes[o].kind is Object,
        fields_from_members(nodes, r, acc),
    ensures
        fields_from_members(nodes, r, walk(nodes, o, prefix, j, acc)),
    decreases nodes.len() - o, nodes.len() - j,
{
    if 0 <= o < j < nodes.len() {
        let path = join_key(prefix, nodes[j].key);
        let next = if is_child(nodes, o, j) {
            match nodes[j].kind {
                JsonKindView::Object => walk(nodes, j, path, j + 1, acc),
                JsonKindView::Array => {
                    let items = array_items(nodes, j, nodes.len() as int);
                    if items.len() > 0 {
                        DataView { fields: acc.fields, arrays: acc.arrays.insert(path, items) }
                    } else {
                        acc
                    }
                },
                kd => DataView {
                    fields: acc.fields.insert(path, scalar_text(kd)->Some_0),
                    arrays: acc.arrays,
                },
            }
        } else {
            acc
        };
        if is_child(nodes, o, j) {
            assert(dot_path(nodes, r, j) == Some(path));
            if nodes[j].kind is Object {
                lemma_walk_fields_sound(nodes, r, j, path, j + 1, acc);
            } else if !(nodes[j].kind is Array) {
                assert forall|k: Seq<char>| #[trigger] next.fields.contains_key(k) implies exists|m: int|
                    m != r && dot_path(nodes, r, m) == Some(k) && scalar_text(nodes[m].kind) == Some(
                        next.fields[k],
                    ) by {
                    if k == path {
                        assert(scalar_text(nodes[j].kind) == Some(next.fields[k]));
                    } else {
                        assert(acc.fields.contains_key(k));
                        assert(next.fields[k] == acc.fields[k]);
                    }
                }
            }
        }
        assert(fields_from_members(nodes, r, next));
        lemma_walk_fields_sound(nodes, r, o, prefix, j + 1, next);
    }
}

proof fn lemma_walk_fields_complete(
    nodes: Seq<JsonNodeView>,
    r: int,
    o: int,
    prefix: Seq<char>,
    j: int,
    acc: DataView,
    m: int,
)
    requires
        0 <= r <= o < j,
        nodes.len() <= usize::MAX,
        dot_path(nodes, r, o) == Some(prefix),
        o == r || nodes[o].kind is Object,
        dot_path(nodes, r, m) is Some,
        scalar_text(nodes[m].kind) is Some,
        member_towards(nodes, o, m) >= j,
    ensures
        walk(nodes, o, prefix, j, acc).fields.contains_key(dot_path(nodes, r, m)->Some_0),
    decreases nodes.len() - o, nodes.len() - j,
{
    lemma_member_towards(nodes, o, m);
    let c = member_towards(nodes, o, m);
    let path = join_key(prefix, nodes[j].key);
    let next = if is_child(nodes, o, j) {
        match nodes[j].kind {
            JsonKindView::Object => walk(nodes, j, path, j + 1, acc),
            JsonKindView::Array => {
                let items = array_items(nodes, j, nodes.len() as int);
                if items.len() > 0 {
                    DataView { fields: acc.fields, arrays: acc.arrays.insert(path, items) }
                } else {
                    acc
                }
            },
            kd => DataView {
                fields: acc.fields.insert(path, scalar_text(kd)->Some_0),
                arrays: acc.arrays,
            },
        }
    } else {
        acc
    };
    let p = dot_path(nodes, r, m)->Some_0;
    assert(walk(nodes, o, prefix, j, acc) == walk(nodes, o, prefix, j + 1, next));
    if j < c {
        lemma_walk_fields_complete(nodes, r, o, prefix, j + 1, next, m);
    } else {
        assert(is_child(nodes, o, j));
        assert(dot_path(nodes, r, j) == Some(path));
        if c == m {
            assert(p == path);
            assert(next.fields.contains_key(p));
        } else {
            lemma_walk_fields_complete(nodes, r, j, path, j + 1, acc, m);
        }
        lemma_walk_keeps_fields(nodes, o, prefix, j + 1, next, p);
    }
}

/// Scalar fields are keyed by dot path: flattening the object at `r` binds
/// a field under the dot path (`prefix.key`) of every scalar member reached
/// through objects, and every field it binds is keyed by the dot path of
/// such a member and holds that member's text (`null` as empty, a boolean
/// or number as written, a string's contents).
pub proof fn law_fields_keyed_by_dot_path(nodes: Seq<JsonNodeView>, r: int)
    requires
        0 <= r < nodes.len() <= usize::MAX,
    ensures
        forall|m: int|
            m != r && #[trigger] dot_path(nodes, r, m) is Some && scalar_text(nodes[m].kind) is Some
                ==> flatten(nodes, r).fields.contains_key(dot_path(nodes, r, m)->Some_0),
        fields_from_members(nodes, r, flatten(nodes, r)),
{
    assert(dot_path(nodes, r, r) == Some(Seq::<char>::empty()));
    assert forall|m: int|
        m != r && #[trigger] dot_path(nodes, r, m) is Some && scalar_text(nodes[m].kind) is Some
            implies flatten(nodes, r).fields.contains_key(dot_path(nodes, r, m)->Some_0) by {
        lemma_dot_path_member(nodes, r, m);
        lemma_walk_fields_complete(nodes, r, r, Seq::empty(), r + 1, empty_data(), m);
    }
    lemma_walk_fields_sound(nodes, r, r, Seq::empty(), r + 1, empty_data());
}

/// Array columns are keyed by dot path, like scalar fields: flattening the
/// object at `r` binds, for every array member reached through objects
/// whose scalar items are not all missing, an array column under that
/// member's dot path (`prefix.key`); and every array column it binds is
/// keyed by the dot path of such a member and holds exactly the texts of
/// that member's scalar items, in order.
pub proof fn law_array_columns_keyed_by_dot_path(nodes: Seq<JsonNodeView>, r: int)
    requires
        0 <= r < nodes.len() <= usize::MAX,
    ensures
        forall|m: int|
            m != r && #[trigger] dot_path(nodes, r, m) is Some && nodes[m].kind is Array && array_items(
                nodes,
                m,
                nodes.len() as int,
            ).len() > 0 ==> flatten(nodes, r).arrays.contains_key(dot_path(nodes, r, m)->Some_0),
        columns_from_members(nodes, r, flatten(nodes, r)),
{
    assert(dot_path(nodes, r, r) == Some(Seq::<char>::empty()));
    assert forall|m: int|
        m != r && #[trigger] dot_path(nodes, r, m) is Some && nodes[m].kind is Array && array_items(
            nodes,
            m,
            nodes.len() as int,
        ).len() > 0 implies flatten(nodes, r).arrays.contains_key(dot_path(nodes, r, m)->Some_0) by {
        lemma_dot_path_member(nodes, r, m);
        lemma_walk_complete(nodes, r, r, Seq::empty(), r + 1, empty_data(), m);
    }
    lemma_walk_sound(nodes, r, r, Seq::empty(), r + 1, empty_data());
}

/// The first direct item of the container at `p`, at or after `j`; `-1`
/// when there is none.
pub open spec fn first_child(nodes: Seq<JsonNodeView>, p: int, j: int) -> int
    decreases nodes.len() - j,
{
    if j < 0 || j >= nodes.len() {
        -1
    } else if is_child(nodes, p, j) {
        j
    } else {
        first_child(nodes, p, j + 1)
    }
}

/// A short description of a value's type for messages.
pub open spec fn kind_name(k: JsonKindView) -> Seq<char> {
    match k {
        JsonKindView::Null => "null"@,
        JsonKindView::Bool(_) => "a boolean"@,
        JsonKindView::Number(_) => "a number"@,
        JsonKindView::Str(_) => "a string"@,
        JsonKindView::Array => "an array"@,
        JsonKindView::Object => "an object"@,
    }
}

pub open spec fn empty_array_message(path: Seq<char>) -> Seq<char> {
    "--data: '"@ + path + "' is an empty JSON array; expected a non-empty array or object"@
}

pub open spec fn first_not_object_message(path: Seq<char>, kind: Seq<char>) -> Seq<char> {
    "--data: first element of '"@ + path + "' is "@ + kind + " not an object"@
}

pub open spec fn not_container_message(path: Seq<char>, kind: Seq<char>) -> Seq<char> {
    "--data: '"@ + path + "' contains "@ + kind + " not a JSON object or array"@
}

/// The kind of the document value (`null` for an empty list).
pub open spec fn root_kind(nodes: Seq<JsonNodeView>) -> JsonKindView {
    if nodes.len() > 0 {
        nodes[0].kind
    } else {
        JsonKindView::Null
    }
}

/// The context a JSON document gives: a top-level object is flattened; a
/// top-level array's first item must be an object, which is flattened; any
/// other document is an error. `path` names the file in messages.
pub open spec fn json_context(path: Seq<char>, nodes: Seq<JsonNodeView>) -> Result<DataView, Seq<char>> {
    match root_kind(nodes) {
        JsonKindView::Object => Ok(flatten(nodes, 0)),
        JsonKindView::Array => {
            let f = first_child(nodes, 0, 1);
            if f < 0 {
                Err(empty_array_message(path))
            } else if nodes[f].kind is Object {
                Ok(flatten(nodes, f))
            } else {
                Err(first_not_object_message(path, kind_name(nodes[f].kind)))
            }
        },
        k => Err(not_container_message(path, kind_name(k))),
    }
}

pub open spec fn data_result_view(r: Result<DataContext, DataInputError>) -> Result<DataView, Seq<char>> {
    match r {
        Ok(c) => Ok(c@),
        Err(e) => Err(e.message@),
    }
}

/// `key` under `prefix`.
fn join_key_exec(prefix: &str, key: &str) -> (r: String)
    ensures
        r@ == join_key(prefix@, key@),
{
    if prefix.is_empty() {
        key.to_owned()
    } else {
        cat3(prefix, ".", key)
    }
}

/// A short description of a value's type for messages.
fn json_kind_name(k: &JsonKind) -> (r: &'static str)
    ensures
        r@ == kind_name(k@),
{
    match k {
        JsonKind::Null => "null",
        JsonKind::Bool(_) => "a boolean",
        JsonKind::Number(_) => "a number",
        JsonKind::Str(_) => "a string",
        JsonKind::Array => "an array",
        JsonKind::Object => "an object",
    }
}

fn parent_is(node: &JsonNode, p: usize) -> (r: bool)
    ensures
        r == (node.parent == Some(p)),
{
    match node.parent {
        Some(q) => q == p,
        None => false,
    }
}

/// The texts of the scalar items of the array at `a`, in order.
fn array_items_exec(nodes: &Vec<JsonNode>, a: usize) -> (r: Vec<String>)
    ensures
        strings_view(r@) == array_items(json_node_views(nodes@), a as int, nodes@.len() as int),
{
    let ghost nv = json_node_views(nodes@);
    let mut r: Vec<String> = Vec::new();
    let mut j: usize = 0;
    while j < nodes.len()
        invariant
            j <= nodes@.len(),
            nv == json_node_views(nodes@),
            strings_view(r@) == array_items(nv, a as int, j as int),
        decreases nodes@.len() - j,
    {
        if a < j && parent_is(&nodes[j], a) {
            let t: Option<String> = match &nodes[j].kind {
                JsonKind::Null => Some(String::new()),
                JsonKind::Bool(b) => Some(if *b { "true".to_owned() } else { "false".to_owned() }),
                JsonKind::Number(t) => Some(t.clone()),
                JsonKind::Str(t) => Some(t.clone()),
                _ => None,
            };
            if let Some(t) = t {
                r.push(t);
                assert(strings_view(r@) =~= array_items(nv, a as int, j as int).push(t@));
            }
        }
        j = j + 1;
    }
    r
}

/// Bind, in order, each member of the object at `o` under `prefix`: a
/// scalar binds its text, a non-empty list of scalar array items binds an
/// array column, and a nested object binds its members in turn.
fn flatten_object(nodes: &Vec<JsonNode>, o: usize, prefix: &str, ctx: &mut DataContext)
    requires
        o < nodes@.len(),
    ensures
        final(ctx)@ == walk(json_node_views(nodes@), o as int, prefix@, o + 1, old(ctx)@),
    decreases nodes@.len() - o,
{
    let ghost nv = json_node_views(nodes@);
    let n = nodes.len();
    let mut j: usize = o + 1;
    while j < n
        invariant
            o < j <= nodes@.len(),
            n == nodes@.len(),
            nv == json_node_views(nodes@),
            walk(nv, o as int, prefix@, j as int, ctx@) == walk(
                nv,
                o as int,
                prefix@,
                o + 1,
                old(ctx)@,
            ),
        decreases nodes@.len() - j,
    {
        let ghost before = ctx@;
        if parent_is(&nodes[j], o) {
            let path = join_key_exec(prefix, nodes[j].key.as_str());
            match &nodes[j].kind {
                JsonKind::Object => {
                    flatten_object(nodes, j, path.as_str(), ctx);
                },
                JsonKind::Array => {
                    let items = array_items_exec(nodes, j);
                    if items.len() > 0 {
                        ctx.insert_array(path, items);
                    }
                },
                JsonKind::Null => {
                    ctx.insert_field(path, String::new());
                },
                JsonKind::Bool(b) => {
                    let t = if *b { "true".to_owned() } else { "false".to_owned() };
                    ctx.insert_field(path, t);
                },
                JsonKind::Number(t) => {
                    ctx.insert_field(path, t.clone());
                },
                JsonKind::Str(t) => {
                    ctx.insert_field(path, t.clone());
                },
            }
        }
        proof {
            assert(walk(nv, o as int, prefix@, j as int, before) == walk(
                nv,
                o as int,
                prefix@,
                j + 1,
                ctx@,
            ));
        }
        j = j + 1;
    }
}

/// The first direct item of the container at `p`, after `p`.
fn first_child_exec(nodes: &Vec<JsonNode>, p: usize) -> (r: Option<usize>)
    ensures
        match r {
            Some(f) => f < nodes@.len() && f as int == first_child(
                json_node_views(nodes@),
                p as int,
                p + 1,
            ),
            None => first_child(json_node_views(nodes@), p as int, p + 1) == -1,
        },
{
    let ghost nv = json_node_views(nodes@);
    let n = nodes.len();
    if p >= n {
        return None;
    }
    let mut j: usize = p + 1;
    while j < n
        invariant
            p < j,
            n == nodes@.len(),
            nv == json_node_views(nodes@),
            first_child(nv, p as int, p + 1) == first_child(nv, p as int, j as int),
        decreases nodes@.len() - j,
    {
        if parent_is(&nodes[j], p) {
            return Some(j);
        }
        j = j + 1;
    }
    None
}

/// Build the context a JSON document's value list gives: a top-level
/// object is flattened; a top-level array's first item must be an object,
/// which is flattened; anything else is an error naming `path`.
pub fn context_from_json_nodes(path: &str, nodes: &Vec<JsonNode>) -> (r: Result<
    DataContext,
    DataInputError,
>)
    ensures
        data_result_view(r) == json_context(path@, json_node_views(nodes@)),
{
    if nodes.len() == 0 {
        return Err(DataInputError::new(cat5("--data: '", path, "' contains ", "null", " not a JSON object or array")));
    }
    match &nodes[0].kind {
        JsonKind::Object => {
            let mut ctx = DataContext::new();
            let top = String::new();
            flatten_object(nodes, 0, top.as_str(), &mut ctx);
            Ok(ctx)
        },
        JsonKind::Array => {
            match first_child_exec(nodes, 0) {
                None => Err(
                    DataInputError::new(
                        cat3(
                            "--data: '",
                            path,
                            "' is an empty JSON array; expected a non-empty array or object",
                        ),
                    ),
                ),
                Some(f) => {
                    if let JsonKind::Object = &nodes[f].kind {
                        let mut ctx = DataContext::new();
                        let top = String::new();
                        flatten_object(nodes, f, top.as_str(), &mut ctx);
                        Ok(ctx)
                    } else {
                        Err(
                            DataInputError::new(
                                cat5(
                                    "--data: first element of '",
                                    path,
                                    "' is ",
                                    json_kind_name(&nodes[f].kind),
                                    " not an object",
                                ),
                            ),
                        )
                    }
                },
            }
        },
        k => Err(
            DataInputError::new(
                cat5("--data: '", path, "' contains ", json_kind_name(k), " not a JSON object or array"),
            ),
        ),
    }
}

// ── Loading JSON bytes ──────────────────────────────────────────────────────

/// The message `std::str::Utf8Error` gives for `bytes`.
pub uninterp spec fn utf8_error_text(bytes: Seq<u8>) -> Seq<char>;

/// `std::str::from_utf8`: the text `bytes` encode when they are valid UTF-8,
/// else the error's message (named by `utf8_error_text`).
#[verifier::external_body]
pub(crate) fn utf8_decode(bytes: &[u8]) -> (r: Result<String, String>)
    ensures
        match r {
            Ok(s) => valid_utf8(bytes@) && s@ == decode_utf8(bytes@),
            Err(e) => !valid_utf8(bytes@) && e@ == utf8_error_text(bytes@),
        },
{
    match std::str::from_utf8(bytes) {
        Ok(s) => Ok(s.to_owned()),
        Err(e) => Err(e.to_string()),
    }
}

pub open spec fn not_utf8_message(path: Seq<char>, e: Seq<char>) -> Seq<char> {
    "--data: '"@ + path + "' is not valid UTF-8: "@ + e
}

pub open spec fn not_json_message(path: Seq<char>, e: Seq<char>) -> Seq<char> {
    "--data: '"@ + path + "' is not valid JSON: "@ + e
}

/// What loading `bytes` as JSON gives; `path` names the file in messages.
pub open spec fn json_load(path: Seq<char>, bytes: Seq<u8>) -> Result<DataView, Seq<char>> {
    if !valid_utf8(bytes) {
        Err(not_utf8_message(path, utf8_error_text(bytes)))
    } else {
        match json_document(decode_utf8(bytes)) {
            Err(e) => Err(not_json_message(path, e)),
            Ok(nodes) => json_context(path, nodes),
        }
    }
}

/// Load a context from the bytes of a JSON file named `path`.
pub fn load_from_json(path: &str, bytes: &[u8]) -> (r: Result<DataContext, DataInputError>)
    ensures
        data_result_view(r) == json_load(path@, bytes@),
{
    let text = match utf8_decode(bytes) {
        Ok(t) => t,
        Err(e) => {
            return Err(
                DataInputError::new(cat4("--data: '", path, "' is not valid UTF-8: ", e.as_str())),
            );
        },
    };
    match json_parse_nodes(text.as_str()) {
        Ok(nodes) => context_from_json_nodes(path, &nodes),
        Err(e) => Err(
            DataInputError::new(cat4("--data: '", path, "' is not valid JSON: ", e.as_str())),
        ),
    }
}

// ── Loading CSV bytes ───────────────────────────────────────────────────────

/// How reading a CSV text failed, with the reader's message.
#[derive(Debug, Clone, PartialEq, Eq)]
pub enum CsvFailure {
    /// The header row could not be read.
    Header(String),
    /// A data row could not be read.
    Record(String),
}

/// The abstract value of a [`CsvFailure`].
pub enum CsvFailureView {
    Header(Seq<char>),
    Record(Seq<char>),
}

impl View for CsvFailure {
    type V = CsvFailureView;

    open spec fn view(&self) -> CsvFailureView {
        match self {
            CsvFailure::Header(m) => CsvFailureView::Header(m@),
            CsvFailure::Record(m) => CsvFailureView::Record(m@),
        }
    }
}

/// The header fields and the data rows of the CSV text `text`, read with
/// rows of any length allowed, or how reading failed.
pub uninterp spec fn csv_table(text: Seq<char>) -> Result<(Seq<Seq<char>>, Seq<Seq<Seq<char>>>), CsvFailureView>;

pub open spec fn rows_view(rows: Seq<Vec<String>>) -> Seq<Seq<Seq<char>>> {
    rows.map_values(|r: Vec<String>| strings_view(r@))
}

pub open spec fn csv_result_view(r: Result<(Vec<String>, Vec<Vec<String>>), CsvFailure>) -> Result<
    (Seq<Seq<char>>, Seq<Seq<Seq<char>>>),
    CsvFailureView,
> {
    match r {
        Ok(t) => Ok((strings_view(t.0@), rows_view(t.1@))),
        Err(f) => Err(f@),
    }
}

/// `csv::ReaderBuilder::new().flexible(true).from_reader(..)`: the header
/// record and every data record, each as its fields, or the first error
/// (in the header or in a record) with its message. The result is named by
/// `csv_table`; what it is on given text is not stated.
#[verifier::external_body]
fn csv_read(text: &str) -> (r: Result<(Vec<String>, Vec<Vec<String>>), CsvFailure>)
    ensures
        csv_result_view(r) == csv_table(text@),
{
    let mut reader = csv::ReaderBuilder::new().flexible(true).from_reader(text.as_bytes());
    let header = reader.headers().map_err(|e| CsvFailure::Header(e.to_string()))?;
    let headers = header.iter().map(str::to_owned).collect();
    let mut rows = Vec::new();
    for record in reader.records() {
        let record = record.map_err(|e| CsvFailure::Record(e.to_string()))?;
        rows.push(record.iter().map(str::to_owned).collect());
    }
    Ok((headers, rows))
}

/// The first `n` headers bound to the fields of `first` at the same
/// positions, later headers overriding earlier ones.
pub open spec fn csv_fields(headers: Seq<Seq<char>>, first: Seq<Seq<char>>, n: int) -> Map<
    Seq<char>,
    Seq<char>,
>
    decreases n,
{
    if n <= 0 {
        Map::empty()
    } else {
        csv_fields(headers, first, n - 1).insert(headers[n - 1], first[n - 1])
    }
}

/// Column `c` of every row, an empty string where a row is too short.
pub open spec fn csv_column(rows: Seq<Seq<Seq<char>>>, c: int) -> Seq<Seq<char>> {
    Seq::new(rows.len(), |i: int| if c < rows[i].len() { rows[i][c] } else { Seq::empty() })
}

/// The first `n` headers bound to their columns, later headers overriding
/// earlier ones.
pub open spec fn csv_arrays(headers: Seq<Seq<char>>, rows: Seq<Seq<Seq<char>>>, n: int) -> Map<
    Seq<char>,
    Seq<Seq<char>>,
>
    decreases n,
{
    if n <= 0 {
        Map::empty()
    } else {
        csv_arrays(headers, rows, n - 1).insert(headers[n - 1], csv_column(rows, n - 1))
    }
}

pub open spec fn no_rows_message(path: Seq<char>) -> Seq<char> {
    "--data: '"@ + path + "' has a header but no data rows"@
}

/// The context a CSV table gives: each header bound to its field in the
/// first row (as far as both go), and each header bound to its whole
/// column; a table without data rows is an error.
pub open spec fn csv_context(path: Seq<char>, headers: Seq<Seq<char>>, rows: Seq<Seq<Seq<char>>>) -> Result<
    DataView,
    Seq<char>,
> {
    if rows.len() == 0 {
        Err(no_rows_message(path))
    } else {
        let n = if headers.len() <= rows[0].len() { headers.len() } else { rows[0].len() };
        Ok(
            DataView {
                fields: csv_fields(headers, rows[0], n as int),
                arrays: csv_arrays(headers, rows, headers.len() as int),
            },
        )
    }
}

/// Build the context a CSV table gives: the first data row's fields under
/// their headers, and every header's whole column; no data row is an error
/// naming `path`.
pub fn context_from_csv_table(path: &str, headers: &Vec<String>, rows: &Vec<Vec<String>>) -> (r: Result<
    DataContext,
    DataInputError,
>)
    ensures
        data_result_view(r) == csv_context(path@, strings_view(headers@), rows_view(rows@)),
{
    let ghost hv = strings_view(headers@);
    let ghost rv = rows_view(rows@);
    if rows.len() == 0 {
        return Err(DataInputError::new(cat3("--data: '", path, "' has a header but no data rows")));
    }
    let first = &rows[0];
    let n = if headers.len() <= first.len() { headers.len() } else { first.len() };
    let mut ctx = DataContext::new();
    let mut i: usize = 0;
    while i < n
        invariant
            n <= headers@.len(),
            n <= first@.len(),
            i <= n,
            rows@.len() > 0,
            first == &rows@[0],
            hv == strings_view(headers@),
            rv == rows_view(rows@),
            ctx@ == (DataView { fields: csv_fields(hv, rv[0], i as int), arrays: Map::empty() }),
        decreases n - i,
    {
        ctx.insert_field(headers[i].clone(), first[i].clone());
        i = i + 1;
    }
    let mut c: usize = 0;
    while c < headers.len()
        invariant
            c <= headers@.len(),
            hv == strings_view(headers@),
            rv == rows_view(rows@),
            ctx@ == (DataView {
                fields: csv_fields(hv, rv[0], n as int),
                arrays: csv_arrays(hv, rv, c as int),
            }),
        decreases headers@.len() - c,
    {
        let mut column: Vec<String> = Vec::new();
        let mut k: usize = 0;
        while k < rows.len()
            invariant
                k <= rows@.len(),
                c < headers@.len(),
                rv == rows_view(rows@),
                strings_view(column@) == csv_column(rv, c as int).take(k as int),
            decreases rows@.len() - k,
        {
            let cell = if c < rows[k].len() {
                rows[k][c].clone()
            } else {
                String::new()
            };
            assert(rv[k as int] == strings_view(rows@[k as int]@));
            assert(cell@ == csv_column(rv, c as int)[k as int]);
            let ghost before = column@;
            column.push(cell);
            assert(strings_view(column@) =~= strings_view(before).push(cell@));
            assert(csv_column(rv, c as int).take(k + 1) =~= csv_column(rv, c as int).take(
                k as int,
            ).push(csv_column(rv, c as int)[k as int]));
            k = k + 1;
        }
        assert(csv_column(rv, c as int).take(k as int) =~= csv_column(rv, c as int));
        ctx.insert_array(headers[c].clone(), column);
        c = c + 1;
    }
    Ok(ctx)
}

pub open spec fn csv_header_message(path: Seq<char>, e: Seq<char>) -> Seq<char> {
    "--data: CSV header error in '"@ + path + "': "@ + e
}

pub open spec fn csv_record_message(path: Seq<char>, e: Seq<char>) -> Seq<char> {
    "--data: CSV parse error in '"@ + path + "': "@ + e
}

/// What loading `bytes` as CSV gives; `path` names the file in messages.
pub open spec fn csv_load(path: Seq<char>, bytes: Seq<u8>) -> Result<DataView, Seq<char>> {
    if !valid_utf8(bytes) {
        Err(not_utf8_message(path, utf8_error_text(bytes)))
    } else {
        match csv_table(decode_utf8(bytes)) {
            Err(CsvFailureView::Header(e)) => Err(csv_header_message(path, e)),
            Err(CsvFailureView::Record(e)) => Err(csv_record_message(path, e)),
            Ok(t) => csv_context(path, t.0, t.1),
        }
    }
}

/// Load a context from the bytes of a CSV file named `path`.
pub fn load_from_csv(path: &str, bytes: &[u8]) -> (r: Result<DataContext, DataInputError>)
    ensures
        data_result_view(r) == csv_load(path@, bytes@),
{
    let text = match utf8_decode(bytes) {
        Ok(t) => t,
        Err(e) => {
            return Err(
                DataInputError::new(cat4("--data: '", path, "' is not valid UTF-8: ", e.as_str())),
            );
        },
    };
    match csv_read(text.as_str()) {
        Ok(table) => context_from_csv_table(path, &table.0, &table.1),
        Err(CsvFailure::Header(e)) => Err(
            DataInputError::new(cat4("--data: CSV header error in '", path, "': ", e.as_str())),
        ),
        Err(CsvFailure::Record(e)) => Err(
            DataInputError::new(cat4("--data: CSV parse error in '", path, "': ", e.as_str())),
        ),
    }
}

// ── Choosing the format ─────────────────────────────────────────────────────

/// The formats a data file can have.
#[derive(Debug, Clone, Copy, PartialEq, Eq)]
pub enum DataFileKind {
    Json,
    Csv,
}

/// `str::to_ascii_lowercase`: `A`–`Z` become `a`–`z`; every other
/// character is kept.
pub open spec fn ascii_lower(s: Seq<char>) -> Seq<char> {
    s.map_values(|c: char| ascii_lower_char(c))
}

/// `char::to_ascii_lowercase`: `A`–`Z` (code points 65–90) move up by 32.
pub open spec fn ascii_lower_char(c: char) -> char {
    if 65 <= (c as u32) <= 90 {
        ((c as u32) + 32) as char
    } else {
        c
    }
}

pub open spec fn extension_message(ext: Seq<char>) -> Seq<char> {
    "--data: unsupported file extension '."@ + ext + "'; expected .json or .csv"@
}

/// The format an extension names, case aside: `json` or `csv`; any other
/// extension is an error.
pub open spec fn file_kind(ext: Seq<char>) -> Result<DataFileKind, Seq<char>> {
    let e = ascii_lower(ext);
    if e == "json"@ {
        Ok(DataFileKind::Json)
    } else if e == "csv"@ {
        Ok(DataFileKind::Csv)
    } else {
        Err(extension_message(e))
    }
}

fn ascii_lowercase(s: &str) -> (r: String)
    ensures
        r@ == ascii_lower(s@),
{
    let mut r = String::new();
    for c in it: s.chars()
        invariant
            r@ == ascii_lower(it.seq().take(it.index() as int)),
    {
        let ghost before = r@;
        let n: u32 = c as u32;
        let d = if 65 <= n && n <= 90 {
            assert((n as u8) as u32 == n) by (bit_vector)
                requires
                    n <= 90,
            ;
            ((n as u8) + 32) as char
        } else {
            c
        };
        r.push(d);
        assert(d == ascii_lower_char(c));
        assert(ascii_lower(it.seq().take(it.index() + 1)) =~= ascii_lower(
            it.seq().take(it.index() as int),
        ).push(ascii_lower_char(it.seq()[it.index() as int])));
    }
    r
}

/// The format the extension `ext` names, case aside.
pub fn data_file_kind(ext: &str) -> (r: Result<DataFileKind, DataInputError>)
    ensures
        match r {
            Ok(k) => file_kind(ext@) == Ok::<DataFileKind, Seq<char>>(k),
            Err(e) => file_kind(ext@) == Err::<DataFileKind, Seq<char>>(e.message@),
        },
{
    let lower = ascii_lowercase(ext);
    if str_eq(lower.as_str(), "json") {
        Ok(DataFileKind::Json)
    } else if str_eq(lower.as_str(), "csv") {
        Ok(DataFileKind::Csv)
    } else {
        Err(
            DataInputError::new(
                cat3("--data: unsupported file extension '.", lower.as_str(), "'; expected .json or .csv"),
            ),
        )
    }
}

/// The extension of the file `path` names, empty when it has none.
pub open spec fn ext_text(path: Seq<char>) -> Seq<char> {
    match path_ext(path) {
        Some(e) => e,
        None => Seq::empty(),
    }
}

/// The format of the file at `path`, from its extension (none reads as an
/// empty extension). Of a path that names a file alike on every platform
/// the extension is [`ext_text`]; of any other, an extension without a `.`
/// that ends a component of the path after a `.`, or none, decides.
pub fn data_kind_for_path(path: &str) -> (r: Result<DataFileKind, DataInputError>)
    ensures
        named_file_path(path@) ==> file_kind(ext_text(path@)) == match r {
            Ok(k) => Ok::<DataFileKind, Seq<char>>(k),
            Err(e) => Err::<DataFileKind, Seq<char>>(e.message@),
        },
        exists|ext: Seq<char>|
            !ext.contains('.') && (ext.len() == 0 || ext_in_text(path@, ext)) && #[trigger] file_kind(ext)
                == match r {
                Ok(k) => Ok::<DataFileKind, Seq<char>>(k),
                Err(e) => Err::<DataFileKind, Seq<char>>(e.message@),
            },
{
    let ext = match path_extension(path) {
        Some(e) => e,
        None => String::new(),
    };
    data_file_kind(ext.as_str())
}

pub open spec fn cannot_read_message(path: Seq<char>, reason: Seq<char>) -> Seq<char> {
    "--data: cannot read '"@ + path + "': "@ + reason
}

impl DataInputError {
    /// The error for a data file at `path` that could not be read, with the
    /// reason given by the system.
    pub fn cannot_read(path: &str, reason: &str) -> (r: Self)
        ensures
            r.message@ == cannot_read_message(path@, reason@),
    {
        DataInputError::new(cat4("--data: cannot read '", path, "': ", reason))
    }
}

/// What loading `bytes` in the format `kind` gives.
pub open spec fn load_as(kind: DataFileKind, path: Seq<char>, bytes: Seq<u8>) -> Result<DataView, Seq<char>> {
    match kind {
        DataFileKind::Json => json_load(path, bytes),
        DataFileKind::Csv => csv_load(path, bytes),
    }
}

/// What loading the file `path` with extension `ext` and contents `bytes`
/// gives: the extension's error, or the file read in the format it names.
pub open spec fn data_load(ext: Seq<char>, path: Seq<char>, bytes: Seq<u8>) -> Result<DataView, Seq<char>> {
    match file_kind(ext) {
        Err(m) => Err(m),
        Ok(k) => load_as(k, path, bytes),
    }
}

/// Load a context from the contents `bytes` of a file named `path`, in the
/// format `kind`.
pub fn load_data(kind: DataFileKind, path: &str, bytes: &[u8]) -> (r: Result<DataContext, DataInputError>)
    ensures
        data_result_view(r) == load_as(kind, path@, bytes@),
{
    match kind {
        DataFileKind::Json => load_from_json(path, bytes),
        DataFileKind::Csv => load_from_csv(path, bytes),
    }
}

/// Load a context from the contents `bytes` of the file `path`, in the
/// format its extension names.
pub fn load_data_with_extension(ext: &str, path: &str, bytes: &[u8]) -> (r: Result<
    DataContext,
    DataInputError,
>)
    ensures
        data_result_view(r) == data_load(ext@, path@, bytes@),
{
    match data_file_kind(ext) {
        Ok(kind) => load_data(kind, path, bytes),
        Err(e) => Err(e),
    }
}

/// Load a context from the contents `bytes` of the file `path`: `.json`
/// and `.csv` (in any case) are read as such; any other extension is an
/// error. Of a path that names a file alike on every platform the
/// extension is [`ext_text`]; of any other, an extension without a `.`
/// that ends a component of the path after a `.`, or none.
pub fn load_data_context(path: &str, bytes: &[u8]) -> (r: Result<DataContext, DataInputError>)
    ensures
        named_file_path(path@) ==> data_result_view(r) == data_load(ext_text(path@), path@, bytes@),
        exists|ext: Seq<char>|
            !ext.contains('.') && (ext.len() == 0 || ext_in_text(path@, ext)) && #[trigger] data_load(
                ext,
                path@,
                bytes@,
            ) == data_result_view(r),
{
    let ext = match path_extension(path) {
        Some(e) => e,
        None => String::new(),
    };
    let r = load_data_with_extension(ext.as_str(), path, bytes);
    assert(data_load(ext@, path@, bytes@) == data_result_view(r));
    r
}

proof fn lemma_csv_arrays_len(headers: Seq<Seq<char>>, rows: Seq<Seq<Seq<char>>>, n: int, k: Seq<char>)
    requires
        csv_arrays(headers, rows, n).contains_key(k),
    ensures
        csv_arrays(headers, rows, n)[k].len() == rows.len(),
    decreases n,
{
    if n > 0 && headers[n - 1] != k {
        lemma_csv_arrays_len(headers, rows, n - 1, k);
    }
}

/// Every array column a CSV table gives has one entry per data row (short
/// rows are padded), so columns stay aligned with each other.
pub proof fn law_csv_columns_align(path: Seq<char>, headers: Seq<Seq<char>>, rows: Seq<Seq<Seq<char>>>)
    ensures
        csv_context(path, headers, rows) matches Ok(v) ==> forall|k: Seq<char>|
            #[trigger] v.arrays.contains_key(k) ==> v.arrays[k].len() == rows.len(),
{
    if rows.len() > 0 {
        let v = csv_context(path, headers, rows)->Ok_0;
        assert forall|k: Seq<char>| #[trigger] v.arrays.contains_key(k) implies v.arrays[k].len()
            == rows.len() by {
            lemma_csv_arrays_len(headers, rows, headers.len() as int, k);
        }
    }
}

} // verus!
