//! Library packs: parsing a pack's identity and items, the embedded preset
//! packs, and the resolved, sorted pack list.
//!
//! A pack is a `.zen` document whose identity is the `library` self-entry of
//! its own `libraries` block; its items are its components, its actions and
//! its filter and mask tokens, each with its kind.

use vstd::prelude::*;
use crate::kdl::kdl_parse_nodes;
use crate::kdl::kdl_document;
use crate::kdl::node_views;
use crate::kdl::KdlEntryData;
use crate::kdl::KdlEntryView;
use crate::kdl::KdlNodeData;
use crate::kdl::KdlNodeView;
use crate::text::chars_lt;
use crate::text::chars_of;
use crate::text::lemma_lex_asymmetric;
use crate::text::lemma_lex_irreflexive;
use crate::text::lemma_lex_total;
use crate::text::lemma_lex_transitive;
use crate::text::lex_lt;
use crate::text::str_eq;
use crate::text::string_from_chars;
use crate::text::strings_view;
use crate::text::extend_chars;
use crate::paths::{ext_in_text, named_file_path, path_ext, path_extension};

verus! {

/// Where a [`LibraryPack`] was loaded from.
#[derive(Debug, Clone, PartialEq, Eq)]
pub enum PackSource {
    /// A preset pack embedded in the binary.
    Preset,
    /// A project pack read from the given `.zen` file path.
    Project(String),
}

/// The abstract value of a [`PackSource`].
pub enum SourceView {
    Preset,
    Project(Seq<char>),
}

impl View for PackSource {
    type V = SourceView;

    open spec fn view(&self) -> SourceView {
        match self {
            PackSource::Preset => SourceView::Preset,
            PackSource::Project(p) => SourceView::Project(p@),
        }
    }
}

/// The label of a source: `"preset"` or `"project"`.
pub open spec fn source_label(s: SourceView) -> Seq<char> {
    match s {
        SourceView::Preset => "preset"@,
        SourceView::Project(_) => "project"@,
    }
}

/// Sort rank giving project packs precedence over embedded presets.
pub open spec fn rank(s: SourceView) -> u8 {
    match s {
        SourceView::Project(_) => 0,
        SourceView::Preset => 1,
    }
}

impl PackSource {
    /// A short, stable label for output: `"preset"` or `"project"`.
    pub fn label(&self) -> (r: &'static str)
        ensures
            r@ == source_label(self@),
    {
        match self {
            PackSource::Preset => "preset",
            PackSource::Project(_) => "project",
        }
    }
}

/// Sort rank giving project packs precedence over embedded presets.
fn source_rank(source: &PackSource) -> (r: u8)
    ensures
        r == rank(source@),
{
    match source {
        PackSource::Project(_) => 0,
        PackSource::Preset => 1,
    }
}

/// What kind of thing a pack item is.
#[derive(Debug, Clone, Copy, PartialEq, Eq, Structural)]
pub enum ItemKind {
    /// A `components > component` entry.
    Component,
    /// An `actions > action` entry.
    Action,
    /// A filter or mask token (`tokens > token` with `type` `filter` or
    /// `mask`); other tokens are dependencies, not items.
    Token,
}

/// One item a pack provides.
#[derive(Debug, Clone, PartialEq, Eq)]
pub struct PackItem {
    /// The item id.
    pub id: String,
    /// What the item is.
    pub kind: ItemKind,
}

/// The abstract value of a [`PackItem`].
pub open spec fn item_view(it: PackItem) -> (Seq<char>, ItemKind) {
    (it.id@, it.kind)
}

pub open spec fn items_view(items: Seq<PackItem>) -> Seq<(Seq<char>, ItemKind)> {
    items.map_values(|it: PackItem| item_view(it))
}

/// The ids of a list of items.
pub open spec fn item_ids(items: Seq<(Seq<char>, ItemKind)>) -> Seq<Seq<char>> {
    items.map_values(|it: (Seq<char>, ItemKind)| it.0)
}

/// A loaded library pack: its identity plus the items it provides.
#[derive(Debug, Clone, PartialEq, Eq)]
pub struct LibraryPack {
    /// The package id, from the pack's `library` self-entry.
    pub id: String,
    /// The pack version, from the pack's `library` self-entry.
    pub version: Option<String>,
    /// Where the pack came from.
    pub source: PackSource,
    /// The items the pack provides (components, actions, filter and mask
    /// tokens), in source order.
    pub items: Vec<PackItem>,
}

/// The abstract value of a [`LibraryPack`].
pub struct PackView {
    pub id: Seq<char>,
    pub version: Option<Seq<char>>,
    pub source: SourceView,
    pub items: Seq<(Seq<char>, ItemKind)>,
}

pub open spec fn opt_view(o: Option<String>) -> Option<Seq<char>> {
    match o {
        Some(s) => Some(s@),
        None => None,
    }
}

impl View for LibraryPack {
    type V = PackView;

    open spec fn view(&self) -> PackView {
        PackView {
            id: self.id@,
            version: opt_view(self.version),
            source: self.source@,
            items: items_view(self.items@),
        }
    }
}

pub open spec fn pack_views(packs: Seq<LibraryPack>) -> Seq<PackView> {
    packs.map_values(|p: LibraryPack| p@)
}

/// An error produced while parsing a pack.
#[derive(Debug, Clone, PartialEq, Eq)]
pub struct PackError {
    /// Human-readable message describing the failure.
    pub message: String,
}

impl PackError {
    fn new(message: &str) -> (r: Self)
        ensures
            r.message@ == message@,
    {
        let cs = chars_of(message);
        PackError { message: string_from_chars(cs.as_slice()) }
    }
}

// ── Pack identity and items (spec) ──────────────────────────────────────────

/// The text of the last entry named `key`, if that entry holds a string.
pub open spec fn prop(entries: Seq<KdlEntryView>, key: Seq<char>) -> Option<Seq<char>>
    decreases entries.len(),
{
    if entries.len() == 0 {
        None
    } else if entries.last().name == Some(key) {
        entries.last().text
    } else {
        prop(entries.drop_last(), key)
    }
}

/// The first index at or after `i` of a node named `name` whose parent is
/// `parent`, or `-1`.
pub open spec fn find_node(nodes: Seq<KdlNodeView>, i: int, parent: Option<usize>, name: Seq<char>) -> int
    decreases nodes.len() - i,
{
    if i < 0 || i >= nodes.len() {
        -1
    } else if nodes[i].parent == parent && nodes[i].name == name {
        i
    } else {
        find_node(nodes, i + 1, parent, name)
    }
}

/// Whether node `i` is named `name` and sits inside a node named
/// `block_name` that is a child of node `root`.
pub open spec fn is_entry_in_block(
    nodes: Seq<KdlNodeView>,
    i: int,
    root: int,
    block_name: Seq<char>,
    name: Seq<char>,
) -> bool {
    &&& 0 <= i < nodes.len()
    &&& nodes[i].name == name
    &&& nodes[i].parent matches Some(p) && p < nodes.len() && nodes[p as int].name == block_name
        && nodes[p as int].parent == Some(root as usize)
}

/// The `(id, version)` of each `libraries > library` entry with a string
/// `id`, from node `i` on, in source order.
pub open spec fn library_entries_from(nodes: Seq<KdlNodeView>, root: int, i: int) -> Seq<
    (Seq<char>, Option<Seq<char>>),
>
    decreases nodes.len() - i,
{
    if i < 0 || i >= nodes.len() {
        Seq::empty()
    } else {
        let here = if is_entry_in_block(nodes, i, root, "libraries"@, "library"@) && prop(
            nodes[i].entries,
            "id"@,
        ) is Some {
            seq![(prop(nodes[i].entries, "id"@).unwrap(), prop(nodes[i].entries, "version"@))]
        } else {
            Seq::empty()
        };
        here + library_entries_from(nodes, root, i + 1)
    }
}

/// The kind of item node `i` is, if it is one: a `components > component`,
/// an `actions > action`, or a `tokens > token` whose `type` is `filter` or
/// `mask`, each block being a child of `root`.
pub open spec fn item_kind_at(nodes: Seq<KdlNodeView>, i: int, root: int) -> Option<ItemKind> {
    if is_entry_in_block(nodes, i, root, "components"@, "component"@) {
        Some(ItemKind::Component)
    } else if is_entry_in_block(nodes, i, root, "actions"@, "action"@) {
        Some(ItemKind::Action)
    } else if is_entry_in_block(nodes, i, root, "tokens"@, "token"@) && (prop(
        nodes[i].entries,
        "type"@,
    ) == Some("filter"@) || prop(nodes[i].entries, "type"@) == Some("mask"@)) {
        Some(ItemKind::Token)
    } else {
        None
    }
}

/// The items with a string `id` from node `i` on, in source order.
pub open spec fn pack_items_from(nodes: Seq<KdlNodeView>, root: int, i: int) -> Seq<
    (Seq<char>, ItemKind),
>
    decreases nodes.len() - i,
{
    if i < 0 || i >= nodes.len() {
        Seq::empty()
    } else {
        let here = if item_kind_at(nodes, i, root) is Some && prop(nodes[i].entries, "id"@) is Some {
            seq![(prop(nodes[i].entries, "id"@).unwrap(), item_kind_at(nodes, i, root).unwrap())]
        } else {
            Seq::empty()
        };
        here + pack_items_from(nodes, root, i + 1)
    }
}

/// The index of the first library entry whose id is `id`, or `-1`.
pub open spec fn entry_with_id(libs: Seq<(Seq<char>, Option<Seq<char>>)>, id: Seq<char>, i: int) -> int
    decreases libs.len() - i,
{
    if i < 0 || i >= libs.len() {
        -1
    } else if libs[i].0 == id {
        i
    } else {
        entry_with_id(libs, id, i + 1)
    }
}

/// The project id: the string `id` of the first `project` node under the
/// root.
pub open spec fn project_id(nodes: Seq<KdlNodeView>, root: int) -> Option<Seq<char>> {
    let p = find_node(nodes, 0, Some(root as usize), "project"@);
    if p < 0 {
        None
    } else {
        prop(nodes[p].entries, "id"@)
    }
}

/// The self-entry: the library entry whose id is the project id; failing
/// that, the sole library entry; otherwise none (`-1`).
pub open spec fn self_entry(nodes: Seq<KdlNodeView>, root: int) -> int {
    let libs = library_entries_from(nodes, root, 0);
    let by_project = match project_id(nodes, root) {
        Some(pid) => entry_with_id(libs, pid, 0),
        None => -1,
    };
    if by_project >= 0 {
        by_project
    } else if libs.len() == 1 {
        0
    } else {
        -1
    }
}

pub open spec fn no_root_message() -> Seq<char> {
    "parse error: document has no `zenith` root node"@
}

pub open spec fn no_self_entry_message() -> Seq<char> {
    "pack has no identifying library self-entry (declare `libraries { library id=\"…\" version=\"…\" }`)"@
}

/// The pack a parsed document describes: `(id, version, items)` or the
/// error message.
pub open spec fn pack_of_nodes(nodes: Seq<KdlNodeView>) -> Result<
    (Seq<char>, Option<Seq<char>>, Seq<(Seq<char>, ItemKind)>),
    Seq<char>,
> {
    let root = find_node(nodes, 0, None, "zenith"@);
    if root < 0 {
        Err(no_root_message())
    } else {
        let e = self_entry(nodes, root);
        if e < 0 {
            Err(no_self_entry_message())
        } else {
            let libs = library_entries_from(nodes, root, 0);
            Ok((libs[e].0, libs[e].1, pack_items_from(nodes, root, 0)))
        }
    }
}

/// The pack a `.zen` source describes, or the error message.
pub open spec fn pack_of_source(source: Seq<char>) -> Result<
    (Seq<char>, Option<Seq<char>>, Seq<(Seq<char>, ItemKind)>),
    Seq<char>,
> {
    match kdl_document(source) {
        Ok(nodes) => pack_of_nodes(nodes),
        Err(msg) => Err("parse error: "@ + msg),
    }
}

/// Whether `r` is the pack (tagged `source`) or the error that `expected`
/// describes.
pub open spec fn pack_result_matches(
    r: Result<LibraryPack, PackError>,
    expected: Result<(Seq<char>, Option<Seq<char>>, Seq<(Seq<char>, ItemKind)>), Seq<char>>,
    source: SourceView,
) -> bool {
    match r {
        Ok(p) => expected == Ok::<_, Seq<char>>((p.id@, opt_view(p.version), items_view(p.items@)))
            && p.source@ == source,
        Err(e) => expected == Err::<(Seq<char>, Option<Seq<char>>, Seq<(Seq<char>, ItemKind)>), _>(e.message@),
    }
}

// ── Pack identity and items (exec) ──────────────────────────────────────────

fn lookup_prop(entries: &Vec<KdlEntryData>, key: &str) -> (r: Option<String>)
    ensures
        opt_view(r) == prop(entries@.map_values(|e: KdlEntryData| e@), key@),
{
    let ghost views = entries@.map_values(|e: KdlEntryData| e@);
    let mut i = entries.len();
    assert(views.take(i as int) == views);
    while i > 0
        invariant
            i <= entries.len(),
            views == entries@.map_values(|e: KdlEntryData| e@),
            prop(views, key@) == prop(views.take(i as int), key@),
        decreases i,
    {
        assert(views.take(i as int).drop_last() == views.take(i - 1));
        match &entries[i - 1].name {
            Some(n) => {
                if str_eq(n.as_str(), key) {
                    return match &entries[i - 1].text {
                        Some(t) => Some(t.clone()),
                        None => None,
                    };
                }
            },
            None => {},
        }
        i = i - 1;
    }
    None
}

pub(crate) fn find_node_exec(nodes: &Vec<KdlNodeData>, parent: Option<usize>, name: &str) -> (r: Option<usize>)
    ensures
        match r {
            Some(k) => find_node(node_views(nodes@), 0, parent, name@) == k as int,
            None => find_node(node_views(nodes@), 0, parent, name@) == -1,
        },
{
    let ghost views = node_views(nodes@);
    let mut i: usize = 0;
    while i < nodes.len()
        invariant
            i <= nodes.len(),
            views == node_views(nodes@),
            find_node(views, i as int, parent, name@) == find_node(views, 0, parent, name@),
        decreases nodes.len() - i,
    {
        if nodes[i].parent == parent && str_eq(nodes[i].name.as_str(), name) {
            return Some(i);
        }
        i = i + 1;
    }
    None
}

fn in_block(nodes: &Vec<KdlNodeData>, i: usize, root: usize, block_name: &str, name: &str) -> (r: bool)
    requires
        i < nodes@.len(),
    ensures
        r == is_entry_in_block(node_views(nodes@), i as int, root as int, block_name@, name@),
{
    if !str_eq(nodes[i].name.as_str(), name) {
        return false;
    }
    match nodes[i].parent {
        Some(p) => p < nodes.len() && str_eq(nodes[p].name.as_str(), block_name)
            && nodes[p].parent == Some(root),
        None => false,
    }
}

fn library_entries(nodes: &Vec<KdlNodeData>, root: usize) -> (r: Vec<(String, Option<String>)>)
    ensures
        r@.map_values(|e: (String, Option<String>)| (e.0@, opt_view(e.1)))
            == library_entries_from(node_views(nodes@), root as int, 0),
{
    let ghost views = node_views(nodes@);
    let mut out: Vec<(String, Option<String>)> = Vec::new();
    let mut i: usize = 0;
    assert(out@.map_values(|e: (String, Option<String>)| (e.0@, opt_view(e.1))) =~= Seq::<
        (Seq<char>, Option<Seq<char>>),
    >::empty());
    while i < nodes.len()
        invariant
            i <= nodes.len(),
            views == node_views(nodes@),
            out@.map_values(|e: (String, Option<String>)| (e.0@, opt_view(e.1))) + library_entries_from(
                views,
                root as int,
                i as int,
            ) == library_entries_from(views, root as int, 0),
        decreases nodes.len() - i,
    {
        let ghost before = out@;
        if in_block(nodes, i, root, "libraries", "library") {
            match lookup_prop(&nodes[i].entries, "id") {
                Some(id) => {
                    let version = lookup_prop(&nodes[i].entries, "version");
                    out.push((id, version));
                    assert(out@.map_values(|e: (String, Option<String>)| (e.0@, opt_view(e.1)))
                        =~= before.map_values(|e: (String, Option<String>)| (e.0@, opt_view(e.1)))
                        + seq![(id@, opt_view(version))]);
                },
                None => {},
            }
        }
        i = i + 1;
    }
    out
}

/// The kind of item node `i` is, if it is one.
fn item_kind_exec(nodes: &Vec<KdlNodeData>, i: usize, root: usize) -> (r: Option<ItemKind>)
    requires
        i < nodes@.len(),
    ensures
        r == item_kind_at(node_views(nodes@), i as int, root as int),
{
    if in_block(nodes, i, root, "components", "component") {
        Some(ItemKind::Component)
    } else if in_block(nodes, i, root, "actions", "action") {
        Some(ItemKind::Action)
    } else if in_block(nodes, i, root, "tokens", "token") {
        match lookup_prop(&nodes[i].entries, "type") {
            Some(t) => {
                if str_eq(t.as_str(), "filter") || str_eq(t.as_str(), "mask") {
                    Some(ItemKind::Token)
                } else {
                    None
                }
            },
            None => None,
        }
    } else {
        None
    }
}

/// The pack's items with a string `id`, in source order.
fn pack_items(nodes: &Vec<KdlNodeData>, root: usize) -> (r: Vec<PackItem>)
    ensures
        items_view(r@) == pack_items_from(node_views(nodes@), root as int, 0),
{
    let ghost views = node_views(nodes@);
    let mut out: Vec<PackItem> = Vec::new();
    let mut i: usize = 0;
    assert(items_view(out@) =~= Seq::<(Seq<char>, ItemKind)>::empty());
    while i < nodes.len()
        invariant
            i <= nodes.len(),
            views == node_views(nodes@),
            items_view(out@) + pack_items_from(views, root as int, i as int) == pack_items_from(
                views,
                root as int,
                0,
            ),
        decreases nodes.len() - i,
    {
        let ghost before = out@;
        if let Some(kind) = item_kind_exec(nodes, i, root) {
            match lookup_prop(&nodes[i].entries, "id") {
                Some(id) => {
                    let ghost idv = id@;
                    out.push(PackItem { id, kind });
                    assert(items_view(out@) =~= items_view(before) + seq![(idv, kind)]);
                },
                None => {},
            }
        }
        i = i + 1;
    }
    out
}

fn first_entry_with_id(libs: &Vec<(String, Option<String>)>, id: &str) -> (r: Option<usize>)
    ensures
        match r {
            Some(k) => entry_with_id(
                libs@.map_values(|e: (String, Option<String>)| (e.0@, opt_view(e.1))),
                id@,
                0,
            ) == k as int,
            None => entry_with_id(
                libs@.map_values(|e: (String, Option<String>)| (e.0@, opt_view(e.1))),
                id@,
                0,
            ) == -1,
        },
{
    let ghost lv = libs@.map_values(|e: (String, Option<String>)| (e.0@, opt_view(e.1)));
    let mut k: usize = 0;
    while k < libs.len()
        invariant
            k <= libs.len(),
            lv == libs@.map_values(|e: (String, Option<String>)| (e.0@, opt_view(e.1))),
            entry_with_id(lv, id@, k as int) == entry_with_id(lv, id@, 0),
        decreases libs.len() - k,
    {
        if str_eq(libs[k].0.as_str(), id) {
            return Some(k);
        }
        k = k + 1;
    }
    None
}

proof fn lemma_entry_with_id(libs: Seq<(Seq<char>, Option<Seq<char>>)>, id: Seq<char>, i: int)
    requires
        0 <= i,
    ensures
        entry_with_id(libs, id, i) == -1 || (i <= entry_with_id(libs, id, i) < libs.len()),
    decreases libs.len() - i,
{
    if i < libs.len() && libs[i].0 != id {
        lemma_entry_with_id(libs, id, i + 1);
    }
}

pub proof fn lemma_find_node(nodes: Seq<KdlNodeView>, i: int, parent: Option<usize>, name: Seq<char>)
    requires
        0 <= i,
    ensures
        find_node(nodes, i, parent, name) == -1 || (i <= find_node(nodes, i, parent, name)
            < nodes.len()),
    decreases nodes.len() - i,
{
    if i < nodes.len() && !(nodes[i].parent == parent && nodes[i].name == name) {
        lemma_find_node(nodes, i + 1, parent, name);
    }
}

proof fn lemma_entry_with_id_first(libs: Seq<(Seq<char>, Option<Seq<char>>)>, id: Seq<char>, i: int, k: int)
    requires
        0 <= i <= k < libs.len(),
        libs[k].0 == id,
        forall|j: int| i <= j < k ==> libs[j].0 != id,
    ensures
        entry_with_id(libs, id, i) == k,
    decreases k - i,
{
    if i < k {
        lemma_entry_with_id_first(libs, id, i + 1, k);
    }
}

proof fn lemma_entry_with_id_none(libs: Seq<(Seq<char>, Option<Seq<char>>)>, id: Seq<char>, i: int)
    requires
        0 <= i,
        forall|j: int| i <= j < libs.len() ==> libs[j].0 != id,
    ensures
        entry_with_id(libs, id, i) == -1,
    decreases libs.len() - i,
{
    if i < libs.len() {
        lemma_entry_with_id_none(libs, id, i + 1);
    }
}

/// A pack is identified by its own `libraries > library` entry: when the
/// `project` id names one of the entries, the pack takes the project id and
/// the version of the first entry with that id, wherever it stands among
/// the entries (the others are dependencies). When no entry names the
/// project, a single entry identifies the pack, and with several entries
/// there is no identity and parsing fails. Items are read the same way in
/// every case.
pub proof fn law_pack_identity_is_the_project_entry(nodes: Seq<KdlNodeView>)
    ensures
        ({
            let root = find_node(nodes, 0, None, "zenith"@);
            let libs = library_entries_from(nodes, root, 0);
            root >= 0 ==> match project_id(nodes, root) {
                Some(pid) => forall|k: int|
                    0 <= k < libs.len() && #[trigger] libs[k].0 == pid && (forall|j: int|
                        0 <= j < k ==> libs[j].0 != pid) ==> pack_of_nodes(nodes) == Ok::<
                        _,
                        Seq<char>,
                    >((pid, libs[k].1, pack_items_from(nodes, root, 0))),
                None => true,
            }
        }),
        ({
            let root = find_node(nodes, 0, None, "zenith"@);
            let libs = library_entries_from(nodes, root, 0);
            root >= 0 && (forall|j: int|
                0 <= j < libs.len() ==> Some(#[trigger] libs[j].0) != project_id(nodes, root)) ==> (
            if libs.len() == 1 {
                pack_of_nodes(nodes) == Ok::<_, Seq<char>>(
                    (libs[0].0, libs[0].1, pack_items_from(nodes, root, 0)),
                )
            } else {
                pack_of_nodes(nodes) == Err::<(Seq<char>, Option<Seq<char>>, Seq<(Seq<char>, ItemKind)>), _>(
                    no_self_entry_message(),
                )
            })
        }),
{
    let root = find_node(nodes, 0, None, "zenith"@);
    let libs = library_entries_from(nodes, root, 0);
    if root >= 0 {
        match project_id(nodes, root) {
            Some(pid) => {
                assert forall|k: int|
                    0 <= k < libs.len() && #[trigger] libs[k].0 == pid && (forall|j: int|
                        0 <= j < k ==> libs[j].0 != pid) implies pack_of_nodes(nodes) == Ok::<
                    _,
                    Seq<char>,
                >((pid, libs[k].1, pack_items_from(nodes, root, 0))) by {
                    lemma_entry_with_id_first(libs, pid, 0, k);
                }
                if forall|j: int| 0 <= j < libs.len() ==> Some(#[trigger] libs[j].0) != project_id(
                    nodes,
                    root,
                ) {
                    assert forall|j: int| 0 <= j < libs.len() implies libs[j].0 != pid by {
                        assert(Some(libs[j].0) != project_id(nodes, root));
                    }
                    lemma_entry_with_id_none(libs, pid, 0);
                }
            },
            None => {},
        }
    }
}

/// The pack described by a parsed `.zen` document, tagged with
/// `source_kind`.
///
/// The root is the first top-level `zenith` node. The self-entry is the
/// `libraries > library` entry whose `id` is the `project` id; failing that,
/// the sole library entry. Items are the components, actions, and filter
/// and mask tokens, with their kinds, in source order.
pub fn pack_from_nodes(nodes: &Vec<KdlNodeData>, source_kind: PackSource) -> (r: Result<
    LibraryPack,
    PackError,
>)
    ensures
        pack_result_matches(r, pack_of_nodes(node_views(nodes@)), source_kind@),
{
    let ghost views = node_views(nodes@);
    let root = match find_node_exec(nodes, None, "zenith") {
        Some(r) => r,
        None => {
            return Err(PackError::new("parse error: document has no `zenith` root node"));
        },
    };
    let libs = library_entries(nodes, root);
    let ghost lv = libs@.map_values(|e: (String, Option<String>)| (e.0@, opt_view(e.1)));
    proof {
        lemma_find_node(views, 0, Some(root), "project"@);
    }
    let pid = match find_node_exec(nodes, Some(root), "project") {
        Some(p) => lookup_prop(&nodes[p].entries, "id"),
        None => None,
    };
    assert(opt_view(pid) == project_id(views, root as int));
    proof {
        if let Some(pp) = project_id(views, root as int) {
            lemma_entry_with_id(lv, pp, 0);
        }
    }
    let chosen: Option<usize> = match &pid {
        Some(pid_s) => first_entry_with_id(&libs, pid_s.as_str()),
        None => None,
    };
    let e = match chosen {
        Some(k) => k,
        None => {
            if libs.len() == 1 {
                0
            } else {
                return Err(
                    PackError::new(
                        "pack has no identifying library self-entry (declare `libraries { library id=\"…\" version=\"…\" }`)",
                    ),
                );
            }
        },
    };
    let items = pack_items(nodes, root);
    let id = libs[e].0.clone();
    let version = match &libs[e].1 {
        Some(v) => Some(v.clone()),
        None => None,
    };
    Ok(LibraryPack { id, version, source: source_kind, items })
}

/// Parse a `.zen` pack `source` into a [`LibraryPack`] tagged with
/// `source_kind`; a KDL syntax error becomes `"parse error: …"`.
pub fn parse_pack(source: &str, source_kind: PackSource) -> (r: Result<LibraryPack, PackError>)
    ensures
        pack_result_matches(r, pack_of_source(source@), source_kind@),
{
    match kdl_parse_nodes(source) {
        Ok(nodes) => pack_from_nodes(&nodes, source_kind),
        Err(msg) => {
            let mut m = chars_of("parse error: ");
            let tail = chars_of(msg.as_str());
            let mut t = tail;
            m.append(&mut t);
            Err(PackError { message: string_from_chars(m.as_slice()) })
        },
    }
}

// ── Resolution order ────────────────────────────────────────────────────────

/// `a` sorts strictly before `b`: by id, then project packs before presets.
pub open spec fn key_lt(a: PackView, b: PackView) -> bool {
    lex_lt(a.id, b.id) || (a.id == b.id && rank(a.source) < rank(b.source))
}

/// `a` and `b` have the same sort key.
pub open spec fn key_eq(a: PackView, b: PackView) -> bool {
    a.id == b.id && rank(a.source) == rank(b.source)
}

/// No element sorts strictly before an earlier one.
pub open spec fn sorted_by_key(s: Seq<PackView>) -> bool {
    forall|i: int, j: int| 0 <= i < j < s.len() ==> !key_lt(#[trigger] s[j], #[trigger] s[i])
}

/// `out` is a permutation of `input` through `orig` (position in `out` to
/// position in `input`) that keeps elements with equal keys in input order.
pub open spec fn stable_permutation(out: Seq<PackView>, input: Seq<PackView>, orig: Seq<int>) -> bool {
    &&& orig.len() == out.len()
    &&& out.len() == input.len()
    &&& forall|k: int|
        0 <= k < out.len() ==> 0 <= #[trigger] orig[k] < input.len() && out[k] == input[orig[k]]
    &&& forall|p: int, q: int| 0 <= p < q < out.len() ==> #[trigger] orig[p] != #[trigger] orig[q]
    &&& forall|p: int, q: int|
        0 <= p < q < out.len() && key_eq(#[trigger] out[p], #[trigger] out[q]) ==> orig[p] < orig[q]
}

/// `out` is `input` stably sorted by key.
pub open spec fn is_stable_sort_of(out: Seq<PackView>, input: Seq<PackView>) -> bool {
    &&& sorted_by_key(out)
    &&& exists|orig: Seq<int>| stable_permutation(out, input, orig)
}

proof fn lemma_key_trichotomy(a: PackView, b: PackView)
    ensures
        key_lt(a, b) || key_lt(b, a) || key_eq(a, b),
        !(key_lt(a, b) && key_lt(b, a)),
        !(key_lt(a, b) && key_eq(a, b)),
{
    lemma_lex_total(a.id, b.id);
    lemma_lex_asymmetric(a.id, b.id);
    lemma_lex_irreflexive(a.id);
}

proof fn lemma_key_transitive(a: PackView, b: PackView, c: PackView)
    requires
        key_lt(a, b),
        key_lt(b, c) || key_eq(b, c),
    ensures
        key_lt(a, c),
{
    if lex_lt(a.id, b.id) && lex_lt(b.id, c.id) {
        lemma_lex_transitive(a.id, b.id, c.id);
    }
}

fn pack_key_lt(a: &LibraryPack, b: &LibraryPack) -> (r: bool)
    ensures
        r == key_lt(a@, b@),
{
    let ai = chars_of(a.id.as_str());
    let bi = chars_of(b.id.as_str());
    if chars_lt(ai.as_slice(), bi.as_slice()) {
        return true;
    }
    str_eq(a.id.as_str(), b.id.as_str()) && source_rank(&a.source) < source_rank(&b.source)
}

/// Stable insertion sort by `(id, project-before-preset)`.
fn sort_packs(packs: Vec<LibraryPack>) -> (r: Vec<LibraryPack>)
    ensures
        is_stable_sort_of(pack_views(r@), pack_views(packs@)),
{
    let ghost input = pack_views(packs@);
    let mut rest = packs;
    let mut out: Vec<LibraryPack> = Vec::new();
    let ghost mut orig: Seq<int> = Seq::empty();
    let mut i: usize = 0;
    assert(pack_views(rest@) == input.skip(0));
    assert(input.len() <= usize::MAX) by {
        let _n = rest.len();
    }
    while rest.len() > 0
        invariant
            i <= input.len(),
            input.len() <= usize::MAX,
            rest@.len() + i == input.len(),
            pack_views(rest@) == input.skip(i as int),
            sorted_by_key(pack_views(out@)),
            stable_permutation(pack_views(out@), input.take(i as int), orig),
        decreases rest.len(),
    {
        let ghost rv = pack_views(rest@);
        let e = rest.remove(0);
        let ghost ev = e@;
        assert(ev == input[i as int]) by {
            assert(ev == rv[0]);
            assert(input.skip(i as int)[0] == input[i as int]);
        }
        let ghost ov = pack_views(out@);
        let mut pos: usize = 0;
        while pos < out.len() && !pack_key_lt(&e, &out[pos])
            invariant
                pos <= out.len(),
                ov == pack_views(out@),
                ev == e@,
                forall|k: int| 0 <= k < pos ==> !key_lt(ev, #[trigger] ov[k]),
            decreases out.len() - pos,
        {
            pos = pos + 1;
        }
        proof {
            if pos < ov.len() {
                assert(key_lt(ev, ov[pos as int]));
            }
        }
        out.insert(pos, e);
        let ghost nv = pack_views(out@);
        assert(nv =~= ov.insert(pos as int, ev));
        let ghost norig = orig.insert(pos as int, i as int);
        proof {
            // Everything at or after `pos` sorts strictly after `e`.
            assert forall|k: int| pos <= k < ov.len() implies key_lt(ev, #[trigger] ov[k]) by {
                if k > pos {
                    lemma_key_trichotomy(ov[pos as int], ov[k]);
                    lemma_key_transitive(ev, ov[pos as int], ov[k]);
                }
            }
            assert forall|a: int, b: int| 0 <= a < b < nv.len() implies !key_lt(
                #[trigger] nv[b],
                #[trigger] nv[a],
            ) by {
                if a == pos {
                    lemma_key_trichotomy(ev, nv[b]);
                } else if b == pos {
                    lemma_key_trichotomy(ev, nv[a]);
                } else {
                    let a0 = if a < pos { a } else { a - 1 };
                    let b0 = if b < pos { b } else { b - 1 };
                    assert(nv[a] == ov[a0] && nv[b] == ov[b0]);
                }
            }
            let take1 = input.take(i + 1);
            assert forall|k: int| 0 <= k < nv.len() implies 0 <= #[trigger] norig[k] < take1.len()
                && nv[k] == take1[norig[k]] by {
                if k < pos {
                    assert(nv[k] == ov[k]);
                } else if k > pos {
                    assert(nv[k] == ov[k - 1]);
                }
            }
            assert forall|p: int, q: int| 0 <= p < q < nv.len() implies #[trigger] norig[p]
                != #[trigger] norig[q] by {
                if p != pos && q != pos {
                    let p0 = if p < pos { p } else { p - 1 };
                    let q0 = if q < pos { q } else { q - 1 };
                    assert(norig[p] == orig[p0] && norig[q] == orig[q0]);
                } else if p == pos {
                    assert(norig[q] == orig[q - 1]);
                } else {
                    assert(norig[p] == orig[p]);
                }
            }
            assert forall|p: int, q: int|
                0 <= p < q < nv.len() && key_eq(#[trigger] nv[p], #[trigger] nv[q]) implies norig[p]
                < norig[q] by {
                if p == pos {
                    lemma_key_trichotomy(ev, nv[q]);
                } else if q == pos {
                    assert(norig[p] == orig[p]);
                } else {
                    let p0 = if p < pos { p } else { p - 1 };
                    let q0 = if q < pos { q } else { q - 1 };
                    assert(norig[p] == orig[p0] && norig[q] == orig[q0]);
                    assert(nv[p] == ov[p0] && nv[q] == ov[q0]);
                }
            }
            orig = norig;
            assert(input.skip(i as int).drop_first() == input.skip(i + 1));
            assert(pack_views(rest@) =~= rv.drop_first());
        }
        i = i + 1;
    }
    assert(input.take(i as int) == input);
    assert(stable_permutation(pack_views(out@), input, orig));
    out
}

/// The text of the embedded flowchart preset pack.
pub const FLOWCHART_SOURCE: &'static str = "zenith version=1 {
  project id=\"@zenith/flowchart\" name=\"Flowchart\"
  libraries { library id=\"@zenith/flowchart\" version=\"1.0.0\" }
  tokens format=\"zenith-token-v1\" {}
  styles {}
  components {
    component id=\"process\" {}
    component id=\"decision\" {}
    component id=\"terminator\" {}
  }
  document id=\"doc.flowchart\" title=\"Flowchart\" {
    page id=\"page.preview\" w=(px)10 h=(px)10 {}
  }
}
";

/// The embedded preset packs, as `(pack_id, pack_source)` pairs.
pub fn embedded_packs() -> (r: Vec<(&'static str, &'static str)>)
    ensures
        r@.len() == 1,
        r@[0].0@ == "@zenith/flowchart"@,
        r@[0].1@ == FLOWCHART_SOURCE@,
{
    let mut v = Vec::new();
    v.push(("@zenith/flowchart", FLOWCHART_SOURCE));
    v
}

/// The packs of `sources` that parse, tagged `Preset`, in order.
pub open spec fn preset_packs_of(sources: Seq<Seq<char>>) -> Seq<PackView>
    decreases sources.len(),
{
    if sources.len() == 0 {
        Seq::empty()
    } else {
        let here = match pack_of_source(sources[0]) {
            Ok((id, version, items)) => seq![
                PackView { id, version, source: SourceView::Preset, items },
            ],
            Err(_) => Seq::empty(),
        };
        here + preset_packs_of(sources.drop_first())
    }
}

/// Parse every embedded pack; one that fails to parse is skipped.
pub fn load_embedded_packs() -> (r: Vec<LibraryPack>)
    ensures
        pack_views(r@) == preset_packs_of(seq![FLOWCHART_SOURCE@]),
{
    let embedded = embedded_packs();
    let mut out: Vec<LibraryPack> = Vec::new();
    match parse_pack(embedded[0].1, PackSource::Preset) {
        Ok(p) => {
            out.push(p);
        },
        Err(_) => {},
    }
    assert(seq![FLOWCHART_SOURCE@].drop_first() =~= Seq::<Seq<char>>::empty());
    assert(preset_packs_of(Seq::<Seq<char>>::empty()) =~= Seq::<PackView>::empty());
    assert(pack_views(out@) =~= preset_packs_of(seq![FLOWCHART_SOURCE@]));
    out
}

/// All available packs: the project packs (when a project directory was
/// given) and the embedded presets, stably sorted by id with project packs
/// ahead of presets on ties, so the shadowing winner comes first.
pub fn resolve_packs(project_packs: Option<Vec<LibraryPack>>) -> (r: Vec<LibraryPack>)
    ensures
        is_stable_sort_of(
            pack_views(r@),
            match project_packs {
                Some(v) => pack_views(v@),
                None => Seq::empty(),
            } + preset_packs_of(seq![FLOWCHART_SOURCE@]),
        ),
{
    let mut packs: Vec<LibraryPack> = match project_packs {
        Some(v) => v,
        None => Vec::new(),
    };
    let ghost first = pack_views(packs@);
    let mut embedded = load_embedded_packs();
    let ghost second = pack_views(embedded@);
    packs.append(&mut embedded);
    assert(pack_views(packs@) =~= first + second);
    sort_packs(packs)
}

// ── Project packs ───────────────────────────────────────────────────────────

/// Whether the file at `path` is a pack file: its extension is `zen`. Of a
/// path that names a file alike on every platform the extension is
/// [`path_ext`]; of any other, the extension, if any, holds no `.` and
/// ends a component of the path after a `.`.
pub fn is_pack_path(path: &str) -> (r: bool)
    ensures
        named_file_path(path@) ==> r == (path_ext(path@) == Some("zen"@)),
        r ==> ext_in_text(path@, "zen"@),
        exists|ext: Option<Seq<char>>|
            (ext matches Some(e) ==> !e.contains('.') && ext_in_text(path@, e)) && #[trigger] opt_is_zen(
                ext,
            ) == r,
{
    let ext = path_extension(path);
    let r = match &ext {
        Some(e) => str_eq(e.as_str(), "zen"),
        None => false,
    };
    assert(opt_is_zen(opt_view(ext)) == r);
    r
}

pub open spec fn opt_is_zen(ext: Option<Seq<char>>) -> bool {
    ext == Some("zen"@)
}

/// The pack one project file gives (tagged with its path), or the note
/// explaining why the file is skipped.
pub open spec fn project_file_outcome(path: Seq<char>, contents: Seq<char>) -> Result<PackView, Seq<char>> {
    match pack_of_source(contents) {
        Ok((id, version, items)) => Ok(
            PackView { id, version, source: SourceView::Project(path), items },
        ),
        Err(m) => Err("note: skipping '"@ + path + "': "@ + m),
    }
}

/// The packs of the project files `files` (path, contents), in order.
pub open spec fn project_packs_of(files: Seq<(Seq<char>, Seq<char>)>) -> Seq<PackView>
    decreases files.len(),
{
    if files.len() == 0 {
        Seq::empty()
    } else {
        let prev = project_packs_of(files.drop_last());
        match project_file_outcome(files.last().0, files.last().1) {
            Ok(p) => prev.push(p),
            Err(_) => prev,
        }
    }
}

/// The notes for the project files that are skipped, in order.
pub open spec fn project_notes_of(files: Seq<(Seq<char>, Seq<char>)>) -> Seq<Seq<char>>
    decreases files.len(),
{
    if files.len() == 0 {
        Seq::empty()
    } else {
        let prev = project_notes_of(files.drop_last());
        match project_file_outcome(files.last().0, files.last().1) {
            Ok(_) => prev,
            Err(n) => prev.push(n),
        }
    }
}

pub open spec fn files_view(files: Seq<(String, String)>) -> Seq<(Seq<char>, Seq<char>)> {
    files.map_values(|f: (String, String)| (f.0@, f.1@))
}

/// Parse the project pack files `files` (path, contents): the packs that
/// parse, each tagged with its path, and a note for each file that does
/// not, both in order.
pub fn project_packs(files: &Vec<(String, String)>) -> (r: (Vec<LibraryPack>, Vec<String>))
    ensures
        pack_views(r.0@) == project_packs_of(files_view(files@)),
        strings_view(r.1@) == project_notes_of(files_view(files@)),
{
    let ghost fv = files_view(files@);
    let mut packs: Vec<LibraryPack> = Vec::new();
    let mut notes: Vec<String> = Vec::new();
    let mut i: usize = 0;
    assert(fv.take(0) =~= Seq::<(Seq<char>, Seq<char>)>::empty());
    while i < files.len()
        invariant
            i <= files@.len(),
            fv == files_view(files@),
            pack_views(packs@) == project_packs_of(fv.take(i as int)),
            strings_view(notes@) == project_notes_of(fv.take(i as int)),
        decreases files@.len() - i,
    {
        let path = &files[i].0;
        assert(fv.take(i + 1).drop_last() =~= fv.take(i as int));
        assert(fv.take(i + 1).last() == fv[i as int]);
        match parse_pack(files[i].1.as_str(), PackSource::Project(path.clone())) {
            Ok(p) => {
                let ghost before = pack_views(packs@);
                packs.push(p);
                assert(pack_views(packs@) =~= before.push(packs@.last()@));
            },
            Err(e) => {
                let mut m = chars_of("note: skipping '");
                extend_chars(&mut m, chars_of(path.as_str()).as_slice());
                extend_chars(&mut m, chars_of("': ").as_slice());
                extend_chars(&mut m, chars_of(e.message.as_str()).as_slice());
                let ghost before = strings_view(notes@);
                notes.push(string_from_chars(m.as_slice()));
                assert(strings_view(notes@) =~= before.push(notes@.last()@));
            },
        }
        i = i + 1;
    }
    assert(fv.take(i as int) =~= fv);
    (packs, notes)
}

} // verus!
