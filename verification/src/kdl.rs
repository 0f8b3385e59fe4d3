//! KDL documents as plain values.
//!
//! The `kdl` crate parses the text; its document tree is handed to the rest
//! of the library as a flat, breadth-first list of nodes, each naming its
//! parent by index, with every entry's property name and string value.

use vstd::prelude::*;

verus! {

/// One entry of a KDL node: a property (`name=value`) or an argument.
#[derive(Debug, Clone, PartialEq, Eq)]
pub struct KdlEntryData {
    /// The property name; `None` for a positional argument.
    pub name: Option<String>,
    /// The value when it is a string; `None` for any other value.
    pub text: Option<String>,
}

/// One KDL node, with its parent given by position in the flat list.
#[derive(Debug, Clone, PartialEq, Eq)]
pub struct KdlNodeData {
    /// Index of the parent node, `None` for a top-level node.
    pub parent: Option<usize>,
    /// The node name.
    pub name: String,
    /// The node's entries in source order.
    pub entries: Vec<KdlEntryData>,
}

/// The abstract value of a [`KdlEntryData`].
pub struct KdlEntryView {
    pub name: Option<Seq<char>>,
    pub text: Option<Seq<char>>,
}

/// The abstract value of a [`KdlNodeData`].
pub struct KdlNodeView {
    pub parent: Option<usize>,
    pub name: Seq<char>,
    pub entries: Seq<KdlEntryView>,
}

pub open spec fn opt_text(o: Option<String>) -> Option<Seq<char>> {
    match o {
        Some(s) => Some(s@),
        None => None,
    }
}

impl View for KdlEntryData {
    type V = KdlEntryView;

    open spec fn view(&self) -> KdlEntryView {
        KdlEntryView { name: opt_text(self.name), text: opt_text(self.text) }
    }
}

impl View for KdlNodeData {
    type V = KdlNodeView;

    open spec fn view(&self) -> KdlNodeView {
        KdlNodeView {
            parent: self.parent,
            name: self.name@,
            entries: self.entries@.map_values(|e: KdlEntryData| e@),
        }
    }
}

pub open spec fn node_views(nodes: Seq<KdlNodeData>) -> Seq<KdlNodeView> {
    nodes.map_values(|n: KdlNodeData| n@)
}

pub open spec fn nodes_result_view(r: Result<Vec<KdlNodeData>, String>) -> Result<
    Seq<KdlNodeView>,
    Seq<char>,
> {
    match r {
        Ok(v) => Ok(node_views(v@)),
        Err(e) => Err(e@),
    }
}

/// A node as the parser hands it over: its parent's index, its name, and its
/// entries as (property name, string value).
pub type RawKdlNode = (Option<usize>, String, Vec<(Option<String>, Option<String>)>);

pub open spec fn entry_of(e: (Option<Seq<char>>, Option<Seq<char>>)) -> KdlEntryView {
    KdlEntryView { name: e.0, text: e.1 }
}

pub open spec fn pair_view(e: (Option<String>, Option<String>)) -> (Option<Seq<char>>, Option<Seq<char>>) {
    (opt_text(e.0), opt_text(e.1))
}

/// The abstract value of a node as the parser hands it over.
pub open spec fn raw_node_view(n: RawKdlNode) -> KdlNodeView {
    KdlNodeView {
        parent: n.0,
        name: n.1@,
        entries: n.2@.map_values(|e: (Option<String>, Option<String>)| entry_of(pair_view(e))),
    }
}

/// The nodes of the KDL document `text` in breadth-first order, each with
/// its parent's index, its name and its entries; `None` when `text` is not
/// a KDL document.
pub uninterp spec fn kdl_nodes(text: Seq<char>) -> Option<Seq<KdlNodeView>>;

/// The message of every KDL parse error.
pub open spec fn kdl_error_message() -> Seq<char> {
    "Failed to parse KDL document"@
}

/// The node list of the KDL document `text`, or the parser's message.
pub open spec fn kdl_document(text: Seq<char>) -> Result<Seq<KdlNodeView>, Seq<char>> {
    match kdl_nodes(text) {
        Some(nodes) => Ok(nodes),
        None => Err(kdl_error_message()),
    }
}

#[verifier::external_type_specification]
#[verifier::external_body]
pub struct ExKdlError(kdl::KdlError);

/// `kdl::KdlDocument::parse` (KDL v2), then each node breadth-first: the
/// index of its parent (`None` at the top level), its name, and its entries
/// in source order as (property name, value when it is a string). The nodes
/// are named by `kdl_nodes`; what they are on given text is not stated.
#[verifier::external_body]
fn kdl_parse(text: &str) -> (r: Result<Vec<RawKdlNode>, kdl::KdlError>)
    ensures
        match r {
            Ok(v) => kdl_nodes(text@) == Some(v@.map_values(|n: RawKdlNode| raw_node_view(n))),
            Err(_) => kdl_nodes(text@) is None,
        },
{
    let doc = kdl::KdlDocument::parse(text)?;
    let mut todo = Vec::from_iter(doc.nodes().iter().map(|n| (None, n)));
    let mut out = Vec::new();
    while let Some(&(parent, n)) = todo.get(out.len()) {
        todo.extend(n.iter_children().map(|c| (Some(out.len()), c)));
        out.push((parent, n.name().value().into(), n.entries().iter().map(|e| (e.name().map(|k| k.value().into()), e.value().as_string().map(Into::into))).collect()));
    }
    Ok(out)
}

/// `kdl::KdlError`'s `Display`, which writes the same message for every
/// error.
#[verifier::external_body]
fn kdl_error_text(e: &kdl::KdlError) -> (r: String)
    ensures
        r@ == kdl_error_message(),
{
    e.to_string()
}

/// Parse `text` as KDL: the document's nodes breadth-first, each with its
/// parent's index, its name and its entries, or the parser's error message.
pub fn kdl_parse_nodes(text: &str) -> (r: Result<Vec<KdlNodeData>, String>)
    ensures
        nodes_result_view(r) == kdl_document(text@),
{
    let raw = match kdl_parse(text) {
        Ok(v) => v,
        Err(e) => return Err(kdl_error_text(&e)),
    };
    let mut out: Vec<KdlNodeData> = Vec::new();
    let mut i: usize = 0;
    while i < raw.len()
        invariant
            i <= raw@.len(),
            out@.len() == i,
            forall|j: int| 0 <= j < i ==> #[trigger] out@[j]@ == raw_node_view(raw@[j]),
        decreases raw@.len() - i,
    {
        let row = &raw[i].2;
        let mut es: Vec<KdlEntryData> = Vec::new();
        let mut k: usize = 0;
        while k < row.len()
            invariant
                k <= row@.len(),
                es@.len() == k,
                forall|m: int| 0 <= m < k ==> #[trigger] es@[m]@ == entry_of(pair_view(row@[m])),
            decreases row@.len() - k,
        {
            let name = match &row[k].0 {
                Some(n) => Some(n.clone()),
                None => None,
            };
            let val = match &row[k].1 {
                Some(t) => Some(t.clone()),
                None => None,
            };
            es.push(KdlEntryData { name, text: val });
            k = k + 1;
        }
        proof {
            assert(es@.map_values(|e: KdlEntryData| e@) =~= row@.map_values(
                |e: (Option<String>, Option<String>)| entry_of(pair_view(e)),
            ));
        }
        let node = KdlNodeData { parent: raw[i].0, name: raw[i].1.clone(), entries: es };
        out.push(node);
        i = i + 1;
    }
    proof {
        assert(node_views(out@) =~= raw@.map_values(|n: RawKdlNode| raw_node_view(n)));
    }
    Ok(out)
}

} // verus!
