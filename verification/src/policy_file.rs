//! Reading a `diagnostics { … }` block from a config file.
//!
//! A config file is a KDL document whose meaningful node is a top-level
//! `diagnostics` block, written like the in-document block:
//!
//! ```text
//! diagnostics {
//!     allow "layout.off_canvas"
//!     deny  "font.local"
//!     warn  "node.unknown_property"
//! }
//! ```
//!
//! Only the first top-level `diagnostics` node is read; other nodes are
//! ignored. A source without one (an empty source too) gives the empty
//! policy.

use vstd::prelude::*;
use vstd::string::StringExecFns;
use vstd::utf8::{valid_utf8, decode_utf8};
use crate::data::{utf8_decode, utf8_error_text};
use crate::kdl::{kdl_document, kdl_parse_nodes, node_views, KdlEntryData, KdlEntryView, KdlNodeData, KdlNodeView};
use crate::library::{find_node, find_node_exec, lemma_find_node};
use crate::policy::{entry_views, DiagnosticPolicy, EntryView, PolicyEntry, PolicyVerb};
use crate::text::str_eq;

verus! {

/// Why a config source could not be read.
#[derive(Debug, Clone, Copy, PartialEq, Eq, Structural)]
pub enum ParseErrorCode {
    /// The bytes are not valid UTF-8.
    NotUtf8,
    /// The text is not valid KDL.
    InvalidKdl,
    /// A recognized entry lacks its diagnostic-code string.
    InvalidPropertyValue,
}

/// An error reading a config source.
#[derive(Debug, Clone)]
pub struct ParseError {
    /// The kind of failure.
    pub code: ParseErrorCode,
    /// Human-readable description.
    pub message: String,
}

/// The verb a policy entry's node name stands for, if any.
pub open spec fn verb_named(name: Seq<char>) -> Option<PolicyVerb> {
    if name == "allow"@ {
        Some(PolicyVerb::Allow)
    } else if name == "deny"@ {
        Some(PolicyVerb::Deny)
    } else if name == "warn"@ {
        Some(PolicyVerb::Warn)
    } else {
        None
    }
}

/// The first positional argument among `entries`, when it holds a string.
pub open spec fn code_argument(entries: Seq<KdlEntryView>) -> Option<Seq<char>>
    decreases entries.len(),
{
    if entries.len() == 0 {
        None
    } else if entries[0].name is None {
        entries[0].text
    } else {
        code_argument(entries.drop_first())
    }
}

pub open spec fn missing_code_message(name: Seq<char>) -> Seq<char> {
    "`"@ + name + "` entry requires a diagnostic code string"@
}

/// The entries of the block at `d` among nodes before `n`: each child named
/// `allow`, `deny` or `warn` with its code, in order; the name of the first
/// such child without a code string is the error.
pub open spec fn block_entries(nodes: Seq<KdlNodeView>, d: int, n: int) -> Result<
    Seq<EntryView>,
    Seq<char>,
>
    decreases n,
{
    if n <= 0 {
        Ok(Seq::empty())
    } else {
        match block_entries(nodes, d, n - 1) {
            Err(e) => Err(e),
            Ok(es) => {
                let j = n - 1;
                if j < nodes.len() && nodes[j].parent == Some(d as usize) && verb_named(
                    nodes[j].name,
                ) is Some {
                    match code_argument(nodes[j].entries) {
                        Some(c) => Ok(
                            es.push(
                                EntryView {
                                    verb: verb_named(nodes[j].name)->Some_0,
                                    code: c,
                                    source_span: None,
                                },
                            ),
                        ),
                        None => Err(nodes[j].name),
                    }
                } else {
                    Ok(es)
                }
            },
        }
    }
}

/// The policy a parsed config document holds, or the message of its first
/// malformed entry.
pub open spec fn config_policy(nodes: Seq<KdlNodeView>) -> Result<Seq<EntryView>, Seq<char>> {
    let d = find_node(nodes, 0, None, "diagnostics"@);
    if d < 0 {
        Ok(Seq::empty())
    } else {
        match block_entries(nodes, d, nodes.len() as int) {
            Ok(es) => Ok(es),
            Err(name) => Err(missing_code_message(name)),
        }
    }
}

/// What reading the config source `bytes` gives: the policy, or the error
/// code and message.
pub open spec fn policy_source(bytes: Seq<u8>) -> Result<Seq<EntryView>, (ParseErrorCode, Seq<char>)> {
    if !valid_utf8(bytes) {
        Err(
            (
                ParseErrorCode::NotUtf8,
                "config source is not valid UTF-8: "@ + utf8_error_text(bytes),
            ),
        )
    } else {
        match kdl_document(decode_utf8(bytes)) {
            Err(e) => Err((ParseErrorCode::InvalidKdl, "config KDL parse error: "@ + e)),
            Ok(nodes) => match config_policy(nodes) {
                Ok(es) => Ok(es),
                Err(m) => Err((ParseErrorCode::InvalidPropertyValue, m)),
            },
        }
    }
}

pub open spec fn policy_result_view(r: Result<DiagnosticPolicy, ParseError>) -> Result<
    Seq<EntryView>,
    (ParseErrorCode, Seq<char>),
> {
    match r {
        Ok(p) => Ok(p@),
        Err(e) => Err((e.code, e.message@)),
    }
}

fn verb_of_name(name: &str) -> (r: Option<PolicyVerb>)
    ensures
        r == verb_named(name@),
{
    if str_eq(name, "allow") {
        Some(PolicyVerb::Allow)
    } else if str_eq(name, "deny") {
        Some(PolicyVerb::Deny)
    } else if str_eq(name, "warn") {
        Some(PolicyVerb::Warn)
    } else {
        None
    }
}

fn first_code_argument(entries: &Vec<KdlEntryData>) -> (r: Option<String>)
    ensures
        match r {
            Some(s) => code_argument(entries@.map_values(|e: KdlEntryData| e@)) == Some(s@),
            None => code_argument(entries@.map_values(|e: KdlEntryData| e@)) is None,
        },
{
    let ghost views = entries@.map_values(|e: KdlEntryData| e@);
    let mut i: usize = 0;
    assert(views.skip(0) =~= views);
    while i < entries.len()
        invariant
            i <= entries@.len(),
            views == entries@.map_values(|e: KdlEntryData| e@),
            code_argument(views) == code_argument(views.skip(i as int)),
        decreases entries@.len() - i,
    {
        assert(views.skip(i as int)[0] == views[i as int]);
        if entries[i].name.is_none() {
            return match &entries[i].text {
                Some(t) => Some(t.clone()),
                None => None,
            };
        }
        assert(views.skip(i as int).drop_first() =~= views.skip(i + 1));
        i = i + 1;
    }
    None
}

/// The policy held by a parsed config document.
fn policy_from_nodes(nodes: &Vec<KdlNodeData>) -> (r: Result<DiagnosticPolicy, String>)
    ensures
        match r {
            Ok(p) => config_policy(node_views(nodes@)) == Ok::<Seq<EntryView>, Seq<char>>(p@),
            Err(m) => config_policy(node_views(nodes@)) == Err::<Seq<EntryView>, Seq<char>>(m@),
        },
{
    let ghost views = node_views(nodes@);
    proof {
        lemma_find_node(views, 0, None, "diagnostics"@);
    }
    let d = match find_node_exec(nodes, None, "diagnostics") {
        Some(d) => d,
        None => {
            let p = DiagnosticPolicy { entries: Vec::new() };
            assert(p@ =~= Seq::<EntryView>::empty());
            return Ok(p);
        },
    };
    let mut entries: Vec<PolicyEntry> = Vec::new();
    assert(entry_views(entries@) =~= Seq::<EntryView>::empty());
    let mut j: usize = 0;
    while j < nodes.len()
        invariant
            j <= nodes@.len(),
            views == node_views(nodes@),
            d < nodes@.len(),
            find_node(views, 0, None, "diagnostics"@) == d as int,
            block_entries(views, d as int, j as int) == Ok::<Seq<EntryView>, Seq<char>>(
                entry_views(entries@),
            ),
        decreases nodes@.len() - j,
    {
        let is_child = match nodes[j].parent {
            Some(p) => p == d,
            None => false,
        };
        if is_child {
            if let Some(verb) = verb_of_name(nodes[j].name.as_str()) {
                match first_code_argument(&nodes[j].entries) {
                    Some(code) => {
                        let ghost before = entries@;
                        entries.push(PolicyEntry { verb, code, source_span: None });
                        assert(entry_views(entries@) =~= entry_views(before).push(
                            entries@.last()@,
                        ));
                    },
                    None => {
                        let mut m = String::new();
                        m.append("`");
                        m.append(nodes[j].name.as_str());
                        m.append("` entry requires a diagnostic code string");
                        proof {
                            assert(block_entries(views, d as int, j + 1) == Err::<
                                Seq<EntryView>,
                                Seq<char>,
                            >(views[j as int].name));
                            lemma_block_error_sticks(views, d as int, j + 1, nodes@.len() as int);
                            assert(m@ == missing_code_message(views[j as int].name));
                        }
                        return Err(m);
                    },
                }
            }
        }
        j = j + 1;
    }
    Ok(DiagnosticPolicy { entries })
}

/// Once the block's entries fail, they fail with the same message further on.
proof fn lemma_block_error_sticks(nodes: Seq<KdlNodeView>, d: int, j: int, n: int)
    requires
        0 <= j <= n,
        block_entries(nodes, d, j) is Err,
    ensures
        block_entries(nodes, d, n) == block_entries(nodes, d, j),
    decreases n - j,
{
    if j < n {
        lemma_block_error_sticks(nodes, d, j, n - 1);
    }
}

/// Parse a config source: the first top-level `diagnostics` block's
/// `allow` / `deny` / `warn` entries, in order; an empty policy when there is
/// no such block. Invalid UTF-8, invalid KDL and an entry without its code
/// string are errors.
pub fn parse_diagnostic_policy(source: &[u8]) -> (r: Result<DiagnosticPolicy, ParseError>)
    ensures
        policy_result_view(r) == policy_source(source@),
{
    let text = match utf8_decode(source) {
        Ok(t) => t,
        Err(e) => {
            let mut m = String::new();
            m.append("config source is not valid UTF-8: ");
            m.append(e.as_str());
            return Err(ParseError { code: ParseErrorCode::NotUtf8, message: m });
        },
    };
    let nodes = match kdl_parse_nodes(text.as_str()) {
        Ok(n) => n,
        Err(e) => {
            let mut m = String::new();
            m.append("config KDL parse error: ");
            m.append(e.as_str());
            return Err(ParseError { code: ParseErrorCode::InvalidKdl, message: m });
        },
    };
    match policy_from_nodes(&nodes) {
        Ok(p) => Ok(p),
        Err(m) => Err(ParseError { code: ParseErrorCode::InvalidPropertyValue, message: m }),
    }
}

} // verus!
