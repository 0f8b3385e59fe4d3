//! Document-level diagnostic policy: `allow` / `deny` / `warn` entries that
//! adjust how diagnostic codes are reported.
//!
//! Resolution is last-wins: when several entries name the same code, the
//! last one written takes effect. An empty policy is an identity pass.

use vstd::prelude::*;
use crate::span::Span;
use crate::text::str_eq;

verus! {

/// How a diagnostic code's reporting is adjusted.
#[derive(Debug, Clone, Copy, PartialEq, Eq, Structural)]
pub enum PolicyVerb {
    /// Suppress a Warning/Advisory diagnostic (Errors are unchanged).
    Allow,
    /// Elevate the diagnostic to Error severity.
    Deny,
    /// Force a Warning/Advisory diagnostic to Warning severity.
    Warn,
}

/// One verb applied to one diagnostic code.
#[derive(Debug, Clone, PartialEq, Eq)]
pub struct PolicyEntry {
    /// What this entry does to the named code.
    pub verb: PolicyVerb,
    /// The diagnostic code this entry governs, e.g. `"layout.off_canvas"`.
    pub code: String,
    /// Source declaration span, when available.
    pub source_span: Option<Span>,
}

/// The abstract value of a [`PolicyEntry`].
pub struct EntryView {
    pub verb: PolicyVerb,
    pub code: Seq<char>,
    pub source_span: Option<Span>,
}

impl View for PolicyEntry {
    type V = EntryView;

    open spec fn view(&self) -> EntryView {
        EntryView { verb: self.verb, code: self.code@, source_span: self.source_span }
    }
}

/// The ordered entries of a `diagnostics { … }` block.
#[derive(Debug, Clone, PartialEq, Eq)]
pub struct DiagnosticPolicy {
    /// Policy entries in source order.
    pub entries: Vec<PolicyEntry>,
}

pub open spec fn entry_views(entries: Seq<PolicyEntry>) -> Seq<EntryView> {
    entries.map_values(|e: PolicyEntry| e@)
}

impl View for DiagnosticPolicy {
    type V = Seq<EntryView>;

    open spec fn view(&self) -> Seq<EntryView> {
        entry_views(self.entries@)
    }
}

impl Default for DiagnosticPolicy {
    /// The empty policy.
    fn default() -> (p: Self)
        ensures
            p@ == Seq::<EntryView>::empty(),
    {
        let p = DiagnosticPolicy { entries: Vec::new() };
        assert(p@ =~= Seq::<EntryView>::empty());
        p
    }
}

/// The verb of the last entry that names `code`, if any.
pub open spec fn verb_of(entries: Seq<EntryView>, code: Seq<char>) -> Option<PolicyVerb>
    decreases entries.len(),
{
    if entries.len() == 0 {
        None
    } else if entries.last().code == code {
        Some(entries.last().verb)
    } else {
        verb_of(entries.drop_last(), code)
    }
}

impl DiagnosticPolicy {
    /// The effective verb for `code` (the last entry naming it), or `None`
    /// if no entry governs it.
    pub fn verb_for(&self, code: &str) -> (r: Option<&PolicyVerb>)
        ensures
            match r {
                Some(v) => verb_of(self@, code@) == Some(*v),
                None => verb_of(self@, code@) is None,
            },
    {
        let mut i = self.entries.len();
        assert(entry_views(self.entries@).take(i as int) == self@);
        while i > 0
            invariant
                i <= self.entries.len(),
                verb_of(self@, code@) == verb_of(entry_views(self.entries@).take(i as int), code@),
            decreases i,
        {
            let ghost prefix = entry_views(self.entries@).take(i as int);
            assert(prefix.drop_last() == entry_views(self.entries@).take(i - 1));
            if str_eq(self.entries[i - 1].code.as_str(), code) {
                return Some(&self.entries[i - 1].verb);
            }
            i = i - 1;
        }
        None
    }
}

/// Last-wins across concatenation: an entry in the later list always
/// overrides the earlier list for the same code.
pub proof fn lemma_verb_of_concat(a: Seq<EntryView>, b: Seq<EntryView>, code: Seq<char>)
    ensures
        verb_of(a + b, code) == (if verb_of(b, code) is Some {
            verb_of(b, code)
        } else {
            verb_of(a, code)
        }),
    decreases b.len(),
{
    if b.len() == 0 {
        assert(a + b =~= a);
    } else {
        assert((a + b).drop_last() =~= a + b.drop_last());
        assert((a + b).last() == b.last());
        lemma_verb_of_concat(a, b.drop_last(), code);
    }
}

/// The empty policy governs no code.
pub proof fn law_empty_policy_is_inert(code: Seq<char>)
    ensures
        verb_of(Seq::empty(), code) is None,
{
}

} // verus!
