//! Diagnostic-policy resolution from configuration layers and command-line
//! flags.
//!
//! The effective policy is the concatenation `global ++ local ++ in_file ++
//! cli` applied once; because resolution is last-wins this yields the
//! precedence `CLI > in-file > local > global`.

use vstd::prelude::*;
use crate::policy::entry_views;
use crate::policy::lemma_verb_of_concat;
use crate::policy::verb_of;
use crate::policy::DiagnosticPolicy;
use crate::policy::EntryView;
use crate::policy::PolicyEntry;
use crate::policy::PolicyVerb;
use crate::text::strings_view;
use crate::paths::{
    has_named_component, is_verbatim, plain_component, joined, last_slash, parent_text, path_join, path_parent,
    portable_path, tidy_path,
};
use crate::text::{chars_of, string_from_chars};
use crate::policy_file::{parse_diagnostic_policy, policy_source, ParseErrorCode};
use vstd::string::StringExecFns;

verus! {

/// Command-line policy adjustments, one bucket per verb; each string is a
/// diagnostic code.
#[derive(Debug, Clone, PartialEq, Eq)]
pub struct CliPolicyFlags {
    /// Codes passed via `--allow`.
    pub allow: Vec<String>,
    /// Codes passed via `--warn`.
    pub warn: Vec<String>,
    /// Codes passed via `--deny`.
    pub deny: Vec<String>,
}

impl Default for CliPolicyFlags {
    /// No flags.
    fn default() -> (f: Self)
        ensures
            f.allow@.len() == 0,
            f.warn@.len() == 0,
            f.deny@.len() == 0,
    {
        CliPolicyFlags { allow: Vec::new(), warn: Vec::new(), deny: Vec::new() }
    }
}

/// One span-less entry per code, all with the same verb.
pub open spec fn verb_entries(verb: PolicyVerb, codes: Seq<Seq<char>>) -> Seq<EntryView> {
    codes.map_values(|c: Seq<char>| EntryView { verb, code: c, source_span: None })
}

/// The entries contributed by the flags: allow, then warn, then deny.
pub open spec fn flag_entries(f: CliPolicyFlags) -> Seq<EntryView> {
    verb_entries(PolicyVerb::Allow, strings_view(f.allow@)) + verb_entries(
        PolicyVerb::Warn,
        strings_view(f.warn@),
    ) + verb_entries(PolicyVerb::Deny, strings_view(f.deny@))
}

/// The entries of the merged policy, lowest precedence first.
pub open spec fn merged_entries(
    global: Seq<EntryView>,
    local: Seq<EntryView>,
    in_file: Seq<EntryView>,
    flags: CliPolicyFlags,
) -> Seq<EntryView> {
    global + local + in_file + flag_entries(flags)
}

fn push_verb_entries(entries: &mut Vec<PolicyEntry>, verb: PolicyVerb, codes: &Vec<String>)
    ensures
        entry_views(final(entries)@) == entry_views(old(entries)@) + verb_entries(
            verb,
            strings_view(codes@),
        ),
{
    let ghost start = entry_views(entries@);
    let mut i: usize = 0;
    while i < codes.len()
        invariant
            i <= codes.len(),
            entry_views(entries@) == start + verb_entries(
                verb,
                strings_view(codes@.take(i as int)),
            ),
        decreases codes.len() - i,
    {
        let ghost before = entries@;
        entries.push(PolicyEntry { verb, code: codes[i].clone(), source_span: None });
        i = i + 1;
        assert(entry_views(entries@) =~= start + verb_entries(
            verb,
            strings_view(codes@.take(i as int)),
        )) by {
            assert(entry_views(entries@) =~= entry_views(before).push(entries@.last()@));
            assert(strings_view(codes@.take(i as int)) =~= strings_view(codes@.take(i - 1)).push(
                codes@[i - 1]@,
            ));
        }
    }
    assert(codes@.take(codes.len() as int) == codes@);
}

impl CliPolicyFlags {
    /// Whether any flag was supplied.
    pub fn is_empty(&self) -> (r: bool)
        ensures
            r == (self.allow@.len() == 0 && self.warn@.len() == 0 && self.deny@.len() == 0),
    {
        self.allow.len() == 0 && self.warn.len() == 0 && self.deny.len() == 0
    }

    /// The flags as span-less policy entries: allow, then warn, then deny, so
    /// that for a code passed under several verbs `--deny` wins.
    fn entries(&self) -> (r: Vec<PolicyEntry>)
        ensures
            entry_views(r@) == flag_entries(*self),
    {
        let mut entries: Vec<PolicyEntry> = Vec::new();
        assert(entry_views(entries@) =~= Seq::<EntryView>::empty());
        push_verb_entries(&mut entries, PolicyVerb::Allow, &self.allow);
        push_verb_entries(&mut entries, PolicyVerb::Warn, &self.warn);
        push_verb_entries(&mut entries, PolicyVerb::Deny, &self.deny);
        assert(Seq::<EntryView>::empty() + verb_entries(
            PolicyVerb::Allow,
            strings_view(self.allow@),
        ) =~= verb_entries(PolicyVerb::Allow, strings_view(self.allow@)));
        entries
    }
}

fn push_cloned_entries(entries: &mut Vec<PolicyEntry>, from: &Vec<PolicyEntry>)
    ensures
        entry_views(final(entries)@) == entry_views(old(entries)@) + entry_views(from@),
{
    let ghost start = entry_views(entries@);
    let mut i: usize = 0;
    while i < from.len()
        invariant
            i <= from.len(),
            entry_views(entries@) == start + entry_views(from@.take(i as int)),
        decreases from.len() - i,
    {
        let ghost before = entries@;
        let e = &from[i];
        entries.push(PolicyEntry { verb: e.verb, code: e.code.clone(), source_span: e.source_span });
        i = i + 1;
        assert(entry_views(entries@) =~= start + entry_views(from@.take(i as int))) by {
            assert(entry_views(entries@) =~= entry_views(before).push(entries@.last()@));
            assert(entry_views(from@.take(i as int)) =~= entry_views(from@.take(i - 1)).push(
                from@[i - 1]@,
            ));
        }
    }
    assert(from@.take(from.len() as int) == from@);
}

/// Merge the four policy tiers into one policy by concatenating them low to
/// high: `global ++ local ++ in_file ++ cli`.
pub fn merge_policy(
    global: &DiagnosticPolicy,
    local: &DiagnosticPolicy,
    in_file: &DiagnosticPolicy,
    flags: &CliPolicyFlags,
) -> (r: DiagnosticPolicy)
    ensures
        r@ == merged_entries(global@, local@, in_file@, *flags),
{
    let cli_entries = flags.entries();
    let mut entries: Vec<PolicyEntry> = Vec::new();
    assert(entry_views(entries@) =~= Seq::<EntryView>::empty());
    push_cloned_entries(&mut entries, &global.entries);
    push_cloned_entries(&mut entries, &local.entries);
    push_cloned_entries(&mut entries, &in_file.entries);
    push_cloned_entries(&mut entries, &cli_entries);
    assert(Seq::<EntryView>::empty() + global@ =~= global@);
    DiagnosticPolicy { entries }
}

/// The verb a list of same-verb entries gives a code.
pub proof fn lemma_verb_entries(verb: PolicyVerb, codes: Seq<Seq<char>>, code: Seq<char>)
    ensures
        verb_of(verb_entries(verb, codes), code) == (if codes.contains(code) {
            Some(verb)
        } else {
            None
        }),
    decreases codes.len(),
{
    if codes.len() > 0 {
        assert(verb_entries(verb, codes).drop_last() =~= verb_entries(verb, codes.drop_last()));
        lemma_verb_entries(verb, codes.drop_last(), code);
        if codes.last() != code {
            assert(codes.contains(code) ==> codes.drop_last().contains(code)) by {
                if codes.contains(code) {
                    let k = choose|k: int| 0 <= k < codes.len() && codes[k] == code;
                    assert(codes.drop_last()[k] == code);
                }
            }
            assert(codes.drop_last().contains(code) ==> codes.contains(code)) by {
                if codes.drop_last().contains(code) {
                    let k = choose|k: int|
                        0 <= k < codes.drop_last().len() && codes.drop_last()[k] == code;
                    assert(codes[k] == code);
                }
            }
        } else {
            assert(codes[codes.len() - 1] == code);
        }
    }
}

/// For a code passed under several flags, `--deny` beats `--warn` beats
/// `--allow`.
pub proof fn law_flag_precedence(flags: CliPolicyFlags, code: Seq<char>)
    ensures
        verb_of(flag_entries(flags), code) == (if strings_view(flags.deny@).contains(code) {
            Some(PolicyVerb::Deny)
        } else if strings_view(flags.warn@).contains(code) {
            Some(PolicyVerb::Warn)
        } else if strings_view(flags.allow@).contains(code) {
            Some(PolicyVerb::Allow)
        } else {
            None
        }),
{
    let a = verb_entries(PolicyVerb::Allow, strings_view(flags.allow@));
    let w = verb_entries(PolicyVerb::Warn, strings_view(flags.warn@));
    let d = verb_entries(PolicyVerb::Deny, strings_view(flags.deny@));
    lemma_verb_of_concat(a + w, d, code);
    lemma_verb_of_concat(a, w, code);
    lemma_verb_entries(PolicyVerb::Allow, strings_view(flags.allow@), code);
    lemma_verb_entries(PolicyVerb::Warn, strings_view(flags.warn@), code);
    lemma_verb_entries(PolicyVerb::Deny, strings_view(flags.deny@), code);
}

/// The effective verb of the merged policy comes from the highest tier that
/// names the code: CLI flags, then the in-file block, then local config,
/// then global config.
pub proof fn law_merge_precedence(
    global: Seq<EntryView>,
    local: Seq<EntryView>,
    in_file: Seq<EntryView>,
    flags: CliPolicyFlags,
    code: Seq<char>,
)
    ensures
        verb_of(merged_entries(global, local, in_file, flags), code) == (if verb_of(
            flag_entries(flags),
            code,
        ) is Some {
            verb_of(flag_entries(flags), code)
        } else if verb_of(in_file, code) is Some {
            verb_of(in_file, code)
        } else if verb_of(local, code) is Some {
            verb_of(local, code)
        } else {
            verb_of(global, code)
        }),
{
    lemma_verb_of_concat(global + local + in_file, flag_entries(flags), code);
    lemma_verb_of_concat(global + local, in_file, code);
    lemma_verb_of_concat(global, local, code);
}

/// With every tier empty and no flags, the merged policy is empty.
pub proof fn law_merge_all_empty_is_identity(flags: CliPolicyFlags)
    requires
        flags.allow@.len() == 0,
        flags.warn@.len() == 0,
        flags.deny@.len() == 0,
    ensures
        merged_entries(Seq::empty(), Seq::empty(), Seq::empty(), flags).len() == 0,
{
}

/// With no flags, merging keeps the three configuration tiers as they are.
pub proof fn law_no_flags_adds_nothing(
    global: Seq<EntryView>,
    local: Seq<EntryView>,
    in_file: Seq<EntryView>,
    flags: CliPolicyFlags,
)
    requires
        flags.allow@.len() == 0,
        flags.warn@.len() == 0,
        flags.deny@.len() == 0,
    ensures
        merged_entries(global, local, in_file, flags) == global + local + in_file,
{
    assert(flag_entries(flags) =~= Seq::<EntryView>::empty());
    assert(global + local + in_file + Seq::<EntryView>::empty() =~= global + local + in_file);
}

// ── Config files ────────────────────────────────────────────────────────────

/// Where a local config sits in a directory.
pub open spec fn local_config_name() -> Seq<char> {
    ".zenith.kdl"@
}

/// The state of the walk from a document's directory up to the root in
/// search of a local config: the directory to look in next, if any.
pub struct LocalConfigWalk {
    dir: Option<String>,
}

impl LocalConfigWalk {
    /// The directory to look in next; `None` once the root has been passed.
    pub closed spec fn dir(&self) -> Option<Seq<char>> {
        match self.dir {
            Some(d) => Some(d@),
            None => None,
        }
    }

    /// A walk that starts in `start_dir`.
    pub fn start(start_dir: &str) -> (r: Self)
        ensures
            r.dir() == Some(start_dir@),
    {
        LocalConfigWalk { dir: Some(start_dir.to_owned()) }
    }

    /// The config file to look for next: `.zenith.kdl` in the current
    /// directory; `None` when the walk is over.
    pub fn candidate(&self) -> (r: Option<String>)
        ensures
            match (r, self.dir()) {
                (Some(c), Some(d)) => !is_verbatim(d) ==> joined(c@, d, local_config_name()),
                (None, None) => true,
                _ => false,
            },
    {
        match &self.dir {
            Some(d) => {
                proof {
                    reveal_strlit(".zenith.kdl");
                }
                Some(path_join(d.as_str(), ".zenith.kdl"))
            },
            None => None,
        }
    }

    /// Move to the parent directory after the candidate turned out not to be
    /// a file (a finished walk stays finished). The directory gets strictly
    /// shorter each time, so the walk ends; it goes on while the directory
    /// has a named component, and from a tidy directory it goes to the text
    /// before the last `/`.
    pub fn advance(&mut self)
        ensures
            final(self).dir() matches Some(p) ==> old(self).dir() matches Some(d) && p.len() < d.len()
                && d.take(p.len() as int) == p,
            (old(self).dir() matches Some(d) && portable_path(d) && has_named_component(d))
                ==> final(self).dir() is Some,
            old(self).dir() matches Some(d) ==> (tidy_path(d) ==> final(self).dir() == Some(
                parent_text(d),
            )),
            old(self).dir() matches Some(d) ==> (d.len() == 0 || d == seq!['/']
                ==> final(self).dir() is None),
    {
        let next = match &self.dir {
            Some(d) => path_parent(d.as_str()),
            None => None,
        };
        self.dir = next;
    }
}

/// A directory from which the walk is known exactly: a tidy path, the root
/// `/` or the empty path.
pub open spec fn walkable(d: Seq<char>) -> bool {
    tidy_path(d) || d == seq!['/'] || d.len() == 0
}

proof fn lemma_last_slash_bounds(p: Seq<char>)
    ensures
        -1 <= last_slash(p) < p.len(),
        last_slash(p) >= 0 ==> p[last_slash(p)] == '/',
        forall|j: int| last_slash(p) < j < p.len() ==> p[j] != '/',
    decreases p.len(),
{
    if p.len() > 0 && p.last() != '/' {
        let q = p.drop_last();
        lemma_last_slash_bounds(q);
        assert forall|j: int| last_slash(p) < j < p.len() implies p[j] != '/' by {
            if j < q.len() {
                assert(p[j] == q[j]);
            }
        }
    }
}

/// The parent of a tidy directory is a shorter prefix of it from which the
/// walk is again known exactly.
pub proof fn lemma_parent_of_tidy(p: Seq<char>)
    requires
        tidy_path(p),
    ensures
        parent_text(p).len() < p.len(),
        p.take(parent_text(p).len() as int) == parent_text(p),
        walkable(parent_text(p)),
{
    lemma_last_slash_bounds(p);
    let k = last_slash(p);
    if k == 0 {
        assert(p.take(1) =~= seq!['/']);
    } else if k > 0 {
        let q = p.take(k);
        assert forall|i: int| 0 <= i < q.len() implies q[i] != '\\' by {
            if q[i] == '\\' {
                assert(p[i] == '\\');
                assert(p.contains('\\'));
            }
        }
        assert forall|i: int| 0 <= i < q.len() implies q[i] != ':' by {
            if q[i] == ':' {
                assert(p[i] == ':');
                assert(p.contains(':'));
            }
        }
        assert(p[k] == '/');
        assert(p[k - 1] != '/');
        assert forall|i: int| 0 < i < q.len() && #[trigger] q[i] == '/' implies q[i - 1] != '/' by {
            assert(p[i] == '/');
        }
        assert forall|i: int|
            0 <= i < q.len() && #[trigger] q[i] == '.' && (i == 0 || q[i - 1] == '/') implies i + 1
            < q.len() && q[i + 1] != '/' by {
            assert(p[i] == '.');
        }
        assert(tidy_path(q));
    } else {
        assert(p.take(0) =~= Seq::<char>::empty());
    }
}

/// The directories the local-config walk visits from `d`: `d`, then, while
/// the directory is tidy, its parent, and so on; it ends at the first
/// directory that is not tidy (from a walkable start, the root or the empty
/// path).
pub open spec fn ancestors(d: Seq<char>) -> Seq<Seq<char>>
    decreases d.len(),
{
    if tidy_path(d) {
        proof {
            lemma_parent_of_tidy(d);
        }
        seq![d] + ancestors(parent_text(d))
    } else {
        seq![d]
    }
}

/// `a` is a strictly shorter prefix of `b`.
pub open spec fn shorter_prefix(a: Seq<char>, b: Seq<char>) -> bool {
    a.len() < b.len() && b.take(a.len() as int) == a
}

/// The local-config walk from a walkable directory visits that directory
/// and then each of its ancestors once, in order: each directory but the
/// last is tidy and followed by its parent, every later directory is a
/// strictly shorter prefix of every earlier one, and the walk ends at the
/// root `/` or the empty path, whose parent `LocalConfigWalk::advance`
/// finds to be none.
pub proof fn law_local_config_walk(start: Seq<char>)
    requires
        walkable(start),
    ensures
        ancestors(start).len() >= 1,
        ancestors(start)[0] == start,
        forall|i: int|
            0 <= i < ancestors(start).len() - 1 ==> tidy_path(#[trigger] ancestors(start)[i])
                && ancestors(start)[i + 1] == parent_text(ancestors(start)[i]),
        forall|i: int, j: int|
            0 <= i < j < ancestors(start).len() ==> shorter_prefix(
                #[trigger] ancestors(start)[j],
                #[trigger] ancestors(start)[i],
            ),
        ancestors(start).last().len() == 0 || ancestors(start).last() == seq!['/'],
    decreases start.len(),
{
    if tidy_path(start) {
        let q = parent_text(start);
        lemma_parent_of_tidy(start);
        law_local_config_walk(q);
        let a = ancestors(start);
        let b = ancestors(q);
        assert(a == seq![start] + b);
        assert forall|i: int| 0 <= i < a.len() - 1 implies tidy_path(#[trigger] a[i]) && a[i + 1]
            == parent_text(a[i]) by {
            if i > 0 {
                assert(a[i] == b[i - 1]);
                assert(a[i + 1] == b[i]);
            }
        }
        assert forall|i: int, j: int| 0 <= i < j < a.len() implies shorter_prefix(
            #[trigger] a[j],
            #[trigger] a[i],
        ) by {
            assert(a[j] == b[j - 1]);
            if i > 0 {
                assert(a[i] == b[i - 1]);
            } else if j > 1 {
                assert(shorter_prefix(b[j - 1], b[0]));
                assert(start.take(b[j - 1].len() as int) =~= start.take(q.len() as int).take(
                    b[j - 1].len() as int,
                ));
            }
        }
        assert(a.last() == b.last());
    }
}

proof fn lemma_walkable_not_verbatim(d: Seq<char>)
    requires
        walkable(d),
    ensures
        !is_verbatim(d),
{
    if d.len() >= 4 && tidy_path(d) && d[1] == '\\' {
        assert(d.contains('\\'));
    }
    if d.len() >= 4 && tidy_path(d) && d[0] == '\\' {
        assert(d.contains('\\'));
    }
}

/// The directories the local-config walk visits from `start_dir`, in order:
/// the directory itself first, each later one a strictly shorter prefix of
/// the one before, up to the one without a parent. From a walkable start
/// they are exactly [`ancestors`].
pub fn ancestor_dirs(start_dir: &str) -> (r: Vec<String>)
    ensures
        r@.len() >= 1,
        r@[0]@ == start_dir@,
        forall|i: int| 0 <= i < r@.len() - 1 ==> shorter_prefix(#[trigger] r@[i + 1]@, r@[i]@),
        walkable(start_dir@) ==> strings_view(r@) == ancestors(start_dir@),
{
    let mut out: Vec<String> = Vec::new();
    let mut cur = string_from_chars(chars_of(start_dir).as_slice());
    loop
        invariant_except_break
            out@.len() > 0 ==> shorter_prefix(cur@, out@.last()@),
            walkable(start_dir@) ==> walkable(cur@) && strings_view(out@) + ancestors(cur@) == ancestors(
                start_dir@,
            ),
        invariant
            out@.len() == 0 ==> cur@ == start_dir@,
            out@.len() > 0 ==> out@[0]@ == start_dir@,
            forall|i: int| 0 <= i < out@.len() - 1 ==> shorter_prefix(#[trigger] out@[i + 1]@, out@[i]@),
        ensures
            out@.len() >= 1,
            out@[0]@ == start_dir@,
            forall|i: int| 0 <= i < out@.len() - 1 ==> shorter_prefix(#[trigger] out@[i + 1]@, out@[i]@),
            walkable(start_dir@) ==> strings_view(out@) == ancestors(start_dir@),
        decreases cur@.len(),
    {
        let next = path_parent(cur.as_str());
        let ghost before = out@;
        let ghost c = cur@;
        out.push(string_from_chars(chars_of(cur.as_str()).as_slice()));
        assert(strings_view(out@) =~= strings_view(before).push(c));
        assert forall|i: int| 0 <= i < out@.len() - 1 implies shorter_prefix(
            #[trigger] out@[i + 1]@,
            out@[i]@,
        ) by {
            if i + 1 < before.len() {
                assert(out@[i] == before[i] && out@[i + 1] == before[i + 1]);
            } else {
                assert(out@[i] == before.last());
            }
        }
        proof {
            if tidy_path(c) {
                lemma_parent_of_tidy(c);
                assert(ancestors(c) == seq![c] + ancestors(parent_text(c)));
            } else {
                assert(ancestors(c) == seq![c]);
            }
        }
        match next {
            Some(p) => {
                proof {
                    if walkable(start_dir@) {
                        assert(strings_view(out@) + ancestors(p@) =~= strings_view(before) + ancestors(c));
                    }
                }
                cur = p;
            },
            None => {
                proof {
                    if walkable(start_dir@) {
                        assert(!tidy_path(c));
                        assert(strings_view(out@) =~= strings_view(before) + ancestors(c));
                    }
                }
                break;
            },
        }
    }
    out
}

/// The local config files to probe, in order: `.zenith.kdl` in each
/// directory the walk visits (see [`ancestor_dirs`]); from a walkable
/// start, one per directory of [`ancestors`], joined onto it.
pub fn local_config_candidates(start_dir: &str) -> (r: Vec<String>)
    ensures
        r@.len() >= 1,
        !is_verbatim(start_dir@) ==> joined(r@[0]@, start_dir@, local_config_name()),
        walkable(start_dir@) ==> r@.len() == ancestors(start_dir@).len() && forall|i: int|
            0 <= i < r@.len() ==> joined(#[trigger] r@[i]@, ancestors(start_dir@)[i], local_config_name()),
{
    let dirs = ancestor_dirs(start_dir);
    let mut out: Vec<String> = Vec::new();
    let mut i: usize = 0;
    proof {
        reveal_strlit(".zenith.kdl");
        let name = ".zenith.kdl"@;
        assert forall|k: int| 0 <= k < name.len() implies name[k] != ':' by {
            assert(name =~= seq!['.', 'z', 'e', 'n', 'i', 't', 'h', '.', 'k', 'd', 'l']);
        }
        assert(plain_component(name));
        if walkable(start_dir@) {
            law_local_config_walk(start_dir@);
            let a = ancestors(start_dir@);
            assert forall|k: int| 0 <= k < a.len() implies walkable(#[trigger] a[k]) by {
                if k < a.len() - 1 {
                    assert(tidy_path(a[k]));
                }
            }
        }
    }
    while i < dirs.len()
        invariant
            i <= dirs@.len(),
            out@.len() == i,
            dirs@.len() >= 1,
            dirs@[0]@ == start_dir@,
            ".zenith.kdl"@ == local_config_name(),
            plain_component(local_config_name()),
            forall|k: int| 0 <= k < i ==> !is_verbatim(dirs@[k]@) ==> joined(
                #[trigger] out@[k]@,
                dirs@[k]@,
                local_config_name(),
            ),
            walkable(start_dir@) ==> strings_view(dirs@) == ancestors(start_dir@),
            walkable(start_dir@) ==> forall|k: int|
                0 <= k < ancestors(start_dir@).len() ==> walkable(#[trigger] ancestors(start_dir@)[k]),
        decreases dirs@.len() - i,
    {
        out.push(path_join(dirs[i].as_str(), ".zenith.kdl"));
        i = i + 1;
    }
    proof {
        if walkable(start_dir@) {
            assert forall|k: int| 0 <= k < out@.len() implies joined(
                #[trigger] out@[k]@,
                ancestors(start_dir@)[k],
                local_config_name(),
            ) by {
                assert(dirs@[k]@ == strings_view(dirs@)[k]);
                lemma_walkable_not_verbatim(ancestors(start_dir@)[k]);
            }
        }
    }
    out
}

/// The global config file under the configuration directory `config_dir`:
/// `<config_dir>/zenith/config.kdl`.
pub fn global_config_path(config_dir: &str) -> (r: String)
    ensures
        !is_verbatim(config_dir@) ==> exists|mid: Seq<char>|
            #[trigger] joined(mid, config_dir@, "zenith"@) && (!is_verbatim(mid) ==> joined(
                r@,
                mid,
                "config.kdl"@,
            )),
{
    proof {
        reveal_strlit("zenith");
        reveal_strlit("config.kdl");
    }
    let dir = path_join(config_dir, "zenith");
    path_join(dir.as_str(), "config.kdl")
}

pub open spec fn invalid_config_message(path: Seq<char>, msg: Seq<char>) -> Seq<char> {
    "invalid config '"@ + path + "': "@ + msg
}

pub open spec fn unreadable_config_message(path: Seq<char>, reason: Seq<char>) -> Seq<char> {
    "cannot read config '"@ + path + "': "@ + reason
}

/// The policy held by the config file `path` with contents `bytes`, or
/// `invalid config '<path>': <reason>`.
pub fn policy_from_config(path: &str, bytes: &[u8]) -> (r: Result<DiagnosticPolicy, String>)
    ensures
        match r {
            Ok(p) => policy_source(bytes@) == Ok::<Seq<EntryView>, (ParseErrorCode, Seq<char>)>(p@),
            Err(m) => policy_source(bytes@) is Err && m@ == invalid_config_message(
                path@,
                policy_source(bytes@)->Err_0.1,
            ),
        },
{
    match parse_diagnostic_policy(bytes) {
        Ok(p) => Ok(p),
        Err(e) => {
            let mut m = String::new();
            m.append("invalid config '");
            m.append(path);
            m.append("': ");
            m.append(e.message.as_str());
            Err(m)
        },
    }
}

/// The message for a config file that exists but could not be read.
pub fn unreadable_config(path: &str, reason: &str) -> (r: String)
    ensures
        r@ == unreadable_config_message(path@, reason@),
{
    let mut m = String::new();
    m.append("cannot read config '");
    m.append(path);
    m.append("': ");
    m.append(reason);
    m
}

} // verus!
