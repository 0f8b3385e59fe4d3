//! `library list`: human-readable and JSON listings of resolved packs.

use vstd::prelude::*;
use crate::library::source_label;
use crate::library::pack_views;
use crate::library::LibraryPack;
use crate::library::PackView;
use crate::library::item_ids;
use crate::text::chars_of;
use crate::text::extend_chars;
use crate::text::join;
use crate::text::join_chars;
use crate::text::string_from_chars;
use crate::text::split;
use crate::markdown::{lemma_split_join, no_newline};
use crate::library::SourceView;

verus! {

/// The lowercase hexadecimal digit for `n` (below 16; `f` above).
pub open spec fn hex_digit(n: int) -> char {
    if n == 0 {
        '0'
    } else if n == 1 {
        '1'
    } else if n == 2 {
        '2'
    } else if n == 3 {
        '3'
    } else if n == 4 {
        '4'
    } else if n == 5 {
        '5'
    } else if n == 6 {
        '6'
    } else if n == 7 {
        '7'
    } else if n == 8 {
        '8'
    } else if n == 9 {
        '9'
    } else if n == 10 {
        'a'
    } else if n == 11 {
        'b'
    } else if n == 12 {
        'c'
    } else if n == 13 {
        'd'
    } else if n == 14 {
        'e'
    } else {
        'f'
    }
}

/// How `serde_json` writes one character inside a string literal: `"` and
/// `\` behind a backslash; backspace, form feed, newline, carriage return
/// and tab as `\b`, `\f`, `\n`, `\r`, `\t`; any other character below
/// U+0020 as `\u00` and two lowercase hex digits; everything else as is.
pub open spec fn json_escaped_char(c: char) -> Seq<char> {
    if c == '"' {
        seq!['\\', '"']
    } else if c == '\\' {
        seq!['\\', '\\']
    } else if c == '\u{8}' {
        seq!['\\', 'b']
    } else if c == '\u{c}' {
        seq!['\\', 'f']
    } else if c == '\n' {
        seq!['\\', 'n']
    } else if c == '\r' {
        seq!['\\', 'r']
    } else if c == '\t' {
        seq!['\\', 't']
    } else if (c as int) < 32 {
        seq!['\\', 'u', '0', '0', hex_digit((c as int) / 16), hex_digit((c as int) % 16)]
    } else {
        seq![c]
    }
}

/// The characters of `s`, each escaped.
pub open spec fn json_escaped(s: Seq<char>) -> Seq<char>
    decreases s.len(),
{
    if s.len() == 0 {
        Seq::empty()
    } else {
        json_escaped(s.drop_last()) + json_escaped_char(s.last())
    }
}

/// The JSON string literal for `s`, as `serde_json` writes it: the escaped
/// characters between double quotes.
pub open spec fn json_quoted(s: Seq<char>) -> Seq<char> {
    seq!['"'] + json_escaped(s) + seq!['"']
}

/// The lowercase hexadecimal digit for `n`.
fn hex_char(n: u32) -> (c: char)
    requires
        n < 16,
    ensures
        c == hex_digit(n as int),
{
    if n == 0 {
        '0'
    } else if n == 1 {
        '1'
    } else if n == 2 {
        '2'
    } else if n == 3 {
        '3'
    } else if n == 4 {
        '4'
    } else if n == 5 {
        '5'
    } else if n == 6 {
        '6'
    } else if n == 7 {
        '7'
    } else if n == 8 {
        '8'
    } else if n == 9 {
        '9'
    } else if n == 10 {
        'a'
    } else if n == 11 {
        'b'
    } else if n == 12 {
        'c'
    } else if n == 13 {
        'd'
    } else if n == 14 {
        'e'
    } else {
        'f'
    }
}

/// How one character is written inside a JSON string literal.
fn escape_char(c: char) -> (r: Vec<char>)
    ensures
        r@ == json_escaped_char(c),
{
    if c == '"' {
        vec!['\\', '"']
    } else if c == '\\' {
        vec!['\\', '\\']
    } else if c == '\u{8}' {
        vec!['\\', 'b']
    } else if c == '\u{c}' {
        vec!['\\', 'f']
    } else if c == '\n' {
        vec!['\\', 'n']
    } else if c == '\r' {
        vec!['\\', 'r']
    } else if c == '\t' {
        vec!['\\', 't']
    } else if (c as u32) < 32 {
        let n = c as u32;
        vec!['\\', 'u', '0', '0', hex_char(n / 16), hex_char(n % 16)]
    } else {
        vec![c]
    }
}

/// The JSON string literal for `s`, quoted and escaped as `serde_json`
/// writes a `str` (the escape table of its `format_escaped_str`).
pub(crate) fn json_quote(s: &str) -> (r: String)
    ensures
        r@ == json_quoted(s@),
{
    let cs = chars_of(s);
    let mut out: Vec<char> = Vec::new();
    out.push('"');
    let mut i: usize = 0;
    assert(cs@.take(0) =~= Seq::<char>::empty());
    while i < cs.len()
        invariant
            i <= cs@.len(),
            cs@ == s@,
            out@ == seq!['"'] + json_escaped(cs@.take(i as int)),
        decreases cs@.len() - i,
    {
        let e = escape_char(cs[i]);
        extend_chars(&mut out, e.as_slice());
        assert(cs@.take(i + 1).drop_last() =~= cs@.take(i as int));
        assert(cs@.take(i + 1).last() == cs@[i as int]);
        i = i + 1;
    }
    assert(cs@.take(i as int) =~= cs@);
    out.push('"');
    string_from_chars(out.as_slice())
}

// ── Human listing ───────────────────────────────────────────────────────────

/// `<id>  <version or ->  [<source>]`.
pub open spec fn pack_header(p: PackView) -> Seq<char> {
    p.id + "  "@ + match p.version {
        Some(v) => v,
        None => "-"@,
    } + "  ["@ + source_label(p.source) + "]"@
}

/// The header line of a pack followed by one `  #<item>` line per item.
pub open spec fn pack_lines(p: PackView) -> Seq<Seq<char>> {
    seq![pack_header(p)] + item_ids(p.items).map_values(|it: Seq<char>| "  #"@ + it)
}

/// The lines of the first `n` packs.
pub open spec fn listing_lines(ps: Seq<PackView>, n: int) -> Seq<Seq<char>>
    decreases n,
{
    if n <= 0 {
        Seq::empty()
    } else {
        listing_lines(ps, n - 1) + pack_lines(ps[n - 1])
    }
}

/// The human listing: `no libraries found`, or every pack's lines joined
/// with newlines.
pub open spec fn human_listing(ps: Seq<PackView>) -> Seq<char> {
    if ps.len() == 0 {
        "no libraries found"@
    } else {
        join(listing_lines(ps, ps.len() as int), seq!['\n'])
    }
}

fn nl() -> (v: Vec<char>)
    ensures
        v@ == seq!['\n'],
{
    let mut v = Vec::new();
    v.push('\n');
    assert(v@ =~= seq!['\n']);
    v
}

fn push_line(lines: &mut Vec<Vec<char>>, line: Vec<char>)
    ensures
        final(lines)@.map_values(|l: Vec<char>| l@) == old(lines)@.map_values(|l: Vec<char>| l@).push(
            line@,
        ),
{
    let ghost before = lines@;
    lines.push(line);
    assert(lines@.map_values(|l: Vec<char>| l@) =~= before.map_values(|l: Vec<char>| l@).push(
        line@,
    ));
}

/// Human-readable listing of `packs`.
fn format_human(packs: &[LibraryPack]) -> (r: String)
    ensures
        r@ == human_listing(pack_views(packs@)),
{
    if packs.len() == 0 {
        return string_from_chars(chars_of("no libraries found").as_slice());
    }
    let ghost ps = pack_views(packs@);
    let mut lines: Vec<Vec<char>> = Vec::new();
    assert(lines@.map_values(|l: Vec<char>| l@) =~= listing_lines(ps, 0));
    let mut i: usize = 0;
    while i < packs.len()
        invariant
            i <= packs.len(),
            ps == pack_views(packs@),
            lines@.map_values(|l: Vec<char>| l@) == listing_lines(ps, i as int),
        decreases packs.len() - i,
    {
        let pack = &packs[i];
        let ghost start = lines@.map_values(|l: Vec<char>| l@);
        let mut header = chars_of(pack.id.as_str());
        extend_chars(&mut header, chars_of("  ").as_slice());
        match &pack.version {
            Some(v) => extend_chars(&mut header, chars_of(v.as_str()).as_slice()),
            None => extend_chars(&mut header, chars_of("-").as_slice()),
        }
        extend_chars(&mut header, chars_of("  [").as_slice());
        extend_chars(&mut header, chars_of(pack.source.label()).as_slice());
        extend_chars(&mut header, chars_of("]").as_slice());
        push_line(&mut lines, header);
        let ghost items = item_ids(ps[i as int].items);
        let mut j: usize = 0;
        while j < pack.items.len()
            invariant
                j <= pack.items.len(),
                items == item_ids(ps[i as int].items),
                items.len() == pack.items@.len(),
                forall|k: int| 0 <= k < items.len() ==> items[k] == #[trigger] pack.items@[k].id@,
                lines@.map_values(|l: Vec<char>| l@) == start + seq![pack_header(ps[i as int])]
                    + items.take(j as int).map_values(|it: Seq<char>| "  #"@ + it),
            decreases pack.items.len() - j,
        {
            let mut line = chars_of("  #");
            extend_chars(&mut line, chars_of(pack.items[j].id.as_str()).as_slice());
            push_line(&mut lines, line);
            j = j + 1;
            assert(items.take(j as int).map_values(|it: Seq<char>| "  #"@ + it) =~= items.take(
                j - 1,
            ).map_values(|it: Seq<char>| "  #"@ + it).push("  #"@ + items[j - 1]));
        }
        assert(items.take(j as int) == items);
        i = i + 1;
        assert(listing_lines(ps, i as int) == listing_lines(ps, i - 1) + pack_lines(ps[i - 1]));
    }
    let sep = nl();
    let text = join_chars(&lines, sep.as_slice());
    string_from_chars(text.as_slice())
}

// ── JSON listing ────────────────────────────────────────────────────────────

/// `line` followed by a comma unless it is the last of its list.
pub open spec fn with_comma(line: Seq<char>, last: bool) -> Seq<char> {
    if last {
        line
    } else {
        line + ","@
    }
}

/// The first `n` item lines of a pack's `items` array.
pub open spec fn item_lines(items: Seq<Seq<char>>, n: int) -> Seq<Seq<char>>
    decreases n,
{
    if n <= 0 {
        Seq::empty()
    } else {
        item_lines(items, n - 1).push(
            with_comma("        "@ + json_quoted(items[n - 1]), n - 1 == items.len() - 1),
        )
    }
}

/// The lines of one pack object; `last` drops the comma after it.
pub open spec fn pack_json_lines(p: PackView, last: bool) -> Seq<Seq<char>> {
    seq![
        "    {"@,
        "      \"id\": "@ + json_quoted(p.id) + ","@,
        "      \"version\": "@ + match p.version {
            Some(v) => json_quoted(v),
            None => "null"@,
        } + ","@,
        "      \"source\": \""@ + source_label(p.source) + "\","@,
    ] + if item_ids(p.items).len() == 0 {
        seq!["      \"items\": []"@]
    } else {
        seq!["      \"items\": ["@] + item_lines(item_ids(p.items), p.items.len() as int) + seq!["      ]"@]
    } + seq![with_comma("    }"@, last)]
}

/// The lines of the first `n` pack objects.
pub open spec fn packs_json_lines(ps: Seq<PackView>, n: int) -> Seq<Seq<char>>
    decreases n,
{
    if n <= 0 {
        Seq::empty()
    } else {
        packs_json_lines(ps, n - 1) + pack_json_lines(ps[n - 1], n - 1 == ps.len() - 1)
    }
}

/// The `zenith-library-v1` JSON document, pretty-printed with two-space
/// indentation.
pub open spec fn json_listing(ps: Seq<PackView>) -> Seq<char> {
    join(
        seq!["{"@, "  \"schema\": \"zenith-library-v1\","@] + if ps.len() == 0 {
            seq!["  \"packs\": []"@]
        } else {
            seq!["  \"packs\": ["@] + packs_json_lines(ps, ps.len() as int) + seq!["  ]"@]
        } + seq!["}"@],
        seq!['\n'],
    )
}

spec fn lines_view(lines: Seq<Vec<char>>) -> Seq<Seq<char>> {
    lines.map_values(|l: Vec<char>| l@)
}

fn push_text(lines: &mut Vec<Vec<char>>, s: &str)
    ensures
        final(lines)@.map_values(|l: Vec<char>| l@) == old(lines)@.map_values(|l: Vec<char>| l@).push(
            s@,
        ),
{
    push_line(lines, chars_of(s));
}

proof fn lemma_item_lines_len(items: Seq<Seq<char>>, n: int)
    requires
        0 <= n,
    ensures
        item_lines(items, n).len() == n,
    decreases n,
{
    if n > 0 {
        lemma_item_lines_len(items, n - 1);
    }
}

fn push_pack_json(lines: &mut Vec<Vec<char>>, pack: &LibraryPack, last: bool)
    ensures
        final(lines)@.map_values(|l: Vec<char>| l@) == old(lines)@.map_values(|l: Vec<char>| l@)
            + pack_json_lines(pack@, last),
{
    let ghost start = lines@.map_values(|l: Vec<char>| l@);
    let ghost p = pack@;
    push_text(lines, "    {");
    let mut id_line = chars_of("      \"id\": ");
    extend_chars(&mut id_line, chars_of(json_quote(pack.id.as_str()).as_str()).as_slice());
    extend_chars(&mut id_line, chars_of(",").as_slice());
    push_line(lines, id_line);
    let mut v_line = chars_of("      \"version\": ");
    match &pack.version {
        Some(v) => extend_chars(&mut v_line, chars_of(json_quote(v.as_str()).as_str()).as_slice()),
        None => extend_chars(&mut v_line, chars_of("null").as_slice()),
    }
    extend_chars(&mut v_line, chars_of(",").as_slice());
    push_line(lines, v_line);
    let mut s_line = chars_of("      \"source\": \"");
    extend_chars(&mut s_line, chars_of(pack.source.label()).as_slice());
    extend_chars(&mut s_line, chars_of("\",").as_slice());
    push_line(lines, s_line);
    let ghost mid = lines@.map_values(|l: Vec<char>| l@);
    let ghost head = seq![
        "    {"@,
        "      \"id\": "@ + json_quoted(p.id) + ","@,
        "      \"version\": "@ + match p.version {
            Some(v) => json_quoted(v),
            None => "null"@,
        } + ","@,
        "      \"source\": \""@ + source_label(p.source) + "\","@,
    ];
    assert(mid =~= start + head);
    let ghost items = item_ids(p.items);
    let ghost items_part = if items.len() == 0 {
        seq!["      \"items\": []"@]
    } else {
        seq!["      \"items\": ["@] + item_lines(items, items.len() as int) + seq!["      ]"@]
    };
    if pack.items.len() == 0 {
        push_text(lines, "      \"items\": []");
        assert(lines@.map_values(|l: Vec<char>| l@) =~= mid + items_part);
    } else {
        push_text(lines, "      \"items\": [");
        let ghost open_at = lines@.map_values(|l: Vec<char>| l@);
        let n = pack.items.len();
        let mut j: usize = 0;
        while j < n
            invariant
                j <= n,
                n == pack.items@.len(),
                items == item_ids(p.items),
                p == pack@,
                items.len() == n,
                forall|k: int| 0 <= k < n ==> items[k] == #[trigger] pack.items@[k].id@,
                lines@.map_values(|l: Vec<char>| l@) == open_at + item_lines(items, j as int),
            decreases n - j,
        {
            let mut line = chars_of("        ");
            extend_chars(&mut line, chars_of(json_quote(pack.items[j].id.as_str()).as_str()).as_slice());
            if j + 1 < n {
                extend_chars(&mut line, chars_of(",").as_slice());
            }
            push_line(lines, line);
            j = j + 1;
        }
        push_text(lines, "      ]");
        assert(lines@.map_values(|l: Vec<char>| l@) =~= mid + items_part);
    }
    let ghost before_close = lines@.map_values(|l: Vec<char>| l@);
    assert(before_close == mid + items_part);
    if last {
        push_text(lines, "    }");
    } else {
        push_text(lines, "    },");
        proof {
            reveal_strlit("    },");
            reveal_strlit("    }");
            reveal_strlit(",");
            assert("    },"@ =~= "    }"@ + ","@);
        }
    }
    assert(lines@.map_values(|l: Vec<char>| l@) =~= before_close.push(with_comma("    }"@, last)));
    assert(lines@.map_values(|l: Vec<char>| l@) =~= start + pack_json_lines(p, last));
}

fn format_json(packs: &[LibraryPack]) -> (r: String)
    ensures
        r@ == json_listing(pack_views(packs@)),
{
    let ghost ps = pack_views(packs@);
    let mut lines: Vec<Vec<char>> = Vec::new();
    push_text(&mut lines, "{");
    push_text(&mut lines, "  \"schema\": \"zenith-library-v1\",");
    if packs.len() == 0 {
        push_text(&mut lines, "  \"packs\": []");
    } else {
        push_text(&mut lines, "  \"packs\": [");
        let ghost open_at = lines@.map_values(|l: Vec<char>| l@);
        let mut i: usize = 0;
        while i < packs.len()
            invariant
                i <= packs.len(),
                ps == pack_views(packs@),
                lines@.map_values(|l: Vec<char>| l@) == open_at + packs_json_lines(ps, i as int),
            decreases packs.len() - i,
        {
            push_pack_json(&mut lines, &packs[i], i + 1 == packs.len());
            i = i + 1;
        }
        push_text(&mut lines, "  ]");
    }
    push_text(&mut lines, "}");
    let sep = nl();
    assert(lines@.map_values(|l: Vec<char>| l@) =~= seq!["{"@, "  \"schema\": \"zenith-library-v1\","@]
        + if ps.len() == 0 {
        seq!["  \"packs\": []"@]
    } else {
        seq!["  \"packs\": ["@] + packs_json_lines(ps, ps.len() as int) + seq!["  ]"@]
    } + seq!["}"@]);
    let text = join_chars(&lines, sep.as_slice());
    string_from_chars(text.as_slice())
}

/// Render the resolved `packs` for `library list`: the human listing, or
/// with `json` the `zenith-library-v1` document.
pub fn list(packs: &[LibraryPack], json: bool) -> (r: String)
    ensures
        r@ == if json {
            json_listing(pack_views(packs@))
        } else {
            human_listing(pack_views(packs@))
        },
{
    if json {
        format_json(packs)
    } else {
        format_human(packs)
    }
}


// ── The JSON listing separates its pack objects ─────────────────────────────

/// The line that closes a pack object: four spaces and `}`.
pub open spec fn object_close() -> Seq<char> {
    seq![' ', ' ', ' ', ' ', '}']
}

/// A line that closes a pack object, with or without a comma after it.
pub open spec fn closes_object(l: Seq<char>) -> bool {
    l.len() >= 5 && l.take(5) == object_close()
}

/// The lines of `ls` that close a pack object, in order.
pub open spec fn object_closing_lines(ls: Seq<Seq<char>>) -> Seq<Seq<char>>
    decreases ls.len(),
{
    if ls.len() == 0 {
        Seq::empty()
    } else {
        object_closing_lines(ls.drop_last()) + if closes_object(ls.last()) {
            seq![ls.last()]
        } else {
            Seq::empty()
        }
    }
}

proof fn lemma_closing_concat(a: Seq<Seq<char>>, b: Seq<Seq<char>>)
    ensures
        object_closing_lines(a + b) == object_closing_lines(a) + object_closing_lines(b),
    decreases b.len(),
{
    if b.len() == 0 {
        assert(a + b =~= a);
        assert(object_closing_lines(a) + Seq::<Seq<char>>::empty() =~= object_closing_lines(a));
    } else {
        lemma_closing_concat(a, b.drop_last());
        assert((a + b).drop_last() =~= a + b.drop_last());
        assert((a + b).last() == b.last());
        let t = if closes_object(b.last()) {
            seq![b.last()]
        } else {
            Seq::<Seq<char>>::empty()
        };
        assert(object_closing_lines(a) + object_closing_lines(b.drop_last()) + t =~= object_closing_lines(a)
            + (object_closing_lines(b.drop_last()) + t));
    }
}

proof fn lemma_closing_none(ls: Seq<Seq<char>>)
    requires
        forall|k: int| 0 <= k < ls.len() ==> !closes_object(#[trigger] ls[k]),
    ensures
        object_closing_lines(ls) == Seq::<Seq<char>>::empty(),
    decreases ls.len(),
{
    if ls.len() > 0 {
        assert forall|k: int| 0 <= k < ls.drop_last().len() implies !closes_object(
            #[trigger] ls.drop_last()[k],
        ) by {
            assert(ls.drop_last()[k] == ls[k]);
        }
        lemma_closing_none(ls.drop_last());
        assert(!closes_object(ls[ls.len() - 1]));
    }
}

proof fn lemma_escaped_no_newline(s: Seq<char>)
    ensures
        no_newline(json_escaped(s)),
    decreases s.len(),
{
    if s.len() > 0 {
        lemma_escaped_no_newline(s.drop_last());
        let a = json_escaped(s.drop_last());
        let b = json_escaped_char(s.last());
        let c = s.last() as int;
        assert(hex_digit(c / 16) != '\n' && hex_digit(c % 16) != '\n');
        assert(no_newline(b));
        assert forall|i: int| 0 <= i < (a + b).len() implies (a + b)[i] != '\n' by {
            if i < a.len() {
                assert((a + b)[i] == a[i]);
            } else {
                assert((a + b)[i] == b[i - a.len()]);
            }
        }
    }
}

proof fn lemma_no_newline_concat(a: Seq<char>, b: Seq<char>)
    requires
        no_newline(a),
        no_newline(b),
    ensures
        no_newline(a + b),
{
    assert forall|i: int| 0 <= i < (a + b).len() implies (a + b)[i] != '\n' by {
        if i < a.len() {
            assert((a + b)[i] == a[i]);
        } else {
            assert((a + b)[i] == b[i - a.len()]);
        }
    }
}

proof fn lemma_quoted_no_newline(s: Seq<char>)
    ensures
        no_newline(json_quoted(s)),
{
    lemma_escaped_no_newline(s);
    lemma_no_newline_concat(seq!['"'], json_escaped(s));
    lemma_no_newline_concat(seq!['"'] + json_escaped(s), seq!['"']);
}

/// `a + b` with `a` of at least five characters closes an object only when
/// `a` starts like a closing line.
proof fn lemma_prefix_decides(a: Seq<char>, b: Seq<char>)
    requires
        a.len() >= 5,
        a[4] != '}',
    ensures
        !closes_object(a + b),
{
    assert((a + b)[4] == a[4]);
    if closes_object(a + b) {
        assert((a + b).take(5)[4] == '}');
    }
}

proof fn lemma_literals()
    ensures
        no_newline(","@),
        no_newline("null"@),
        no_newline("preset"@),
        no_newline("project"@),
        no_newline("\","@),
        no_newline("        "@),
        "        "@.len() == 8 && "        "@[4] == ' ',
        no_newline("    {"@) && !closes_object("    {"@),
        no_newline("      \"id\": "@) && "      \"id\": "@.len() >= 5 && "      \"id\": "@[4] == ' ',
        no_newline("      \"version\": "@) && "      \"version\": "@.len() >= 5 && "      \"version\": "@[4]
            == ' ',
        no_newline("      \"source\": \""@) && "      \"source\": \""@.len() >= 5
            && "      \"source\": \""@[4] == ' ',
        no_newline("      \"items\": []"@) && !closes_object("      \"items\": []"@),
        no_newline("      \"items\": ["@) && !closes_object("      \"items\": ["@),
        no_newline("      ]"@) && !closes_object("      ]"@),
        "    }"@ == object_close(),
        no_newline("{"@) && !closes_object("{"@),
        no_newline("  \"schema\": \"zenith-library-v1\","@) && !closes_object(
            "  \"schema\": \"zenith-library-v1\","@,
        ),
        no_newline("  \"packs\": []"@) && !closes_object("  \"packs\": []"@),
        no_newline("  \"packs\": ["@) && !closes_object("  \"packs\": ["@),
        no_newline("  ]"@) && !closes_object("  ]"@),
        no_newline("}"@) && !closes_object("}"@),
{
    reveal_strlit(",");
    reveal_strlit("null");
    reveal_strlit("preset");
    reveal_strlit("project");
    reveal_strlit("\",");
    reveal_strlit("        ");
    reveal_strlit("    {");
    reveal_strlit("      \"id\": ");
    reveal_strlit("      \"version\": ");
    reveal_strlit("      \"source\": \"");
    reveal_strlit("      \"items\": []");
    reveal_strlit("      \"items\": [");
    reveal_strlit("      ]");
    reveal_strlit("    }");
    reveal_strlit("{");
    reveal_strlit("  \"schema\": \"zenith-library-v1\",");
    reveal_strlit("  \"packs\": []");
    reveal_strlit("  \"packs\": [");
    reveal_strlit("  ]");
    reveal_strlit("}");
    assert("    {"@.take(5)[4] == '{');
    assert("      \"items\": []"@.take(5)[4] == ' ');
    assert("      \"items\": ["@.take(5)[4] == ' ');
    assert("      ]"@.take(5)[4] == ' ');
    assert("  \"schema\": \"zenith-library-v1\","@.take(5)[4] == 'c');
    assert("  \"packs\": []"@.take(5)[4] == 'a');
    assert("  \"packs\": ["@.take(5)[4] == 'a');
    assert("    }"@ =~= object_close());
}

proof fn lemma_item_lines(items: Seq<Seq<char>>, n: int)
    requires
        0 <= n <= items.len(),
    ensures
        item_lines(items, n).len() == n,
        forall|k: int|
            0 <= k < n ==> no_newline(#[trigger] item_lines(items, n)[k]) && !closes_object(
                item_lines(items, n)[k],
            ),
    decreases n,
{
    if n > 0 {
        lemma_item_lines(items, n - 1);
        lemma_literals();
        let q = json_quoted(items[n - 1]);
        lemma_quoted_no_newline(items[n - 1]);
        lemma_no_newline_concat("        "@, q);
        lemma_no_newline_concat("        "@ + q, ","@);
        lemma_prefix_decides("        "@, q);
        lemma_prefix_decides("        "@, q + ","@);
        assert("        "@ + q + ","@ =~= "        "@ + (q + ","@));
        let prev = item_lines(items, n - 1);
        let line = with_comma("        "@ + q, n - 1 == items.len() - 1);
        assert forall|k: int| 0 <= k < n implies no_newline(#[trigger] item_lines(items, n)[k])
            && !closes_object(item_lines(items, n)[k]) by {
            if k < n - 1 {
                assert(item_lines(items, n)[k] == prev[k]);
            } else {
                assert(item_lines(items, n)[k] == line);
            }
        }
    }
}

proof fn lemma_seq_lines(ls: Seq<Seq<char>>)
    requires
        forall|k: int| 0 <= k < ls.len() ==> no_newline(#[trigger] ls[k]) && !closes_object(ls[k]),
    ensures
        object_closing_lines(ls) == Seq::<Seq<char>>::empty(),
{
    lemma_closing_none(ls);
}

proof fn lemma_pack_lines(p: PackView, last: bool)
    ensures
        forall|k: int| 0 <= k < pack_json_lines(p, last).len() ==> no_newline(
            #[trigger] pack_json_lines(p, last)[k],
        ),
        object_closing_lines(pack_json_lines(p, last)) == seq![with_comma(object_close(), last)],
{
    lemma_literals();
    let qi = json_quoted(p.id);
    lemma_quoted_no_newline(p.id);
    let vq = match p.version {
        Some(v) => json_quoted(v),
        None => "null"@,
    };
    match p.version {
        Some(v) => lemma_quoted_no_newline(v),
        None => {},
    }
    let lbl = source_label(p.source);
    let l1 = "      \"id\": "@ + qi + ","@;
    let l2 = "      \"version\": "@ + vq + ","@;
    let l3 = "      \"source\": \""@ + lbl + "\","@;
    lemma_no_newline_concat("      \"id\": "@, qi);
    lemma_no_newline_concat("      \"id\": "@ + qi, ","@);
    lemma_no_newline_concat("      \"version\": "@, vq);
    lemma_no_newline_concat("      \"version\": "@ + vq, ","@);
    lemma_no_newline_concat("      \"source\": \""@, lbl);
    lemma_no_newline_concat("      \"source\": \""@ + lbl, "\","@);
    assert(l1 =~= "      \"id\": "@ + (qi + ","@));
    assert(l2 =~= "      \"version\": "@ + (vq + ","@));
    assert(l3 =~= "      \"source\": \""@ + (lbl + "\","@));
    lemma_prefix_decides("      \"id\": "@, qi + ","@);
    lemma_prefix_decides("      \"version\": "@, vq + ","@);
    lemma_prefix_decides("      \"source\": \""@, lbl + "\","@);
    let head = seq!["    {"@, l1, l2, l3];
    let ids = item_ids(p.items);
    let mid = if ids.len() == 0 {
        seq!["      \"items\": []"@]
    } else {
        seq!["      \"items\": ["@] + item_lines(ids, p.items.len() as int) + seq!["      ]"@]
    };
    let close = with_comma("    }"@, last);
    assert(pack_json_lines(p, last) == head + mid + seq![close]);
    assert(ids.len() == p.items.len());
    lemma_item_lines(ids, ids.len() as int);
    let body = head + mid;
    assert forall|k: int| 0 <= k < body.len() implies no_newline(#[trigger] body[k]) && !closes_object(
        body[k],
    ) by {
        if k >= head.len() && ids.len() > 0 {
            let j = k - head.len();
            if 1 <= j < 1 + ids.len() {
                assert(mid[j] == item_lines(ids, ids.len() as int)[j - 1]);
            }
        }
    }
    lemma_closing_none(body);
    lemma_no_newline_concat("    }"@, ","@);
    assert(close.len() >= 5 && close.take(5) == object_close()) by {
        if !last {
            assert(("    }"@ + ","@).take(5) =~= "    }"@);
        }
    }
    lemma_closing_concat(body, seq![close]);
    assert(seq![close].drop_last() =~= Seq::<Seq<char>>::empty());
    assert(object_closing_lines(seq![close].drop_last()) == Seq::<Seq<char>>::empty());
    assert(closes_object(seq![close].last()));
    assert(object_closing_lines(seq![close]) =~= seq![close]);
    assert(Seq::<Seq<char>>::empty() + seq![close] =~= seq![close]);
    assert forall|k: int| 0 <= k < pack_json_lines(p, last).len() implies no_newline(
        #[trigger] pack_json_lines(p, last)[k],
    ) by {
        if k < body.len() {
            assert(pack_json_lines(p, last)[k] == body[k]);
        } else {
            assert(pack_json_lines(p, last)[k] == close);
            if !last {
                assert(close == "    }"@ + ","@);
            }
        }
    }
}

/// The closing line of each of the first `n` of `ps`'s pack objects: a
/// comma after every one but the last pack's.
pub open spec fn expected_closers(ps: Seq<PackView>, n: int) -> Seq<Seq<char>> {
    Seq::new(
        n as nat,
        |i: int|
            if i + 1 == ps.len() {
                object_close()
            } else {
                object_close() + seq![',']
            },
    )
}

proof fn lemma_packs_lines(ps: Seq<PackView>, n: int)
    requires
        0 <= n <= ps.len(),
    ensures
        forall|k: int| 0 <= k < packs_json_lines(ps, n).len() ==> no_newline(
            #[trigger] packs_json_lines(ps, n)[k],
        ),
        object_closing_lines(packs_json_lines(ps, n)) == expected_closers(ps, n),
    decreases n,
{
    if n == 0 {
        assert(expected_closers(ps, 0) =~= Seq::<Seq<char>>::empty());
    } else {
        lemma_packs_lines(ps, n - 1);
        let last = n - 1 == ps.len() - 1;
        lemma_pack_lines(ps[n - 1], last);
        let a = packs_json_lines(ps, n - 1);
        let b = pack_json_lines(ps[n - 1], last);
        lemma_closing_concat(a, b);
        lemma_literals();
        reveal_strlit(",");
        assert(with_comma(object_close(), last) == if last {
            object_close()
        } else {
            object_close() + seq![',']
        }) by {
            assert(","@ =~= seq![',']);
        }
        assert(expected_closers(ps, n) =~= expected_closers(ps, n - 1) + seq![
            with_comma(object_close(), last),
        ]);
        assert forall|k: int| 0 <= k < (a + b).len() implies no_newline(#[trigger] (a + b)[k]) by {
            if k < a.len() {
                assert((a + b)[k] == a[k]);
            } else {
                assert((a + b)[k] == b[k - a.len()]);
            }
        }
    }
}

/// The JSON listing keeps its pack objects apart: read as lines, it holds
/// exactly one object-closing line per pack, in order, and each of them but
/// the last pack's ends with a comma, as a JSON array of objects needs.
pub proof fn law_json_listing_closes_each_pack_once(ps: Seq<PackView>)
    ensures
        object_closing_lines(split(json_listing(ps), '\n')) == expected_closers(ps, ps.len() as int),
{
    lemma_literals();
    let head = seq!["{"@, "  \"schema\": \"zenith-library-v1\","@];
    let tail = seq!["}"@];
    let lines = head + if ps.len() == 0 {
        seq!["  \"packs\": []"@]
    } else {
        seq!["  \"packs\": ["@] + packs_json_lines(ps, ps.len() as int) + seq!["  ]"@]
    } + tail;
    assert(json_listing(ps) == join(lines, seq!['\n']));
    if ps.len() == 0 {
        assert(lines =~= seq!["{"@, "  \"schema\": \"zenith-library-v1\","@, "  \"packs\": []"@, "}"@]);
        assert forall|k: int| 0 <= k < lines.len() implies no_newline(#[trigger] lines[k]) && !closes_object(
            lines[k],
        ) by {}
        lemma_split_join(lines);
        lemma_closing_none(lines);
        assert(expected_closers(ps, 0) =~= Seq::<Seq<char>>::empty());
    } else {
        let pl = packs_json_lines(ps, ps.len() as int);
        lemma_packs_lines(ps, ps.len() as int);
        let pre = seq!["{"@, "  \"schema\": \"zenith-library-v1\","@, "  \"packs\": ["@];
        let post = seq!["  ]"@, "}"@];
        assert(lines =~= pre + pl + post);
        assert forall|k: int| 0 <= k < lines.len() implies no_newline(#[trigger] lines[k]) by {
            if 3 <= k < 3 + pl.len() {
                assert(lines[k] == pl[k - 3]);
            }
        }
        lemma_split_join(lines);
        assert forall|k: int| 0 <= k < pre.len() implies !closes_object(#[trigger] pre[k]) by {}
        assert forall|k: int| 0 <= k < post.len() implies !closes_object(#[trigger] post[k]) by {}
        lemma_closing_none(pre);
        lemma_closing_none(post);
        lemma_closing_concat(pre, pl);
        lemma_closing_concat(pre + pl, post);
        assert(Seq::<Seq<char>>::empty() + object_closing_lines(pl) + Seq::<Seq<char>>::empty()
            =~= object_closing_lines(pl));
    }
}

} // verus!
