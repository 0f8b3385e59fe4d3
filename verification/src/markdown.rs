//! Block-level markdown: turns a multi-line string into a flat list of
//! [`MdBlock`]s.
//!
//! Supported block syntax: ATX headings (`#` … `######`), paragraphs
//! (consecutive non-blank lines, joined with a space), blockquotes (`>` lines,
//! joined with a space), list items (`-`, `*`, `+` or `N.` markers; two leading
//! spaces per depth level), fenced code blocks (```` ``` ````, raw content) and
//! horizontal rules (three or more `-`, `*` or `_`, optionally spaced).
//! Everything else degrades to a paragraph; nothing is ever an error.
//!
//! The behaviour is stated as a line-by-line state machine over spec values
//! ([`step`]), and [`parse_block_markdown`] is proved to produce exactly the
//! blocks that machine yields.

use vstd::prelude::*;
use vstd::slice::slice_subrange;
use vstd::slice::slice_to_vec;
use crate::inline::parse_inline_markdown;
use crate::inline::inline_spans;
use crate::inline::span_views;
use crate::inline::SpanView;
use crate::inline::TextSpan;
use crate::text::chars_of;
use crate::text::join;
use crate::text::join_chars;
use crate::text::split;
use crate::text::split_from;
use crate::text::split_chars;
use crate::text::string_from_chars;
use crate::text::trim;
use crate::text::trim_chars;
use crate::text::trim_end;
use crate::text::trim_end_chars;
use crate::text::trim_start;
use crate::text::trim_start_chars;
use crate::text::is_ws;
use crate::text::ws_run_end;
use crate::text::ws_run_start;
use crate::text::lemma_ws_run_end_bounds;
use crate::text::lemma_ws_run_start_bounds;

verus! {

/// The kind of a markdown list item.
#[derive(Debug, Clone, Copy, PartialEq, Eq, Structural)]
pub enum ListKind {
    Unordered,
    Ordered,
}

/// A parsed block-level markdown element.
#[derive(Debug, Clone, PartialEq, Eq)]
pub enum MdBlock {
    /// ATX heading (`#` … `######`). `level` is 1–6.
    Heading { level: u8, spans: Vec<TextSpan> },
    /// One or more consecutive non-blank lines (not matching any other rule).
    Paragraph { spans: Vec<TextSpan> },
    /// A `>` blockquote (consecutive lines merged with a space).
    Blockquote { spans: Vec<TextSpan> },
    /// A single list item (flat; `depth` encodes indentation level).
    ListItem { kind: ListKind, depth: u32, ordinal: Option<u32>, spans: Vec<TextSpan> },
    /// A fenced code block. `content` is raw: no inline parsing.
    CodeBlock { lang: Option<String>, content: String },
    /// A horizontal rule (`---`, `***`, `___`, `- - -`, …).
    HorizontalRule,
}

/// The abstract value of an [`MdBlock`].
pub enum MdBlockView {
    Heading { level: u8, spans: Seq<SpanView> },
    Paragraph { spans: Seq<SpanView> },
    Blockquote { spans: Seq<SpanView> },
    ListItem { kind: ListKind, depth: u32, ordinal: Option<u32>, spans: Seq<SpanView> },
    CodeBlock { lang: Option<Seq<char>>, content: Seq<char> },
    HorizontalRule,
}

pub open spec fn opt_string_view(o: Option<String>) -> Option<Seq<char>> {
    match o {
        Some(s) => Some(s@),
        None => None,
    }
}

impl View for MdBlock {
    type V = MdBlockView;

    open spec fn view(&self) -> MdBlockView {
        match self {
            MdBlock::Heading { level, spans } => MdBlockView::Heading {
                level: *level,
                spans: span_views(spans@),
            },
            MdBlock::Paragraph { spans } => MdBlockView::Paragraph { spans: span_views(spans@) },
            MdBlock::Blockquote { spans } => MdBlockView::Blockquote { spans: span_views(spans@) },
            MdBlock::ListItem { kind, depth, ordinal, spans } => MdBlockView::ListItem {
                kind: *kind,
                depth: *depth,
                ordinal: *ordinal,
                spans: span_views(spans@),
            },
            MdBlock::CodeBlock { lang, content } => MdBlockView::CodeBlock {
                lang: opt_string_view(*lang),
                content: content@,
            },
            MdBlock::HorizontalRule => MdBlockView::HorizontalRule,
        }
    }
}

pub open spec fn block_views(blocks: Seq<MdBlock>) -> Seq<MdBlockView> {
    blocks.map_values(|b: MdBlock| b@)
}

/// A block before its text is split into inline spans.
pub enum RawBlock {
    Heading { level: u8, text: Seq<char> },
    Paragraph { text: Seq<char> },
    Blockquote { text: Seq<char> },
    ListItem { kind: ListKind, depth: u32, ordinal: Option<u32>, text: Seq<char> },
    CodeBlock { lang: Option<Seq<char>>, content: Seq<char> },
    HorizontalRule,
}

/// The block being accumulated while lines are read.
pub enum OpenBlock {
    Nothing,
    Paragraph { lines: Seq<Seq<char>> },
    Blockquote { lines: Seq<Seq<char>> },
    Code { lang: Option<Seq<char>>, lines: Seq<Seq<char>> },
}

/// A raw block with its text split into inline spans.
pub open spec fn render(b: RawBlock) -> MdBlockView {
    match b {
        RawBlock::Heading { level, text } => MdBlockView::Heading {
            level,
            spans: inline_spans(text),
        },
        RawBlock::Paragraph { text } => MdBlockView::Paragraph { spans: inline_spans(text) },
        RawBlock::Blockquote { text } => MdBlockView::Blockquote { spans: inline_spans(text) },
        RawBlock::ListItem { kind, depth, ordinal, text } => MdBlockView::ListItem {
            kind,
            depth,
            ordinal,
            spans: inline_spans(text),
        },
        RawBlock::CodeBlock { lang, content } => MdBlockView::CodeBlock { lang, content },
        RawBlock::HorizontalRule => MdBlockView::HorizontalRule,
    }
}

pub open spec fn render_all(bs: Seq<RawBlock>) -> Seq<MdBlockView> {
    bs.map_values(|b: RawBlock| render(b))
}

// ── Line classifiers (spec) ─────────────────────────────────────────────────

/// The first index at or after `i` whose character is not `c`.
pub open spec fn char_run_end(s: Seq<char>, i: int, c: char) -> int
    decreases s.len() - i,
{
    if 0 <= i < s.len() && s[i] == c {
        char_run_end(s, i + 1, c)
    } else {
        i
    }
}

/// The index where the run of `c` that ends at `j` begins.
pub open spec fn char_run_start(s: Seq<char>, j: int, c: char) -> int
    decreases j,
{
    if 0 < j <= s.len() && s[j - 1] == c {
        char_run_start(s, j - 1, c)
    } else {
        j
    }
}

/// `line` without its trailing carriage returns.
pub open spec fn strip_cr(line: Seq<char>) -> Seq<char> {
    line.take(char_run_start(line, line.len() as int, '\r'))
}

pub open spec fn fence() -> Seq<char> {
    seq!['`', '`', '`']
}

/// A line that opens or closes a code fence starts (after leading
/// whitespace) with three backticks.
pub open spec fn opens_fence(line: Seq<char>) -> bool {
    let t = trim_start(line);
    t.len() >= 3 && t.take(3) == fence()
}

/// The info string after an opening fence, if any.
pub open spec fn fence_lang(line: Seq<char>) -> Option<Seq<char>> {
    let after = trim(trim_start(line).skip(3));
    if after.len() == 0 {
        None
    } else {
        Some(after)
    }
}

pub open spec fn is_rule_char(c: char) -> bool {
    c == '-' || c == '*' || c == '_'
}

/// The number of occurrences of `c` in `s`.
pub open spec fn count_char(s: Seq<char>, c: char) -> nat
    decreases s.len(),
{
    if s.len() == 0 {
        0
    } else {
        count_char(s.drop_last(), c) + if s.last() == c {
            1nat
        } else {
            0nat
        }
    }
}

/// A thematic break: after trimming, three or more copies of one of `-`,
/// `*`, `_`, with only spaces between them.
pub open spec fn is_rule(line: Seq<char>) -> bool {
    let t = trim(line);
    &&& t.len() > 0
    &&& is_rule_char(t[0])
    &&& forall|k: int| 0 <= k < t.len() ==> (#[trigger] t[k] == t[0] || t[k] == ' ')
    &&& count_char(t, t[0]) >= 3
}

/// An ATX heading: 1–6 `#` (after leading whitespace), then a space or the
/// end of the line. The text drops surrounding whitespace and any trailing
/// run of `#`.
pub open spec fn heading(line: Seq<char>) -> Option<(u8, Seq<char>)> {
    let s = trim_start(line);
    let n = char_run_end(s, 0, '#');
    let rest = s.skip(n);
    if n == 0 || n > 6 {
        None
    } else if rest.len() > 0 && rest[0] != ' ' {
        None
    } else {
        let inner = trim_end(if rest.len() == 0 {
            rest
        } else {
            rest.skip(1)
        });
        let text = trim_end(inner.take(char_run_start(inner, inner.len() as int, '#')));
        Some((n as u8, text))
    }
}

/// The text after a blockquote marker `>` (and one optional space).
pub open spec fn quote(line: Seq<char>) -> Option<Seq<char>> {
    let s = trim_start(line);
    if s.len() > 0 && s[0] == '>' {
        let after = s.skip(1);
        Some(
            if after.len() > 0 && after[0] == ' ' {
                after.skip(1)
            } else {
                after
            },
        )
    } else {
        None
    }
}

pub open spec fn is_digit(c: char) -> bool {
    '0' <= c <= '9'
}

/// The first index at or after `i` that does not hold an ASCII digit.
pub open spec fn digit_run_end(s: Seq<char>, i: int) -> int
    decreases s.len() - i,
{
    if 0 <= i < s.len() && is_digit(s[i]) {
        digit_run_end(s, i + 1)
    } else {
        i
    }
}

/// The decimal value of a run of ASCII digits.
pub open spec fn digits_value(s: Seq<char>) -> nat
    decreases s.len(),
{
    if s.len() == 0 {
        0
    } else {
        digits_value(s.drop_last()) * 10 + ((s.last() as u32) - ('0' as u32)) as nat
    }
}

/// A list item: the marker (`-`, `*`, `+`, or digits then `.`) is followed by
/// a space; depth is half the number of leading spaces; the text drops
/// trailing whitespace. An ordinal that does not fit in `u32` makes the line
/// no list item.
pub open spec fn list_item(line: Seq<char>) -> Option<(ListKind, u32, Option<u32>, Seq<char>)> {
    let depth = (char_run_end(line, 0, ' ') / 2) as u32;
    let s = trim_start(line);
    if s.len() >= 2 && (s[0] == '-' || s[0] == '*' || s[0] == '+') && s[1] == ' ' {
        Some((ListKind::Unordered, depth, None, trim_end(s.skip(2))))
    } else {
        let d = digit_run_end(s, 0);
        if d > 0 && s.len() >= d + 2 && s[d] == '.' && s[d + 1] == ' ' && digits_value(s.take(d))
            <= u32::MAX {
            Some(
                (
                    ListKind::Ordered,
                    depth,
                    Some(digits_value(s.take(d)) as u32),
                    trim_end(s.skip(d + 2)),
                ),
            )
        } else {
            None
        }
    }
}

// ── The line-by-line machine (spec) ─────────────────────────────────────────

/// The block that the open block becomes when it is closed, if any.
pub open spec fn flush_blocks(open: OpenBlock) -> Seq<RawBlock> {
    match open {
        OpenBlock::Nothing => Seq::empty(),
        OpenBlock::Paragraph { lines } => if lines.len() == 0 {
            Seq::empty()
        } else {
            seq![RawBlock::Paragraph { text: join(lines, seq![' ']) }]
        },
        OpenBlock::Blockquote { lines } => if lines.len() == 0 {
            Seq::empty()
        } else {
            seq![RawBlock::Blockquote { text: join(lines, seq![' ']) }]
        },
        OpenBlock::Code { lang, lines } => seq![
            RawBlock::CodeBlock { lang, content: join(lines, seq!['\n']) },
        ],
    }
}

/// One line read outside a code fence (`line` already without `\r`).
pub open spec fn step_outside(out: Seq<RawBlock>, open: OpenBlock, line: Seq<char>) -> (
    Seq<RawBlock>,
    OpenBlock,
) {
    if trim(line).len() == 0 {
        (out + flush_blocks(open), OpenBlock::Nothing)
    } else if opens_fence(line) {
        (
            out + flush_blocks(open),
            OpenBlock::Code { lang: fence_lang(line), lines: Seq::empty() },
        )
    } else if is_rule(line) {
        ((out + flush_blocks(open)).push(RawBlock::HorizontalRule), OpenBlock::Nothing)
    } else if heading(line) is Some {
        let (level, text) = heading(line).unwrap();
        ((out + flush_blocks(open)).push(RawBlock::Heading { level, text }), OpenBlock::Nothing)
    } else if quote(line) is Some {
        let inner = quote(line).unwrap();
        match open {
            OpenBlock::Blockquote { lines } => (out, OpenBlock::Blockquote { lines: lines.push(inner) }),
            _ => (out + flush_blocks(open), OpenBlock::Blockquote { lines: seq![inner] }),
        }
    } else {
        let out1 = if open is Blockquote {
            out + flush_blocks(open)
        } else {
            out
        };
        let open1 = if open is Blockquote {
            OpenBlock::Nothing
        } else {
            open
        };
        if list_item(line) is Some {
            let (kind, depth, ordinal, text) = list_item(line).unwrap();
            (
                (out1 + flush_blocks(open1)).push(RawBlock::ListItem { kind, depth, ordinal, text }),
                OpenBlock::Nothing,
            )
        } else {
            match open1 {
                OpenBlock::Paragraph { lines } => (out1, OpenBlock::Paragraph { lines: lines.push(line) }),
                _ => (out1, OpenBlock::Paragraph { lines: seq![line] }),
            }
        }
    }
}

/// One raw input line: inside a fence, a line that trims to three backticks
/// closes it and every other line is kept verbatim.
pub open spec fn step(out: Seq<RawBlock>, open: OpenBlock, raw: Seq<char>) -> (
    Seq<RawBlock>,
    OpenBlock,
) {
    let line = strip_cr(raw);
    match open {
        OpenBlock::Code { lang, lines } => if trim(line) == fence() {
            (
                out.push(RawBlock::CodeBlock { lang, content: join(lines, seq!['\n']) }),
                OpenBlock::Nothing,
            )
        } else {
            (out, OpenBlock::Code { lang, lines: lines.push(line) })
        },
        _ => step_outside(out, open, line),
    }
}

/// The blocks produced from `lines[i..]`, starting in the given state; the
/// block still open at the end is closed.
pub open spec fn run_lines(
    lines: Seq<Seq<char>>,
    i: int,
    out: Seq<RawBlock>,
    open: OpenBlock,
) -> Seq<RawBlock>
    decreases lines.len() - i,
{
    if i < 0 || i >= lines.len() {
        out + flush_blocks(open)
    } else {
        let (o2, p2) = step(out, open, lines[i]);
        run_lines(lines, i + 1, o2, p2)
    }
}

/// The raw blocks of a markdown document: its `\n`-separated lines run
/// through the machine from an empty state.
pub open spec fn markdown_raw_blocks(input: Seq<char>) -> Seq<RawBlock> {
    run_lines(split(input, '\n'), 0, Seq::empty(), OpenBlock::Nothing)
}

/// The blocks of a markdown document.
pub open spec fn markdown_blocks(input: Seq<char>) -> Seq<MdBlockView> {
    render_all(markdown_raw_blocks(input))
}

// ── Line classifiers (exec) ─────────────────────────────────────────────────

/// `line` without its trailing carriage returns.
fn strip_cr_chars(line: &[char]) -> (r: &[char])
    ensures
        r@ == strip_cr(line@),
{
    let mut j: usize = line.len();
    while j > 0 && line[j - 1] == '\r'
        invariant
            j <= line.len(),
            char_run_start(line@, j as int, '\r') == char_run_start(line@, line@.len() as int, '\r'),
        decreases j,
    {
        j = j - 1;
    }
    slice_subrange(line, 0, j)
}

fn run_end(s: &[char], c: char) -> (r: usize)
    ensures
        r as int == char_run_end(s@, 0, c),
        r <= s.len(),
{
    let mut i: usize = 0;
    while i < s.len() && s[i] == c
        invariant
            i <= s.len(),
            char_run_end(s@, i as int, c) == char_run_end(s@, 0, c),
        decreases s.len() - i,
    {
        i = i + 1;
    }
    i
}

fn run_start(s: &[char], c: char) -> (r: usize)
    ensures
        r as int == char_run_start(s@, s@.len() as int, c),
        r <= s.len(),
{
    let mut j: usize = s.len();
    while j > 0 && s[j - 1] == c
        invariant
            j <= s.len(),
            char_run_start(s@, j as int, c) == char_run_start(s@, s@.len() as int, c),
        decreases j,
    {
        j = j - 1;
    }
    j
}

/// Whether the (already trimmed-at-start) line starts with three backticks.
fn starts_with_fence(t: &[char]) -> (r: bool)
    ensures
        r == (t@.len() >= 3 && t@.take(3) == fence()),
{
    let r = t.len() >= 3 && t[0] == '`' && t[1] == '`' && t[2] == '`';
    if t.len() >= 3 {
        assert(r == (t@.take(3) == fence())) by {
            if r {
                assert(t@.take(3) =~= fence());
            }
            if t@.take(3) == fence() {
                assert(t@.take(3)[0] == '`' && t@.take(3)[1] == '`' && t@.take(3)[2] == '`');
            }
        }
    }
    r
}

/// Whether `line` is a thematic break.
fn is_horizontal_rule(line: &[char]) -> (r: bool)
    ensures
        r == is_rule(line@),
{
    let t = trim_chars(line);
    if t.len() == 0 {
        return false;
    }
    let ch = t[0];
    if !(ch == '-' || ch == '*' || ch == '_') {
        return false;
    }
    let mut count: usize = 0;
    let mut i: usize = 0;
    while i < t.len()
        invariant
            i <= t.len(),
            t@ == trim(line@),
            ch == t@[0],
            count == count_char(t@.take(i as int), ch),
            count <= i,
            forall|k: int| 0 <= k < i ==> (#[trigger] t@[k] == ch || t@[k] == ' '),
        decreases t.len() - i,
    {
        assert(t@.take(i + 1).drop_last() == t@.take(i as int));
        if t[i] == ch {
            count = count + 1;
        } else if t[i] == ' ' {
        } else {
            assert(!is_rule(line@)) by {
                let tt = trim(line@);
                assert(tt == t@);
                assert(!(tt[i as int] == tt[0] || tt[i as int] == ' '));
            }
            return false;
        }
        i = i + 1;
    }
    assert(t@.take(t@.len() as int) == t@);
    count >= 3
}

/// `(level, text)` of an ATX heading line.
fn parse_atx_heading(line: &[char]) -> (r: Option<(u8, &[char])>)
    ensures
        match r {
            Some((level, text)) => heading(line@) == Some((level, text@)),
            None => heading(line@) is None,
        },
{
    let s = trim_start_chars(line);
    let n = run_end(s, '#');
    if n == 0 || n > 6 {
        return None;
    }
    let rest = slice_subrange(s, n, s.len());
    assert(rest@ == s@.skip(n as int));
    let inner0 = if rest.len() == 0 {
        rest
    } else if rest[0] == ' ' {
        slice_subrange(rest, 1, rest.len())
    } else {
        return None;
    };
    assert(rest@.len() > 0 ==> rest@.skip(1) == rest@.subrange(1, rest@.len() as int));
    let inner = trim_end_chars(inner0);
    let hashes = run_start(inner, '#');
    let text = trim_end_chars(slice_subrange(inner, 0, hashes));
    assert(inner@.subrange(0, hashes as int) == inner@.take(hashes as int));
    Some((n as u8, text))
}

/// The text after a blockquote marker.
fn strip_blockquote_prefix(line: &[char]) -> (r: Option<&[char]>)
    ensures
        match r {
            Some(inner) => quote(line@) == Some(inner@),
            None => quote(line@) is None,
        },
{
    let s = trim_start_chars(line);
    if s.len() == 0 || s[0] != '>' {
        return None;
    }
    let after = slice_subrange(s, 1, s.len());
    assert(after@ == s@.skip(1));
    if after.len() > 0 && after[0] == ' ' {
        let r = slice_subrange(after, 1, after.len());
        assert(r@ == after@.skip(1));
        Some(r)
    } else {
        Some(after)
    }
}

/// Data extracted from a list-item line.
struct ListItemData<'a> {
    kind: ListKind,
    depth: u32,
    ordinal: Option<u32>,
    text: &'a [char],
}

proof fn lemma_digits_value_push(s: Seq<char>, c: char)
    ensures
        digits_value(s.push(c)) == digits_value(s) * 10 + ((c as u32) - ('0' as u32)) as nat,
{
    assert(s.push(c).drop_last() == s);
}

/// The decimal value of `digits` (all ASCII digits), or `None` when it does
/// not fit in `u32` (`str::parse::<u32>`).
fn parse_u32_digits(digits: &[char]) -> (r: Option<u32>)
    requires
        forall|k: int| 0 <= k < digits@.len() ==> is_digit(#[trigger] digits@[k]),
    ensures
        match r {
            Some(v) => digits_value(digits@) <= u32::MAX && v as nat == digits_value(digits@),
            None => digits_value(digits@) > u32::MAX,
        },
{
    let mut value: u32 = 0;
    let mut i: usize = 0;
    while i < digits.len()
        invariant
            i <= digits.len(),
            forall|k: int| 0 <= k < digits@.len() ==> is_digit(#[trigger] digits@[k]),
            value as nat == digits_value(digits@.take(i as int)),
        decreases digits.len() - i,
    {
        let d = (digits[i] as u32) - ('0' as u32);
        proof {
            assert(digits@.take(i + 1) == digits@.take(i as int).push(digits@[i as int]));
            lemma_digits_value_push(digits@.take(i as int), digits@[i as int]);
        }
        match value.checked_mul(10) {
            Some(v10) => match v10.checked_add(d) {
                Some(v) => {
                    value = v;
                },
                None => {
                    proof {
                        lemma_digits_prefix_bound(digits@, i + 1);
                    }
                    return None;
                },
            },
            None => {
                proof {
                    lemma_digits_prefix_bound(digits@, i + 1);
                }
                return None;
            },
        }
        i = i + 1;
    }
    assert(digits@.take(digits@.len() as int) == digits@);
    Some(value)
}

/// A longer run of digits never has a smaller value than its prefix.
proof fn lemma_digits_prefix_bound(s: Seq<char>, n: int)
    requires
        0 <= n <= s.len(),
        forall|k: int| 0 <= k < s.len() ==> is_digit(#[trigger] s[k]),
    ensures
        digits_value(s.take(n)) <= digits_value(s),
    decreases s.len() - n,
{
    if n < s.len() {
        lemma_digits_prefix_bound(s, n + 1);
        assert(s.take(n + 1).drop_last() == s.take(n));
    } else {
        assert(s.take(n) == s);
    }
}

/// Parse `line` as a list item.
fn parse_list_item(line: &[char]) -> (r: Option<ListItemData<'_>>)
    ensures
        match r {
            Some(item) => list_item(line@) == Some(
                (item.kind, item.depth, item.ordinal, item.text@),
            ),
            None => list_item(line@) is None,
        },
{
    let leading_spaces = run_end(line, ' ');
    let depth = (leading_spaces / 2) as u32;
    let s = trim_start_chars(line);
    if s.len() >= 2 && (s[0] == '-' || s[0] == '*' || s[0] == '+') && s[1] == ' ' {
        let text = trim_end_chars(slice_subrange(s, 2, s.len()));
        assert(s@.subrange(2, s@.len() as int) == s@.skip(2));
        return Some(ListItemData { kind: ListKind::Unordered, depth, ordinal: None, text });
    }
    let mut d: usize = 0;
    while d < s.len() && s[d] >= '0' && s[d] <= '9'
        invariant
            d <= s.len(),
            digit_run_end(s@, d as int) == digit_run_end(s@, 0),
            forall|k: int| 0 <= k < d ==> is_digit(#[trigger] s@[k]),
        decreases s.len() - d,
    {
        d = d + 1;
    }
    if d > 0 && s.len() - d >= 2 && s[d] == '.' && s[d + 1] == ' ' {
        let digits = slice_subrange(s, 0, d);
        assert(digits@ == s@.take(d as int));
        match parse_u32_digits(digits) {
            Some(ordinal) => {
                let text = trim_end_chars(slice_subrange(s, d + 2, s.len()));
                assert(s@.subrange(d + 2, s@.len() as int) == s@.skip(d + 2));
                Some(ListItemData { kind: ListKind::Ordered, depth, ordinal: Some(ordinal), text })
            },
            None => None,
        }
    } else {
        None
    }
}

// ── The machine (exec) ──────────────────────────────────────────────────────

/// The block currently being accumulated.
enum Open {
    Empty,
    Paragraph(Vec<Vec<char>>),
    Blockquote(Vec<Vec<char>>),
    Code { lang: Option<Vec<char>>, lines: Vec<Vec<char>> },
}

spec fn lines_view(v: Seq<Vec<char>>) -> Seq<Seq<char>> {
    v.map_values(|l: Vec<char>| l@)
}

spec fn opt_chars_view(o: Option<Vec<char>>) -> Option<Seq<char>> {
    match o {
        Some(v) => Some(v@),
        None => None,
    }
}

impl View for Open {
    type V = OpenBlock;

    closed spec fn view(&self) -> OpenBlock {
        match self {
            Open::Empty => OpenBlock::Nothing,
            Open::Paragraph(lines) => OpenBlock::Paragraph { lines: lines_view(lines@) },
            Open::Blockquote(lines) => OpenBlock::Blockquote { lines: lines_view(lines@) },
            Open::Code { lang, lines } => OpenBlock::Code {
                lang: opt_chars_view(*lang),
                lines: lines_view(lines@),
            },
        }
    }
}

proof fn lemma_render_all_push(a: Seq<RawBlock>, x: RawBlock)
    ensures
        render_all(a.push(x)) == render_all(a).push(render(x)),
{
    assert(render_all(a.push(x)) =~= render_all(a).push(render(x)));
}

proof fn lemma_block_views_push(a: Seq<MdBlock>, x: MdBlock)
    ensures
        block_views(a.push(x)) == block_views(a).push(x@),
{
    assert(block_views(a.push(x)) =~= block_views(a).push(x@));
}

proof fn lemma_lines_view_push(a: Seq<Vec<char>>, x: Vec<char>)
    ensures
        lines_view(a.push(x)) == lines_view(a).push(x@),
{
    assert(lines_view(a.push(x)) =~= lines_view(a).push(x@));
}

fn chars_vec(c: char) -> (v: Vec<char>)
    ensures
        v@ == seq![c],
{
    let mut v = Vec::new();
    v.push(c);
    assert(v@ =~= seq![c]);
    v
}

fn opt_string(o: Option<Vec<char>>) -> (r: Option<String>)
    ensures
        opt_string_view(r) == opt_chars_view(o),
{
    match o {
        Some(v) => Some(string_from_chars(v.as_slice())),
        None => None,
    }
}

/// Append `block` to `out`, keeping `out` in step with the raw blocks.
fn push_block(out: &mut Vec<MdBlock>, block: MdBlock, Ghost(raw): Ghost<Seq<RawBlock>>, Ghost(b): Ghost<RawBlock>)
    requires
        block_views(old(out)@) == render_all(raw),
        block@ == render(b),
    ensures
        block_views(final(out)@) == render_all(raw.push(b)),
{
    let ghost before = out@;
    out.push(block);
    proof {
        lemma_block_views_push(before, block);
        lemma_render_all_push(raw, b);
    }
}

/// Close the open block, appending what it becomes to `out`.
fn flush(open: Open, out: &mut Vec<MdBlock>, Ghost(raw): Ghost<Seq<RawBlock>>)
    requires
        block_views(old(out)@) == render_all(raw),
    ensures
        block_views(final(out)@) == render_all(raw + flush_blocks(open@)),
{
    let ghost fb = flush_blocks(open@);
    match open {
        Open::Empty => {
            assert(raw + fb =~= raw);
        },
        Open::Paragraph(lines) => {
            if lines.len() == 0 {
                assert(raw + fb =~= raw);
            } else {
                let sep = chars_vec(' ');
                let text = join_chars(&lines, sep.as_slice());
                let spans = parse_inline_markdown(text.as_slice());
                let ghost b = RawBlock::Paragraph { text: text@ };
                push_block(out, MdBlock::Paragraph { spans }, Ghost(raw), Ghost(b));
                assert(raw.push(b) =~= raw + fb);
            }
        },
        Open::Blockquote(lines) => {
            if lines.len() == 0 {
                assert(raw + fb =~= raw);
            } else {
                let sep = chars_vec(' ');
                let text = join_chars(&lines, sep.as_slice());
                let spans = parse_inline_markdown(text.as_slice());
                let ghost b = RawBlock::Blockquote { text: text@ };
                push_block(out, MdBlock::Blockquote { spans }, Ghost(raw), Ghost(b));
                assert(raw.push(b) =~= raw + fb);
            }
        },
        Open::Code { lang, lines } => {
            let sep = chars_vec('\n');
            let content = join_chars(&lines, sep.as_slice());
            let ghost b = RawBlock::CodeBlock { lang: opt_chars_view(lang), content: content@ };
            let block = MdBlock::CodeBlock {
                lang: opt_string(lang),
                content: string_from_chars(content.as_slice()),
            };
            push_block(out, block, Ghost(raw), Ghost(b));
            assert(raw.push(b) =~= raw + fb);
        },
    }
}

/// One line read outside a code fence.
fn step_outside_exec(
    open: Open,
    line: &[char],
    out: &mut Vec<MdBlock>,
    Ghost(raw): Ghost<Seq<RawBlock>>,
) -> (res: (Open, Ghost<Seq<RawBlock>>))
    requires
        block_views(old(out)@) == render_all(raw),
        !(open@ is Code),
    ensures
        res.1@ == step_outside(raw, open@, line@).0,
        res.0@ == step_outside(raw, open@, line@).1,
        block_views(final(out)@) == render_all(res.1@),
{
    let ghost prev = open@;
    // Blank line: flush whatever is open.
    if trim_chars(line).len() == 0 {
        flush(open, out, Ghost(raw));
        return (Open::Empty, Ghost(raw + flush_blocks(prev)));
    }
    // Fenced code opener.
    let t = trim_start_chars(line);
    if starts_with_fence(t) {
        flush(open, out, Ghost(raw));
        let after = trim_chars(slice_subrange(t, 3, t.len()));
        assert(t@.subrange(3, t@.len() as int) == t@.skip(3));
        let lang = if after.len() == 0 {
            None
        } else {
            Some(slice_to_vec(after))
        };
        let next = Open::Code { lang, lines: Vec::new() };
        assert(next@ == step_outside(raw, prev, line@).1) by {
            assert(lines_view(Seq::<Vec<char>>::empty()) =~= Seq::<Seq<char>>::empty());
        }
        return (next, Ghost(raw + flush_blocks(prev)));
    }
    // Horizontal rule.
    if is_horizontal_rule(line) {
        flush(open, out, Ghost(raw));
        let ghost r1 = raw + flush_blocks(prev);
        push_block(out, MdBlock::HorizontalRule, Ghost(r1), Ghost(RawBlock::HorizontalRule));
        return (Open::Empty, Ghost(r1.push(RawBlock::HorizontalRule)));
    }
    // ATX heading.
    if let Some((level, text)) = parse_atx_heading(line) {
        flush(open, out, Ghost(raw));
        let ghost r1 = raw + flush_blocks(prev);
        let spans = parse_inline_markdown(text);
        let ghost b = RawBlock::Heading { level, text: text@ };
        push_block(out, MdBlock::Heading { level, spans }, Ghost(r1), Ghost(b));
        return (Open::Empty, Ghost(r1.push(b)));
    }
    // Blockquote.
    if let Some(inner) = strip_blockquote_prefix(line) {
        match open {
            Open::Blockquote(mut lines) => {
                let ghost l0 = lines@;
                lines.push(slice_to_vec(inner));
                proof {
                    lemma_lines_view_push(l0, lines@.last());
                    assert(l0.push(lines@.last()) == lines@);
                }
                return (Open::Blockquote(lines), Ghost(raw));
            },
            other => {
                flush(other, out, Ghost(raw));
                let mut lines = Vec::new();
                lines.push(slice_to_vec(inner));
                assert(lines_view(lines@) =~= seq![inner@]);
                return (Open::Blockquote(lines), Ghost(raw + flush_blocks(prev)));
            },
        }
    }
    // A non-`>` line ends an open blockquote.
    let ghost r1 = if prev is Blockquote {
        raw + flush_blocks(prev)
    } else {
        raw
    };
    let open1 = match open {
        Open::Blockquote(lines) => {
            flush(Open::Blockquote(lines), out, Ghost(raw));
            Open::Empty
        },
        other => other,
    };
    let ghost p1 = open1@;
    // List item.
    if let Some(item) = parse_list_item(line) {
        flush(open1, out, Ghost(r1));
        let ghost r2 = r1 + flush_blocks(p1);
        let spans = parse_inline_markdown(item.text);
        let ghost b = RawBlock::ListItem {
            kind: item.kind,
            depth: item.depth,
            ordinal: item.ordinal,
            text: item.text@,
        };
        push_block(
            out,
            MdBlock::ListItem { kind: item.kind, depth: item.depth, ordinal: item.ordinal, spans },
            Ghost(r2),
            Ghost(b),
        );
        return (Open::Empty, Ghost(r2.push(b)));
    }
    // Paragraph (default).
    match open1 {
        Open::Paragraph(mut lines) => {
            let ghost l0 = lines@;
            lines.push(slice_to_vec(line));
            proof {
                lemma_lines_view_push(l0, lines@.last());
                assert(l0.push(lines@.last()) == lines@);
            }
            (Open::Paragraph(lines), Ghost(r1))
        },
        _ => {
            let mut lines = Vec::new();
            lines.push(slice_to_vec(line));
            assert(lines_view(lines@) =~= seq![line@]);
            (Open::Paragraph(lines), Ghost(r1))
        },
    }
}

/// Parse a markdown document into a flat list of [`MdBlock`]s.
///
/// Infallible and deterministic: malformed markdown degrades to paragraphs.
pub fn parse_block_markdown(input: &str) -> (blocks: Vec<MdBlock>)
    ensures
        block_views(blocks@) == markdown_blocks(input@),
{
    let chars = chars_of(input);
    let lines = split_chars(chars.as_slice(), '\n');
    let ghost ls = lines_view(lines@);
    let mut out: Vec<MdBlock> = Vec::new();
    let mut open = Open::Empty;
    let ghost mut raw: Seq<RawBlock> = Seq::empty();
    assert(block_views(out@) =~= render_all(raw));
    let mut i: usize = 0;
    while i < lines.len()
        invariant
            i <= lines.len(),
            ls == lines_view(lines@),
            ls == split(input@, '\n'),
            run_lines(ls, i as int, raw, open@) == markdown_raw_blocks(input@),
            block_views(out@) == render_all(raw),
        decreases lines.len() - i,
    {
        let line = strip_cr_chars(lines[i].as_slice());
        assert(lines[i as int]@ == ls[i as int]);
        let ghost prev = open@;
        let ghost next_state = step(raw, prev, ls[i as int]);
        match open {
            Open::Code { lang, lines: mut code } => {
                let tl = trim_chars(line);
                if tl.len() == 3 && tl[0] == '`' && tl[1] == '`' && tl[2] == '`' {
                    assert(tl@ =~= fence());
                    let sep = chars_vec('\n');
                    let content = join_chars(&code, sep.as_slice());
                    let ghost b = RawBlock::CodeBlock {
                        lang: opt_chars_view(lang),
                        content: content@,
                    };
                    let block = MdBlock::CodeBlock {
                        lang: opt_string(lang),
                        content: string_from_chars(content.as_slice()),
                    };
                    push_block(&mut out, block, Ghost(raw), Ghost(b));
                    open = Open::Empty;
                    proof {
                        raw = raw.push(b);
                    }
                } else {
                    assert(tl@ != fence()) by {
                        if tl@ == fence() {
                            assert(tl@[0] == '`' && tl@[1] == '`' && tl@[2] == '`');
                        }
                    }
                    let ghost c0 = code@;
                    code.push(slice_to_vec(line));
                    proof {
                        lemma_lines_view_push(c0, code@.last());
                        assert(c0.push(code@.last()) == code@);
                    }
                    open = Open::Code { lang, lines: code };
                }
            },
            other => {
                let (next, Ghost(r2)) = step_outside_exec(other, line, &mut out, Ghost(raw));
                open = next;
                proof {
                    raw = r2;
                }
            },
        }
        assert(open@ == next_state.1 && raw == next_state.0);
        i = i + 1;
    }
    flush(open, &mut out, Ghost(raw));
    out
}

// ── Laws ────────────────────────────────────────────────────────────────────

/// A block whose heading level is 1–6 and whose list ordinal is present
/// exactly for ordered items.
pub open spec fn raw_ok(b: RawBlock) -> bool {
    match b {
        RawBlock::Heading { level, .. } => 1 <= level <= 6,
        RawBlock::ListItem { kind, ordinal, .. } => (kind == ListKind::Ordered) == (ordinal is Some),
        _ => true,
    }
}

pub open spec fn all_ok(bs: Seq<RawBlock>) -> bool {
    forall|i: int| 0 <= i < bs.len() ==> #[trigger] raw_ok(bs[i])
}

proof fn lemma_char_run_end_bounds(s: Seq<char>, i: int, c: char)
    requires
        0 <= i,
    ensures
        i <= char_run_end(s, i, c),
        i <= s.len() ==> char_run_end(s, i, c) <= s.len(),
    decreases s.len() - i,
{
    if 0 <= i < s.len() && s[i] == c {
        lemma_char_run_end_bounds(s, i + 1, c);
    }
}

proof fn lemma_char_run_start_bounds(s: Seq<char>, j: int, c: char)
    requires
        0 <= j <= s.len(),
    ensures
        0 <= char_run_start(s, j, c) <= j,
    decreases j,
{
    if 0 < j && s[j - 1] == c {
        lemma_char_run_start_bounds(s, j - 1, c);
    }
}

proof fn lemma_heading_level(line: Seq<char>)
    ensures
        heading(line) matches Some(h) ==> 1 <= h.0 <= 6,
{
    let s = trim_start(line);
    lemma_char_run_end_bounds(s, 0, '#');
}

proof fn lemma_flush_ok(open: OpenBlock)
    ensures
        all_ok(flush_blocks(open)),
{
}

proof fn lemma_concat_ok(a: Seq<RawBlock>, b: Seq<RawBlock>)
    requires
        all_ok(a),
        all_ok(b),
    ensures
        all_ok(a + b),
{
    assert forall|i: int| 0 <= i < (a + b).len() implies #[trigger] raw_ok((a + b)[i]) by {
        if i < a.len() {
            assert((a + b)[i] == a[i]);
        } else {
            assert((a + b)[i] == b[i - a.len()]);
        }
    }
}

proof fn lemma_step_ok(out: Seq<RawBlock>, open: OpenBlock, raw: Seq<char>)
    requires
        all_ok(out),
    ensures
        all_ok(step(out, open, raw).0),
{
    let line = strip_cr(raw);
    lemma_heading_level(line);
    lemma_flush_ok(open);
    lemma_concat_ok(out, flush_blocks(open));
    if open is Blockquote {
        lemma_flush_ok(OpenBlock::Nothing);
        lemma_concat_ok(out + flush_blocks(open), flush_blocks(OpenBlock::Nothing));
    } else {
        lemma_concat_ok(out, flush_blocks(open));
    }
    let r = step(out, open, raw).0;
    assert forall|i: int| 0 <= i < r.len() implies #[trigger] raw_ok(r[i]) by {
        lemma_heading_level(line);
    }
}

proof fn lemma_run_ok(lines: Seq<Seq<char>>, i: int, out: Seq<RawBlock>, open: OpenBlock)
    requires
        all_ok(out),
    ensures
        all_ok(run_lines(lines, i, out, open)),
    decreases lines.len() - i,
{
    if i < 0 || i >= lines.len() {
        lemma_flush_ok(open);
        lemma_concat_ok(out, flush_blocks(open));
    } else {
        lemma_step_ok(out, open, lines[i]);
        let (o2, p2) = step(out, open, lines[i]);
        lemma_run_ok(lines, i + 1, o2, p2);
    }
}

/// Every heading the parser produces has a level from 1 to 6, and a list
/// item carries an ordinal exactly when it is ordered.
pub proof fn law_block_shapes(input: Seq<char>)
    ensures
        forall|i: int|
            0 <= i < markdown_blocks(input).len() ==> match #[trigger] markdown_blocks(input)[i] {
                MdBlockView::Heading { level, .. } => 1 <= level <= 6,
                MdBlockView::ListItem { kind, ordinal, .. } => (kind == ListKind::Ordered) == (
                ordinal is Some),
                _ => true,
            },
{
    lemma_run_ok(split(input, '\n'), 0, Seq::empty(), OpenBlock::Nothing);
    let raw = markdown_raw_blocks(input);
    assert forall|i: int| 0 <= i < markdown_blocks(input).len() implies match #[trigger] markdown_blocks(
        input,
    )[i] {
        MdBlockView::Heading { level, .. } => 1 <= level <= 6,
        MdBlockView::ListItem { kind, ordinal, .. } => (kind == ListKind::Ordered) == (ordinal is Some),
        _ => true,
    } by {
        assert(raw_ok(raw[i]));
    }
}

/// Every character of `s` is whitespace.
pub open spec fn all_ws(s: Seq<char>) -> bool {
    forall|i: int| 0 <= i < s.len() ==> is_ws(#[trigger] s[i])
}

proof fn lemma_ws_run_end_all(s: Seq<char>, i: int)
    requires
        all_ws(s),
        0 <= i <= s.len(),
    ensures
        ws_run_end(s, i) == s.len(),
    decreases s.len() - i,
{
    if i < s.len() {
        lemma_ws_run_end_all(s, i + 1);
    }
}

proof fn lemma_trim_all_ws(s: Seq<char>)
    requires
        all_ws(s),
    ensures
        trim(s).len() == 0,
{
    lemma_ws_run_end_all(s, 0);
    assert(trim_start(s).len() == 0);
}

proof fn lemma_split_all_ws(s: Seq<char>, i: int, done: Seq<Seq<char>>, cur: Seq<char>)
    requires
        all_ws(s),
        0 <= i,
        forall|k: int| 0 <= k < done.len() ==> all_ws(#[trigger] done[k]),
        all_ws(cur),
    ensures
        forall|k: int|
            0 <= k < split_from(s, '\n', i, done, cur).len() ==> all_ws(
                #[trigger] split_from(s, '\n', i, done, cur)[k],
            ),
    decreases s.len() - i,
{
    if i >= s.len() {
        assert(split_from(s, '\n', i, done, cur) == done.push(cur));
        assert forall|k: int| 0 <= k < done.push(cur).len() implies all_ws(
            #[trigger] done.push(cur)[k],
        ) by {
            if k < done.len() {
                assert(done.push(cur)[k] == done[k]);
            }
        }
    } else if s[i] == '\n' {
        assert forall|k: int| 0 <= k < done.push(cur).len() implies all_ws(
            #[trigger] done.push(cur)[k],
        ) by {
            if k < done.len() {
                assert(done.push(cur)[k] == done[k]);
            }
        }
        lemma_split_all_ws(s, i + 1, done.push(cur), Seq::empty());
        assert(split_from(s, '\n', i, done, cur) == split_from(s, '\n', i + 1, done.push(cur), Seq::empty()));
    } else {
        assert(all_ws(cur.push(s[i])));
        lemma_split_all_ws(s, i + 1, done, cur.push(s[i]));
        assert(split_from(s, '\n', i, done, cur) == split_from(s, '\n', i + 1, done, cur.push(s[i])));
    }
}

proof fn lemma_run_blank(lines: Seq<Seq<char>>, i: int)
    requires
        forall|k: int| 0 <= k < lines.len() ==> all_ws(#[trigger] lines[k]),
        0 <= i,
    ensures
        run_lines(lines, i, Seq::empty(), OpenBlock::Nothing).len() == 0,
    decreases lines.len() - i,
{
    if i < lines.len() {
        let line = strip_cr(lines[i]);
        assert(all_ws(lines[i]));
        lemma_char_run_start_bounds(lines[i], lines[i].len() as int, '\r');
        assert forall|k: int| 0 <= k < line.len() implies is_ws(#[trigger] line[k]) by {
            assert(line[k] == lines[i][k]);
        }
        lemma_trim_all_ws(line);
        assert(Seq::<RawBlock>::empty() + flush_blocks(OpenBlock::Nothing) =~= Seq::<RawBlock>::empty());
        lemma_run_blank(lines, i + 1);
    }
}

/// A document of whitespace only (blank lines included) has no blocks.
pub proof fn law_blank_input_has_no_blocks(input: Seq<char>)
    requires
        all_ws(input),
    ensures
        markdown_blocks(input).len() == 0,
{
    lemma_split_all_ws(input, 0, Seq::empty(), Seq::empty());
    lemma_run_blank(split(input, '\n'), 0);
}


// ── Block count ─────────────────────────────────────────────────────────────

/// How many blocks the open block can still become: none for `Nothing`,
/// one otherwise.
pub open spec fn pending(open: OpenBlock) -> int {
    if open is Nothing {
        0
    } else {
        1
    }
}

proof fn lemma_flush_count(open: OpenBlock)
    ensures
        flush_blocks(open).len() <= pending(open),
{
}

proof fn lemma_step_count(out: Seq<RawBlock>, open: OpenBlock, raw: Seq<char>)
    ensures
        step(out, open, raw).0.len() + pending(step(out, open, raw).1) <= out.len() + pending(open) + 1,
{
    lemma_flush_count(open);
    lemma_flush_count(OpenBlock::Nothing);
}

proof fn lemma_run_count(lines: Seq<Seq<char>>, i: int, out: Seq<RawBlock>, open: OpenBlock)
    requires
        0 <= i <= lines.len(),
    ensures
        run_lines(lines, i, out, open).len() <= out.len() + pending(open) + (lines.len() - i),
    decreases lines.len() - i,
{
    if i < lines.len() {
        lemma_step_count(out, open, lines[i]);
        let (o2, p2) = step(out, open, lines[i]);
        lemma_run_count(lines, i + 1, o2, p2);
    } else {
        lemma_flush_count(open);
    }
}

/// Every block comes from at least one line of its own: a document never
/// has more blocks than `\n`-separated lines.
pub proof fn law_block_count_at_most_lines(input: Seq<char>)
    ensures
        markdown_blocks(input).len() <= split(input, '\n').len(),
{
    lemma_run_count(split(input, '\n'), 0, Seq::empty(), OpenBlock::Nothing);
}

// ── CRLF line endings ───────────────────────────────────────────────────────

/// `s` with every `\n` replaced by `\r\n`.
pub open spec fn crlf(s: Seq<char>) -> Seq<char>
    decreases s.len(),
{
    if s.len() == 0 {
        Seq::empty()
    } else if s.last() == '\n' {
        crlf(s.drop_last()) + seq!['\r', '\n']
    } else {
        crlf(s.drop_last()).push(s.last())
    }
}

/// The finished lines and the current line after reading all of `s`.
spec fn split_state(s: Seq<char>, sep: char, done: Seq<Seq<char>>, cur: Seq<char>) -> (
    Seq<Seq<char>>,
    Seq<char>,
)
    decreases s.len(),
{
    if s.len() == 0 {
        (done, cur)
    } else {
        let (d, c) = split_state(s.drop_last(), sep, done, cur);
        if s.last() == sep {
            (d.push(c), Seq::empty())
        } else {
            (d, c.push(s.last()))
        }
    }
}

proof fn lemma_split_from_state(s: Seq<char>, sep: char, i: int)
    requires
        0 <= i <= s.len(),
    ensures
        split(s, sep) == split_from(
            s,
            sep,
            i,
            split_state(s.take(i), sep, Seq::empty(), Seq::empty()).0,
            split_state(s.take(i), sep, Seq::empty(), Seq::empty()).1,
        ),
    decreases i,
{
    if i > 0 {
        lemma_split_from_state(s, sep, i - 1);
        assert(s.take(i).drop_last() =~= s.take(i - 1));
    } else {
        assert(s.take(0) =~= Seq::<char>::empty());
    }
}

proof fn lemma_split_is_state(s: Seq<char>, sep: char)
    ensures
        split(s, sep) == split_state(s, sep, Seq::empty(), Seq::empty()).0.push(
            split_state(s, sep, Seq::empty(), Seq::empty()).1,
        ),
{
    lemma_split_from_state(s, sep, s.len() as int);
    assert(s.take(s.len() as int) =~= s);
}

proof fn lemma_split_state_concat(a: Seq<char>, b: Seq<char>, sep: char, done: Seq<Seq<char>>, cur: Seq<char>)
    ensures
        split_state(a + b, sep, done, cur) == split_state(
            b,
            sep,
            split_state(a, sep, done, cur).0,
            split_state(a, sep, done, cur).1,
        ),
    decreases b.len(),
{
    if b.len() == 0 {
        assert(a + b =~= a);
    } else {
        lemma_split_state_concat(a, b.drop_last(), sep, done, cur);
        assert((a + b).drop_last() =~= a + b.drop_last());
        assert((a + b).last() == b.last());
    }
}

proof fn lemma_split_state_crlf(s: Seq<char>)
    ensures
        ({
            let (d1, c1) = split_state(s, '\n', Seq::empty(), Seq::empty());
            let (d2, c2) = split_state(crlf(s), '\n', Seq::empty(), Seq::empty());
            &&& d2.len() == d1.len()
            &&& c2 == c1
            &&& forall|k: int| 0 <= k < d1.len() ==> #[trigger] d2[k] == d1[k].push('\r')
        }),
    decreases s.len(),
{
    let e = Seq::<Seq<char>>::empty();
    let z = Seq::<char>::empty();
    if s.len() > 0 {
        let t = s.drop_last();
        lemma_split_state_crlf(t);
        let (d1, c1) = split_state(t, '\n', e, z);
        let (d2, c2) = split_state(crlf(t), '\n', e, z);
        if s.last() == '\n' {
            let tail = seq!['\r', '\n'];
            assert(crlf(s) == crlf(t) + tail);
            lemma_split_state_concat(crlf(t), tail, '\n', e, z);
            let one = seq!['\r'];
            assert(tail.drop_last() =~= one);
            assert(one.drop_last() =~= Seq::<char>::empty());
            assert(split_state(one.drop_last(), '\n', d2, c2) == (d2, c2));
            assert(split_state(one, '\n', d2, c2) == (d2, c2.push('\r')));
            assert(split_state(tail, '\n', d2, c2) == (d2.push(c2.push('\r')), z));
            let (d3, c3) = split_state(crlf(s), '\n', e, z);
            assert(d3 == d2.push(c2.push('\r')));
            assert forall|k: int| 0 <= k < d1.push(c1).len() implies #[trigger] d3[k] == d1.push(
                c1,
            )[k].push('\r') by {
                if k < d1.len() {
                    assert(d3[k] == d2[k]);
                }
            }
        } else {
            let tail = seq![s.last()];
            lemma_split_state_concat(crlf(t), tail, '\n', e, z);
            assert(crlf(s) == crlf(t) + tail);
            assert(tail.drop_last() =~= Seq::<char>::empty());
            assert(split_state(tail.drop_last(), '\n', d2, c2) == (d2, c2));
        }
    }
}

proof fn lemma_run_start_push_cr(x: Seq<char>, j: int)
    requires
        0 <= j <= x.len(),
    ensures
        char_run_start(x.push('\r'), j, '\r') == char_run_start(x, j, '\r'),
    decreases j,
{
    if j > 0 {
        lemma_run_start_push_cr(x, j - 1);
    }
}

proof fn lemma_strip_cr_push_cr(x: Seq<char>)
    ensures
        strip_cr(x.push('\r')) == strip_cr(x),
{
    let y = x.push('\r');
    lemma_run_start_push_cr(x, x.len() as int);
    lemma_char_run_start_bounds(x, x.len() as int, '\r');
    assert(char_run_start(y, y.len() as int, '\r') == char_run_start(y, x.len() as int, '\r'));
    assert(y.take(char_run_start(x, x.len() as int, '\r')) =~= x.take(
        char_run_start(x, x.len() as int, '\r'),
    ));
}

proof fn lemma_run_same_lines(
    a: Seq<Seq<char>>,
    b: Seq<Seq<char>>,
    i: int,
    out: Seq<RawBlock>,
    open: OpenBlock,
)
    requires
        a.len() == b.len(),
        forall|k: int| 0 <= k < a.len() ==> strip_cr(#[trigger] a[k]) == strip_cr(b[k]),
    ensures
        run_lines(a, i, out, open) == run_lines(b, i, out, open),
    decreases a.len() - i,
{
    if 0 <= i < a.len() {
        assert(strip_cr(a[i]) == strip_cr(b[i]));
        assert(step(out, open, a[i]) == step(out, open, b[i]));
        let (o2, p2) = step(out, open, a[i]);
        lemma_run_same_lines(a, b, i + 1, o2, p2);
    }
}

/// Windows line endings change nothing: replacing every `\n` by `\r\n`
/// gives the same blocks.
pub proof fn law_crlf_same_blocks(input: Seq<char>)
    ensures
        markdown_blocks(crlf(input)) == markdown_blocks(input),
{
    let e = Seq::<Seq<char>>::empty();
    let z = Seq::<char>::empty();
    lemma_split_is_state(input, '\n');
    lemma_split_is_state(crlf(input), '\n');
    lemma_split_state_crlf(input);
    let a = split(crlf(input), '\n');
    let b = split(input, '\n');
    let (d1, c1) = split_state(input, '\n', e, z);
    let (d2, c2) = split_state(crlf(input), '\n', e, z);
    assert forall|k: int| 0 <= k < a.len() implies strip_cr(#[trigger] a[k]) == strip_cr(b[k]) by {
        if k < d1.len() {
            assert(a[k] == d2[k]);
            assert(b[k] == d1[k]);
            lemma_strip_cr_push_cr(d1[k]);
        }
    }
    lemma_run_same_lines(a, b, 0, Seq::empty(), OpenBlock::Nothing);
}


// ── Splitting joined lines ──────────────────────────────────────────────────

/// No character of `s` is a line feed.
pub open spec fn no_newline(s: Seq<char>) -> bool {
    forall|i: int| 0 <= i < s.len() ==> s[i] != '\n'
}

proof fn lemma_split_state_plain(x: Seq<char>, done: Seq<Seq<char>>, cur: Seq<char>)
    requires
        no_newline(x),
    ensures
        split_state(x, '\n', done, cur) == (done, cur + x),
    decreases x.len(),
{
    if x.len() == 0 {
        assert(cur + x =~= cur);
    } else {
        let y = x.drop_last();
        assert(no_newline(y));
        lemma_split_state_plain(y, done, cur);
        assert((cur + y).push(x.last()) =~= cur + x);
    }
}

proof fn lemma_split_state_join(m: Seq<Seq<char>>)
    requires
        m.len() >= 1,
        forall|k: int| 0 <= k < m.len() ==> no_newline(#[trigger] m[k]),
    ensures
        split_state(join(m, seq!['\n']), '\n', Seq::empty(), Seq::empty()) == (m.drop_last(), m.last()),
    decreases m.len(),
{
    let e = Seq::<Seq<char>>::empty();
    let z = Seq::<char>::empty();
    if m.len() == 1 {
        lemma_split_state_plain(m[0], e, z);
        assert(z + m[0] =~= m[0]);
        assert(m.drop_last() =~= e);
    } else {
        let mp = m.drop_last();
        assert forall|k: int| 0 <= k < mp.len() implies no_newline(#[trigger] mp[k]) by {
            assert(mp[k] == m[k]);
        }
        lemma_split_state_join(mp);
        let a = join(mp, seq!['\n']);
        assert(join(m, seq!['\n']) == a + seq!['\n'] + m.last());
        lemma_split_state_concat(a + seq!['\n'], m.last(), '\n', e, z);
        lemma_split_state_concat(a, seq!['\n'], '\n', e, z);
        assert(seq!['\n'].drop_last() =~= z);
        assert(split_state(seq!['\n'].drop_last(), '\n', mp.drop_last(), mp.last()) == (mp.drop_last(), mp.last()));
        assert(split_state(seq!['\n'], '\n', mp.drop_last(), mp.last()) == (mp.drop_last().push(mp.last()), z));
        assert(mp.drop_last().push(mp.last()) =~= mp);
        assert(no_newline(m.last()));
        lemma_split_state_plain(m.last(), mp, z);
        assert(z + m.last() =~= m.last());
    }
}

/// Splitting lines joined with `\n` at `\n` gives the lines back, when no
/// line holds a `\n` itself.
pub proof fn lemma_split_join(m: Seq<Seq<char>>)
    requires
        m.len() >= 1,
        forall|k: int| 0 <= k < m.len() ==> no_newline(#[trigger] m[k]),
    ensures
        split(join(m, seq!['\n']), '\n') == m,
{
    lemma_split_state_join(m);
    lemma_split_is_state(join(m, seq!['\n']), '\n');
    assert(m.drop_last().push(m.last()) =~= m);
}


// ── Fenced code keeps its lines ─────────────────────────────────────────────

/// A line kept verbatim inside a fence: no line feed, no trailing carriage
/// return, and not itself a closing fence.
pub open spec fn verbatim_line(l: Seq<char>) -> bool {
    &&& no_newline(l)
    &&& (l.len() == 0 || l.last() != '\r')
    &&& trim(l) != fence()
}

proof fn lemma_fence_line()
    ensures
        strip_cr(fence()) == fence(),
        trim(fence()) == fence(),
        opens_fence(fence()),
        fence_lang(fence()) is None,
        no_newline(fence()),
{
    let f = fence();
    assert(!is_ws('`'));
    assert(char_run_start(f, 3, '\r') == 3);
    assert(f.take(3) =~= f);
    assert(ws_run_end(f, 0) == 0);
    assert(f.skip(0) =~= f);
    assert(trim_start(f) == f);
    assert(ws_run_start(f, 3) == 3);
    let rest = trim_start(f).skip(3);
    assert(rest =~= Seq::<char>::empty());
    assert(ws_run_end(rest, 0) == 0);
    assert(trim_start(rest) =~= Seq::<char>::empty());
    assert(ws_run_start(trim_start(rest), 0) == 0);
    assert(trim(rest).len() == 0);
}

proof fn lemma_strip_cr_verbatim(l: Seq<char>)
    requires
        l.len() == 0 || l.last() != '\r',
    ensures
        strip_cr(l) == l,
{
    assert(char_run_start(l, l.len() as int, '\r') == l.len());
    assert(l.take(l.len() as int) =~= l);
}

proof fn lemma_run_code(
    m: Seq<Seq<char>>,
    i: int,
    end: int,
    out: Seq<RawBlock>,
    lang: Option<Seq<char>>,
    acc: Seq<Seq<char>>,
)
    requires
        0 <= i <= end <= m.len(),
        forall|k: int| i <= k < end ==> verbatim_line(#[trigger] m[k]),
    ensures
        run_lines(m, i, out, OpenBlock::Code { lang, lines: acc }) == run_lines(
            m,
            end,
            out,
            OpenBlock::Code { lang, lines: acc + m.subrange(i, end) },
        ),
    decreases end - i,
{
    if i < end {
        assert(verbatim_line(m[i]));
        lemma_strip_cr_verbatim(m[i]);
        assert(step(out, OpenBlock::Code { lang, lines: acc }, m[i]) == (
            out,
            OpenBlock::Code { lang, lines: acc.push(m[i]) },
        ));
        lemma_run_code(m, i + 1, end, out, lang, acc.push(m[i]));
        assert(acc.push(m[i]) + m.subrange(i + 1, end) =~= acc + m.subrange(i, end));
    } else {
        assert(acc + m.subrange(i, end) =~= acc);
    }
}

proof fn lemma_fenced_lines(m: Seq<Seq<char>>, body: Seq<Seq<char>>)
    requires
        m.len() >= 1 + body.len(),
        m[0] == fence(),
        m.subrange(1, 1 + body.len() as int) == body,
        forall|k: int| 0 <= k < body.len() ==> verbatim_line(#[trigger] body[k]),
    ensures
        run_lines(m, 0, Seq::empty(), OpenBlock::Nothing) == run_lines(
            m,
            1 + body.len() as int,
            Seq::empty(),
            OpenBlock::Code { lang: None, lines: body },
        ),
{
    lemma_fence_line();
    let e = Seq::<RawBlock>::empty();
    assert(trim(fence()).len() != 0);
    assert(e + flush_blocks(OpenBlock::Nothing) =~= e);
    assert(step(e, OpenBlock::Nothing, m[0]) == (e, OpenBlock::Code { lang: None, lines: Seq::<Seq<char>>::empty() }));
    assert forall|k: int| 1 <= k < 1 + body.len() implies verbatim_line(#[trigger] m[k]) by {
        assert(m[k] == body[k - 1]);
    }
    lemma_run_code(m, 1, 1 + body.len() as int, e, None, Seq::empty());
    assert(Seq::<Seq<char>>::empty() + m.subrange(1, 1 + body.len() as int) =~= body);
}

proof fn lemma_fenced_input(m: Seq<Seq<char>>)
    requires
        m.len() >= 1,
        forall|k: int| 0 <= k < m.len() ==> no_newline(#[trigger] m[k]),
    ensures
        markdown_raw_blocks(join(m, seq!['\n'])) == run_lines(m, 0, Seq::empty(), OpenBlock::Nothing),
{
    lemma_split_join(m);
}

/// A fenced code block keeps its lines: a document made of an opening
/// fence, lines kept verbatim, and a closing fence, all separated by `\n`,
/// is one code block without a language whose content is exactly those
/// lines joined with `\n`.
pub proof fn law_fenced_code_keeps_its_lines(body: Seq<Seq<char>>)
    requires
        forall|k: int| 0 <= k < body.len() ==> verbatim_line(#[trigger] body[k]),
    ensures
        markdown_blocks(join(seq![fence()] + body + seq![fence()], seq!['\n'])) == seq![
            MdBlockView::CodeBlock { lang: None, content: join(body, seq!['\n']) },
        ],
{
    lemma_fence_line();
    let m = seq![fence()] + body + seq![fence()];
    let n: int = 1 + body.len() as int;
    assert forall|k: int| 0 <= k < m.len() implies no_newline(#[trigger] m[k]) by {
        if 1 <= k < n {
            assert(m[k] == body[k - 1]);
        }
    }
    lemma_fenced_input(m);
    assert(m.subrange(1, n) =~= body);
    lemma_fenced_lines(m, body);
    let e = Seq::<RawBlock>::empty();
    let blk = RawBlock::CodeBlock { lang: None, content: join(body, seq!['\n']) };
    assert(m[n] == fence());
    assert(step(e, OpenBlock::Code { lang: None, lines: body }, m[n]) == (e.push(blk), OpenBlock::Nothing));
    assert(run_lines(m, n + 1, e.push(blk), OpenBlock::Nothing) == e.push(blk) + flush_blocks(OpenBlock::Nothing));
    assert(e.push(blk) + flush_blocks(OpenBlock::Nothing) =~= seq![blk]);
    assert(render_all(seq![blk]) =~= seq![render(blk)]);
}

/// A fence left open at the end of the document still gives a code block
/// whose content is exactly the lines after the fence joined with `\n`.
pub proof fn law_unclosed_fence_keeps_its_lines(body: Seq<Seq<char>>)
    requires
        forall|k: int| 0 <= k < body.len() ==> verbatim_line(#[trigger] body[k]),
    ensures
        markdown_blocks(join(seq![fence()] + body, seq!['\n'])) == seq![
            MdBlockView::CodeBlock { lang: None, content: join(body, seq!['\n']) },
        ],
{
    lemma_fence_line();
    let m = seq![fence()] + body;
    let n: int = 1 + body.len() as int;
    assert forall|k: int| 0 <= k < m.len() implies no_newline(#[trigger] m[k]) by {
        if 1 <= k < n {
            assert(m[k] == body[k - 1]);
        }
    }
    lemma_fenced_input(m);
    assert(m.subrange(1, n) =~= body);
    lemma_fenced_lines(m, body);
    let e = Seq::<RawBlock>::empty();
    let blk = RawBlock::CodeBlock { lang: None, content: join(body, seq!['\n']) };
    assert(run_lines(m, n, e, OpenBlock::Code { lang: None, lines: body }) == e + flush_blocks(
        OpenBlock::Code { lang: None, lines: body },
    ));
    assert(e + flush_blocks(OpenBlock::Code { lang: None, lines: body }) =~= seq![blk]);
    assert(render_all(seq![blk]) =~= seq![render(blk)]);
}


// ── Paragraph and blockquote lines are joined with a space ──────────────────

/// A line that continues a paragraph: not blank, no fence, rule, heading,
/// quote or list marker, no line feed and no trailing carriage return.
pub open spec fn paragraph_line(l: Seq<char>) -> bool {
    &&& no_newline(l)
    &&& (l.len() == 0 || l.last() != '\r')
    &&& trim(l).len() != 0
    &&& !opens_fence(l)
    &&& !is_rule(l)
    &&& heading(l) is None
    &&& quote(l) is None
    &&& list_item(l) is None
}

/// A `>` line that continues a blockquote: not blank, no fence, rule or
/// heading, no line feed and no trailing carriage return.
pub open spec fn quote_line(l: Seq<char>) -> bool {
    &&& no_newline(l)
    &&& (l.len() == 0 || l.last() != '\r')
    &&& trim(l).len() != 0
    &&& !opens_fence(l)
    &&& !is_rule(l)
    &&& heading(l) is None
    &&& quote(l) is Some
}

proof fn lemma_run_paragraph(m: Seq<Seq<char>>, i: int, acc: Seq<Seq<char>>)
    requires
        0 <= i <= m.len(),
        acc.len() > 0,
        forall|k: int| 0 <= k < m.len() ==> paragraph_line(#[trigger] m[k]),
    ensures
        run_lines(m, i, Seq::empty(), OpenBlock::Paragraph { lines: acc }) == seq![
            RawBlock::Paragraph { text: join(acc + m.subrange(i, m.len() as int), seq![' ']) },
        ],
    decreases m.len() - i,
{
    if i < m.len() {
        lemma_strip_cr_verbatim(m[i]);
        assert(paragraph_line(m[i]));
        lemma_run_paragraph(m, i + 1, acc.push(m[i]));
        assert(acc.push(m[i]) + m.subrange(i + 1, m.len() as int) =~= acc + m.subrange(i, m.len() as int));
    } else {
        assert(acc + m.subrange(i, m.len() as int) =~= acc);
        assert(Seq::<RawBlock>::empty() + flush_blocks(OpenBlock::Paragraph { lines: acc }) =~= seq![
            RawBlock::Paragraph { text: join(acc, seq![' ']) },
        ]);
    }
}

/// Consecutive paragraph lines make one paragraph: a document of such
/// lines separated by `\n` is a single paragraph whose text is the lines
/// joined with a space.
pub proof fn law_paragraph_lines_joined_with_space(lines: Seq<Seq<char>>)
    requires
        lines.len() > 0,
        forall|k: int| 0 <= k < lines.len() ==> paragraph_line(#[trigger] lines[k]),
    ensures
        markdown_blocks(join(lines, seq!['\n'])) == seq![
            MdBlockView::Paragraph { spans: inline_spans(join(lines, seq![' '])) },
        ],
{
    lemma_split_join(lines);
    let l0 = lines[0];
    assert(paragraph_line(l0));
    lemma_strip_cr_verbatim(l0);
    let e = Seq::<RawBlock>::empty();
    assert(step(e, OpenBlock::Nothing, l0) == (e, OpenBlock::Paragraph { lines: seq![l0] }));
    lemma_run_paragraph(lines, 1, seq![l0]);
    assert(seq![l0] + lines.subrange(1, lines.len() as int) =~= lines);
    let blk = RawBlock::Paragraph { text: join(lines, seq![' ']) };
    assert(render_all(seq![blk]) =~= seq![render(blk)]);
}

spec fn quoted_texts(m: Seq<Seq<char>>) -> Seq<Seq<char>> {
    m.map_values(|l: Seq<char>| quote(l)->Some_0)
}

proof fn lemma_run_quote(m: Seq<Seq<char>>, i: int, acc: Seq<Seq<char>>)
    requires
        0 <= i <= m.len(),
        acc.len() > 0,
        forall|k: int| 0 <= k < m.len() ==> quote_line(#[trigger] m[k]),
    ensures
        run_lines(m, i, Seq::empty(), OpenBlock::Blockquote { lines: acc }) == seq![
            RawBlock::Blockquote {
                text: join(acc + quoted_texts(m.subrange(i, m.len() as int)), seq![' ']),
            },
        ],
    decreases m.len() - i,
{
    if i < m.len() {
        lemma_strip_cr_verbatim(m[i]);
        assert(quote_line(m[i]));
        let inner = quote(m[i])->Some_0;
        lemma_run_quote(m, i + 1, acc.push(inner));
        assert(acc.push(inner) + quoted_texts(m.subrange(i + 1, m.len() as int)) =~= acc + quoted_texts(
            m.subrange(i, m.len() as int),
        ));
    } else {
        assert(acc + quoted_texts(m.subrange(i, m.len() as int)) =~= acc);
        assert(Seq::<RawBlock>::empty() + flush_blocks(OpenBlock::Blockquote { lines: acc }) =~= seq![
            RawBlock::Blockquote { text: join(acc, seq![' ']) },
        ]);
    }
}

/// Consecutive `>` lines make one blockquote: a document of such lines
/// separated by `\n` is a single blockquote whose text is the lines'
/// quoted parts joined with a space.
pub proof fn law_quote_lines_joined_with_space(lines: Seq<Seq<char>>)
    requires
        lines.len() > 0,
        forall|k: int| 0 <= k < lines.len() ==> quote_line(#[trigger] lines[k]),
    ensures
        markdown_blocks(join(lines, seq!['\n'])) == seq![
            MdBlockView::Blockquote {
                spans: inline_spans(join(lines.map_values(|l: Seq<char>| quote(l)->Some_0), seq![' '])),
            },
        ],
{
    assert forall|k: int| 0 <= k < lines.len() implies no_newline(#[trigger] lines[k]) by {
        assert(quote_line(lines[k]));
    }
    lemma_split_join(lines);
    let l0 = lines[0];
    assert(quote_line(l0));
    lemma_strip_cr_verbatim(l0);
    let e = Seq::<RawBlock>::empty();
    let inner = quote(l0)->Some_0;
    assert(e + flush_blocks(OpenBlock::Nothing) =~= e);
    assert(step(e, OpenBlock::Nothing, l0) == (e, OpenBlock::Blockquote { lines: seq![inner] }));
    lemma_run_quote(lines, 1, seq![inner]);
    assert(seq![inner] + quoted_texts(lines.subrange(1, lines.len() as int)) =~= quoted_texts(lines));
    let blk = RawBlock::Blockquote { text: join(quoted_texts(lines), seq![' ']) };
    assert(render_all(seq![blk]) =~= seq![render(blk)]);
}


// ── The info string of a fence is its language ──────────────────────────────

proof fn lemma_fence_with_lang(lang: Seq<char>)
    requires
        lang.len() > 0,
        trim(lang) == lang,
        lang.last() != '\r',
    ensures
        strip_cr(fence() + lang) == fence() + lang,
        trim(fence() + lang).len() != 0,
        opens_fence(fence() + lang),
        fence_lang(fence() + lang) == Some(lang),
{
    let l = fence() + lang;
    assert(l[0] == '`');
    assert(!is_ws('`'));
    lemma_strip_cr_verbatim(l);
    assert(ws_run_end(l, 0) == 0);
    assert(l.skip(0) =~= l);
    assert(trim_start(l) == l);
    lemma_ws_run_start_bounds(l, l.len() as int);
    assert(trim(l).len() != 0) by {
        if ws_run_start(l, l.len() as int) == 0 {
            assert(is_ws(l[0]));
        }
    }
    assert(l.take(3) =~= fence());
    assert(l.skip(3) =~= lang);
}

/// The info string after an opening fence names the block's language: a
/// document of a fence followed by a language word, lines kept verbatim and
/// a closing fence, separated by `\n`, is one code block with that language
/// and the lines joined with `\n`.
pub proof fn law_fence_info_is_the_language(lang: Seq<char>, body: Seq<Seq<char>>)
    requires
        lang.len() > 0,
        trim(lang) == lang,
        no_newline(lang),
        forall|k: int| 0 <= k < body.len() ==> verbatim_line(#[trigger] body[k]),
    ensures
        markdown_blocks(join(seq![fence() + lang] + body + seq![fence()], seq!['\n'])) == seq![
            MdBlockView::CodeBlock { lang: Some(lang), content: join(body, seq!['\n']) },
        ],
{
    lemma_fence_line();
    assert(lang.last() != '\r') by {
        let t = trim_start(lang);
        lemma_ws_run_end_bounds(lang, 0);
        lemma_ws_run_start_bounds(t, t.len() as int);
        if lang.last() == '\r' {
            assert(is_ws('\r'));
            if ws_run_end(lang, 0) == 0 {
                assert(t =~= lang);
                assert(is_ws(t[t.len() - 1]));
                assert(ws_run_start(t, t.len() as int) < t.len()) by {
                    assert(ws_run_start(t, t.len() as int) == ws_run_start(t, t.len() - 1));
                    lemma_ws_run_start_bounds(t, t.len() - 1);
                }
            }
            assert(trim(lang).len() < lang.len());
        }
    }
    lemma_fence_with_lang(lang);
    let open = fence() + lang;
    lemma_no_newline_concat(fence(), lang);
    let m = seq![open] + body + seq![fence()];
    let n: int = 1 + body.len() as int;
    assert forall|k: int| 0 <= k < m.len() implies no_newline(#[trigger] m[k]) by {
        if 1 <= k < n {
            assert(m[k] == body[k - 1]);
        }
    }
    lemma_split_join(m);
    let e = Seq::<RawBlock>::empty();
    assert(e + flush_blocks(OpenBlock::Nothing) =~= e);
    assert(step(e, OpenBlock::Nothing, m[0]) == (e, OpenBlock::Code { lang: Some(lang), lines: Seq::<Seq<char>>::empty() }));
    assert forall|k: int| 1 <= k < n implies verbatim_line(#[trigger] m[k]) by {
        assert(m[k] == body[k - 1]);
    }
    lemma_run_code(m, 1, n, e, Some(lang), Seq::empty());
    assert(Seq::<Seq<char>>::empty() + m.subrange(1, n) =~= body);
    let blk = RawBlock::CodeBlock { lang: Some(lang), content: join(body, seq!['\n']) };
    assert(m[n] == fence());
    assert(step(e, OpenBlock::Code { lang: Some(lang), lines: body }, m[n]) == (e.push(blk), OpenBlock::Nothing));
    assert(run_lines(m, n + 1, e.push(blk), OpenBlock::Nothing) == e.push(blk) + flush_blocks(OpenBlock::Nothing));
    assert(e.push(blk) + flush_blocks(OpenBlock::Nothing) =~= seq![blk]);
    assert(render_all(seq![blk]) =~= seq![render(blk)]);
}

proof fn lemma_no_newline_concat(a: Seq<char>, b: Seq<char>)
    requires
        no_newline(a),
        no_newline(b),
    ensures
        no_newline(a + b),
{
    assert forall|i: int| 0 <= i < (a + b).len() implies (a + b)[i] != '\n' by {
        if i < a.len() {
            assert((a + b)[i] == a[i]);
        } else {
            assert((a + b)[i] == b[i - a.len()]);
        }
    }
}

} // verus!
