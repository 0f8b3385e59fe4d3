//! Inline markdown: splits a run of text into styled spans.
//!
//! A `**…**` pair with non-empty content becomes a bold span; every other
//! character is plain text.

use vstd::prelude::*;
use vstd::slice::slice_subrange;
use crate::text::string_from_chars;

verus! {

/// The font weight given to bold spans.
pub const BOLD_WEIGHT: u32 = 700;

/// A run of text with uniform styling.
#[derive(Debug, Clone, PartialEq, Eq)]
pub struct TextSpan {
    /// The characters of the run.
    pub text: String,
    /// `Some(weight)` for a bold run, `None` for regular text.
    pub font_weight: Option<u32>,
}

/// The abstract value of a [`TextSpan`].
pub struct SpanView {
    pub text: Seq<char>,
    pub font_weight: Option<u32>,
}

impl View for TextSpan {
    type V = SpanView;

    open spec fn view(&self) -> SpanView {
        SpanView { text: self.text@, font_weight: self.font_weight }
    }
}

pub open spec fn span_views(spans: Seq<TextSpan>) -> Seq<SpanView> {
    spans.map_values(|t: TextSpan| t@)
}

/// Whether `s[i]` and `s[i + 1]` are both `*`.
pub open spec fn star_pair_at(s: Seq<char>, i: int) -> bool {
    0 <= i && i + 1 < s.len() && s[i] == '*' && s[i + 1] == '*'
}

/// The first index `k >= i` where a `**` pair starts, or `-1`.
pub open spec fn first_pair_from(s: Seq<char>, i: int) -> int
    decreases s.len() - i,
{
    if i < 0 || i + 1 >= s.len() {
        -1
    } else if star_pair_at(s, i) {
        i
    } else {
        first_pair_from(s, i + 1)
    }
}

/// A single plain span for `s`, or nothing when `s` is empty.
pub open spec fn plain_spans(s: Seq<char>) -> Seq<SpanView> {
    if s.len() == 0 {
        Seq::empty()
    } else {
        seq![SpanView { text: s, font_weight: None }]
    }
}

pub proof fn lemma_first_pair(s: Seq<char>, i: int)
    requires
        0 <= i,
    ensures
        first_pair_from(s, i) == -1 || (i <= first_pair_from(s, i) && star_pair_at(
            s,
            first_pair_from(s, i),
        )),
        forall|k: int|
            i <= k && (first_pair_from(s, i) == -1 || k < first_pair_from(s, i)) ==> !star_pair_at(
                s,
                k,
            ),
    decreases s.len() - i,
{
    if i + 1 < s.len() && !star_pair_at(s, i) {
        lemma_first_pair(s, i + 1);
    }
}

/// The spans of `s`: the first `**` opens a bold run that the next `**`
/// (after at least one character) closes; text outside such pairs is plain.
pub open spec fn inline_spans(s: Seq<char>) -> Seq<SpanView>
    decreases s.len(),
{
    let o = first_pair_from(s, 0);
    if o < 0 {
        plain_spans(s)
    } else {
        let c = first_pair_from(s, o + 3);
        if c < 0 || c + 2 > s.len() {
            plain_spans(s)
        } else {
            plain_spans(s.take(o)) + seq![
                SpanView { text: s.subrange(o + 2, c), font_weight: Some(BOLD_WEIGHT) },
            ] + inline_spans(s.skip(c + 2))
        }
    }
}

/// The first index `k >= from` where a `**` pair starts.
fn find_star_pair(s: &[char], from: usize) -> (r: Option<usize>)
    ensures
        match r {
            Some(k) => first_pair_from(s@, from as int) == k as int,
            None => first_pair_from(s@, from as int) == -1,
        },
{
    let mut i = from;
    while i < s.len() && s.len() - i > 1
        invariant
            from <= i,
            first_pair_from(s@, i as int) == first_pair_from(s@, from as int),
        decreases s.len() - i,
    {
        if s[i] == '*' && s[i + 1] == '*' {
            assert(star_pair_at(s@, i as int));
            return Some(i);
        }
        i = i + 1;
    }
    None
}

fn push_plain(out: &mut Vec<TextSpan>, s: &[char])
    ensures
        span_views(final(out)@) == span_views(old(out)@) + plain_spans(s@),
{
    let ghost before = span_views(out@);
    if s.len() > 0 {
        out.push(TextSpan { text: string_from_chars(s), font_weight: None });
        assert(span_views(out@) =~= before + plain_spans(s@));
    } else {
        assert(span_views(out@) =~= before + plain_spans(s@));
    }
}

/// Split `text` into plain and bold spans.
pub fn parse_inline_markdown(text: &[char]) -> (spans: Vec<TextSpan>)
    ensures
        span_views(spans@) == inline_spans(text@),
{
    let mut out: Vec<TextSpan> = Vec::new();
    let mut pos: usize = 0;
    assert(text@.skip(0) == text@);
    while pos < text.len()
        invariant
            pos <= text.len(),
            span_views(out@) + inline_spans(text@.skip(pos as int)) == inline_spans(text@),
        decreases text.len() - pos,
    {
        let rest = slice_subrange(text, pos, text.len());
        let ghost r = rest@;
        match find_star_pair(rest, 0) {
            None => {
                push_plain(&mut out, rest);
                pos = text.len();
                assert(text@.skip(pos as int) =~= Seq::<char>::empty());
                assert(inline_spans(Seq::<char>::empty()) =~= Seq::<SpanView>::empty());
            },
            Some(o) => {
                proof {
                    lemma_first_pair(r, 0);
                }
                let close = if rest.len() - o >= 3 {
                    find_star_pair(rest, o + 3)
                } else {
                    None
                };
                proof {
                    if o + 3 <= r.len() {
                        lemma_first_pair(r, o + 3);
                    } else {
                        assert(first_pair_from(r, o + 3) == -1);
                    }
                }
                match close {
                    None => {
                        push_plain(&mut out, rest);
                        pos = text.len();
                        assert(text@.skip(pos as int) =~= Seq::<char>::empty());
                        assert(inline_spans(Seq::<char>::empty()) =~= Seq::<SpanView>::empty());
                    },
                    Some(c) => {
                        let ghost before = span_views(out@);
                        push_plain(&mut out, slice_subrange(rest, 0, o));
                        let inner = slice_subrange(rest, o + 2, c);
                        out.push(TextSpan { text: string_from_chars(inner), font_weight: Some(BOLD_WEIGHT) });
                        assert(span_views(out@) =~= before + plain_spans(r.take(o as int)) + seq![
                            SpanView { text: r.subrange(o + 2, c as int), font_weight: Some(BOLD_WEIGHT) },
                        ]);
                        assert(r.skip(c + 2) =~= text@.skip(pos + c + 2));
                        pos = pos + c + 2;
                    },
                }
            },
        }
    }
    assert(text@.skip(pos as int) =~= Seq::<char>::empty());
    assert(inline_spans(Seq::<char>::empty()) =~= Seq::<SpanView>::empty());
    assert(span_views(out@) + Seq::<SpanView>::empty() =~= span_views(out@));
    out
}

/// Every span holds at least one character, and every styled span is bold.
pub proof fn law_spans_nonempty(s: Seq<char>)
    ensures
        forall|i: int|
            0 <= i < inline_spans(s).len() ==> #[trigger] inline_spans(s)[i].text.len() > 0 && (
            inline_spans(s)[i].font_weight is Some ==> inline_spans(s)[i].font_weight == Some(
                BOLD_WEIGHT,
            )),
    decreases s.len(),
{
    lemma_first_pair(s, 0);
    let o = first_pair_from(s, 0);
    if o >= 0 {
        lemma_first_pair(s, o + 3);
        let c = first_pair_from(s, o + 3);
        if c >= 0 && c + 2 <= s.len() {
            let rest = s.skip(c + 2);
            law_spans_nonempty(rest);
            let head = plain_spans(s.take(o)) + seq![
                SpanView { text: s.subrange(o + 2, c), font_weight: Some(BOLD_WEIGHT) },
            ];
            assert(inline_spans(s) == head + inline_spans(rest));
            assert forall|i: int| 0 <= i < inline_spans(s).len() implies #[trigger] inline_spans(
                s,
            )[i].text.len() > 0 && (inline_spans(s)[i].font_weight is Some ==> inline_spans(
                s,
            )[i].font_weight == Some(BOLD_WEIGHT)) by {
                if i >= head.len() {
                    assert(inline_spans(s)[i] == inline_spans(rest)[i - head.len()]);
                }
            }
        }
    }
}

} // verus!
