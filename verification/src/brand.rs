//! Brand contract: the approved colors, font families and font weights of a
//! document, merged across configuration layers with per-category override.
//!
//! `None` in a category means "unconstrained"; `Some(list)` lists the approved
//! values (an empty list approves nothing).

use vstd::prelude::*;
use crate::span::span_or;
use crate::span::Span;
use crate::text::clone_strings;
use crate::text::clone_u32s;
use crate::text::strings_view;

verus! {

/// The brand contract parsed from a `brand { … }` block.
#[derive(Debug, Clone, PartialEq, Eq)]
pub struct BrandContract {
    /// Approved color hex strings, or `None` when unconstrained.
    pub allowed_colors: Option<Vec<String>>,
    /// Approved font-family names, or `None` when unconstrained.
    pub allowed_fonts: Option<Vec<String>>,
    /// Approved font weights, or `None` when unconstrained.
    pub allowed_weights: Option<Vec<u32>>,
    /// Source span of the `brand { … }` node, when available.
    pub source_span: Option<Span>,
}

/// The abstract value of a [`BrandContract`].
pub struct BrandView {
    pub colors: Option<Seq<Seq<char>>>,
    pub fonts: Option<Seq<Seq<char>>>,
    pub weights: Option<Seq<u32>>,
    pub source_span: Option<Span>,
}

pub open spec fn opt_strings_view(o: Option<Vec<String>>) -> Option<Seq<Seq<char>>> {
    match o {
        Some(v) => Some(strings_view(v@)),
        None => None,
    }
}

pub open spec fn opt_u32s_view(o: Option<Vec<u32>>) -> Option<Seq<u32>> {
    match o {
        Some(v) => Some(v@),
        None => None,
    }
}

impl View for BrandContract {
    type V = BrandView;

    open spec fn view(&self) -> BrandView {
        BrandView {
            colors: opt_strings_view(self.allowed_colors),
            fonts: opt_strings_view(self.allowed_fonts),
            weights: opt_u32s_view(self.allowed_weights),
            source_span: self.source_span,
        }
    }
}

/// The contract with no category constrained.
pub open spec fn empty_brand() -> BrandView {
    BrandView { colors: None, fonts: None, weights: None, source_span: None }
}

/// Whether no category is constrained.
pub open spec fn brand_is_empty(b: BrandView) -> bool {
    b.colors is None && b.fonts is None && b.weights is None
}

/// `over` where it is present, otherwise `base`.
pub open spec fn prefer<T>(over: Option<T>, base: Option<T>) -> Option<T> {
    if over is Some {
        over
    } else {
        base
    }
}

/// Per-category override: each category of `over` wins when present.
pub open spec fn merge_brand(base: BrandView, over: BrandView) -> BrandView {
    BrandView {
        colors: prefer(over.colors, base.colors),
        fonts: prefer(over.fonts, base.fonts),
        weights: prefer(over.weights, base.weights),
        source_span: prefer(over.source_span, base.source_span),
    }
}

impl Default for BrandContract {
    /// The unconstrained contract (an absent `brand` block).
    fn default() -> (b: Self)
        ensures
            b@ == empty_brand(),
    {
        BrandContract {
            allowed_colors: None,
            allowed_fonts: None,
            allowed_weights: None,
            source_span: None,
        }
    }
}

impl BrandContract {
    /// True when no category is constrained.
    pub fn is_empty(&self) -> (r: bool)
        ensures
            r == brand_is_empty(self@),
    {
        self.allowed_colors.is_none() && self.allowed_fonts.is_none()
            && self.allowed_weights.is_none()
    }
}

fn prefer_strings(over: &Option<Vec<String>>, base: &Option<Vec<String>>) -> (r: Option<
    Vec<String>,
>)
    ensures
        opt_strings_view(r) == prefer(opt_strings_view(*over), opt_strings_view(*base)),
{
    match over {
        Some(v) => Some(clone_strings(v)),
        None => match base {
            Some(v) => Some(clone_strings(v)),
            None => None,
        },
    }
}

fn prefer_u32s(over: &Option<Vec<u32>>, base: &Option<Vec<u32>>) -> (r: Option<Vec<u32>>)
    ensures
        opt_u32s_view(r) == prefer(opt_u32s_view(*over), opt_u32s_view(*base)),
{
    match over {
        Some(v) => Some(clone_u32s(v)),
        None => match base {
            Some(v) => Some(clone_u32s(v)),
            None => None,
        },
    }
}

/// Merge two brand contracts: for each category `over`'s value wins when
/// present and `base`'s is the fallback; the span likewise.
pub fn merge_brand_contract(base: &BrandContract, over: &BrandContract) -> (r: BrandContract)
    ensures
        r@ == merge_brand(base@, over@),
{
    BrandContract {
        allowed_colors: prefer_strings(&over.allowed_colors, &base.allowed_colors),
        allowed_fonts: prefer_strings(&over.allowed_fonts, &base.allowed_fonts),
        allowed_weights: prefer_u32s(&over.allowed_weights, &base.allowed_weights),
        source_span: span_or(over.source_span, base.source_span),
    }
}

/// Merging with an empty contract on top changes no category.
pub proof fn law_merge_empty_over_is_identity(base: BrandView)
    ensures
        merge_brand(base, empty_brand()) == base,
{
}

/// Merging an empty base under a contract yields that contract.
pub proof fn law_merge_empty_base_yields_over(over: BrandView)
    ensures
        merge_brand(empty_brand(), over) == over,
{
}

/// Merging is associative, so layered configuration can be merged pairwise
/// in either grouping (global, then local, then in-file).
pub proof fn law_merge_associative(a: BrandView, b: BrandView, c: BrandView)
    ensures
        merge_brand(merge_brand(a, b), c) == merge_brand(a, merge_brand(b, c)),
{
}

/// Merging a contract with itself gives it back.
pub proof fn law_merge_idempotent(a: BrandView)
    ensures
        merge_brand(a, a) == a,
{
}

/// A category constrained in `over` is exactly `over`'s; one absent from
/// `over` is exactly `base`'s.
pub proof fn law_merge_per_category(base: BrandView, over: BrandView)
    ensures
        over.colors is Some ==> merge_brand(base, over).colors == over.colors,
        over.colors is None ==> merge_brand(base, over).colors == base.colors,
        over.fonts is Some ==> merge_brand(base, over).fonts == over.fonts,
        over.fonts is None ==> merge_brand(base, over).fonts == base.fonts,
        over.weights is Some ==> merge_brand(base, over).weights == over.weights,
        over.weights is None ==> merge_brand(base, over).weights == base.weights,
{
}

/// The merge of two contracts is empty exactly when both are.
pub proof fn law_merge_empty_iff_both_empty(base: BrandView, over: BrandView)
    ensures
        brand_is_empty(merge_brand(base, over)) == (brand_is_empty(base) && brand_is_empty(
            over,
        )),
{
}

} // verus!
