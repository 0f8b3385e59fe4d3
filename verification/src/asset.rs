//! Asset blocks and asset declarations.

use vstd::prelude::*;
use crate::span::Span;
use crate::text::str_eq;
use crate::text::string_from_chars;
use crate::text::chars_of;

verus! {

/// The kind of an asset. Unknown kind strings are preserved as
/// `Unknown(String)` for forward compatibility.
#[derive(Debug, Clone, PartialEq, Eq)]
pub enum AssetKind {
    /// A raster image (PNG, JPEG, …).
    Image,
    /// An SVG vector graphic.
    Svg,
    /// A font file (TTF, OTF, WOFF2, …).
    Font,
    /// An unrecognized asset kind.
    Unknown(String),
}

/// The canonical text of a kind; for `Unknown` the stored string.
pub open spec fn kind_text(k: AssetKind) -> Seq<char> {
    match k {
        AssetKind::Image => "image"@,
        AssetKind::Svg => "svg"@,
        AssetKind::Font => "font"@,
        AssetKind::Unknown(s) => s@,
    }
}

/// Whether `k` is what the `kind` property text `s` denotes.
pub open spec fn denotes_kind(s: Seq<char>, k: AssetKind) -> bool {
    match k {
        AssetKind::Image => s == "image"@,
        AssetKind::Svg => s == "svg"@,
        AssetKind::Font => s == "font"@,
        AssetKind::Unknown(u) => u@ == s && s != "image"@ && s != "svg"@ && s != "font"@,
    }
}

/// Each `kind` text denotes one asset kind: two kinds it denotes are the
/// same variant, and for an unknown kind the same text.
pub proof fn law_kind_text_denotes_one_kind(s: Seq<char>, a: AssetKind, b: AssetKind)
    requires
        denotes_kind(s, a),
        denotes_kind(s, b),
    ensures
        match (a, b) {
            (AssetKind::Unknown(u), AssetKind::Unknown(v)) => u@ == v@,
            _ => a == b,
        },
{
    reveal_strlit("image");
    reveal_strlit("svg");
    reveal_strlit("font");
    assert("image"@[0] == 'i');
    assert("svg"@[0] == 's');
    assert("font"@[0] == 'f');
}

impl AssetKind {
    /// Parse the asset kind from the `kind` property string. Infallible: an
    /// unrecognized kind is preserved as `AssetKind::Unknown`.
    pub fn from_kind_str(s: &str) -> (r: Self)
        ensures
            denotes_kind(s@, r),
    {
        if str_eq(s, "image") {
            AssetKind::Image
        } else if str_eq(s, "svg") {
            AssetKind::Svg
        } else if str_eq(s, "font") {
            AssetKind::Font
        } else {
            let cs = chars_of(s);
            AssetKind::Unknown(string_from_chars(cs.as_slice()))
        }
    }

    /// The canonical string of a known kind; for `Unknown` the stored string.
    pub fn kind_str(&self) -> (r: &str)
        ensures
            r@ == kind_text(*self),
    {
        match self {
            AssetKind::Image => "image",
            AssetKind::Svg => "svg",
            AssetKind::Font => "font",
            AssetKind::Unknown(s) => s.as_str(),
        }
    }
}

/// Reading a kind back gives the text it was parsed from.
pub proof fn law_kind_round_trip(s: Seq<char>, k: AssetKind)
    requires
        denotes_kind(s, k),
    ensures
        kind_text(k) == s,
{
}

/// Parsing the text of a kind gives the kind back, unless the kind is an
/// `Unknown` that holds the name of a known kind.
pub proof fn law_kind_text_parses_back(k: AssetKind, k2: AssetKind)
    requires
        !(k matches AssetKind::Unknown(u) && (u@ == "image"@ || u@ == "svg"@ || u@ == "font"@)),
        denotes_kind(kind_text(k), k2),
    ensures
        kind_text(k2) == kind_text(k),
        k2 is Image <==> k is Image,
        k2 is Svg <==> k is Svg,
        k2 is Font <==> k is Font,
{
    reveal_strlit("image");
    reveal_strlit("svg");
    reveal_strlit("font");
    assert("image"@.len() == 5 && "svg"@.len() == 3 && "font"@.len() == 4);
}

/// A single asset declaration within an `assets` block.
#[derive(Debug, Clone, PartialEq, Eq)]
pub struct AssetDecl {
    /// Globally unique asset ID (e.g. `"asset.logo"`).
    pub id: String,
    /// The asset kind.
    pub kind: AssetKind,
    /// Relative path to the asset file.
    pub src: String,
    /// Optional SHA-256 hex digest for content integrity.
    pub sha256: Option<String>,
    /// Source declaration span, when available.
    pub source_span: Option<Span>,
}

/// The top-level `assets` block; absent from a document it is empty.
#[derive(Debug, Clone, PartialEq, Eq)]
pub struct AssetBlock {
    /// The ordered list of asset declarations.
    pub assets: Vec<AssetDecl>,
    /// Source span of the `assets { … }` block, when available.
    pub source_span: Option<Span>,
}

impl Default for AssetBlock {
    /// The empty block.
    fn default() -> (b: Self)
        ensures
            b.assets@.len() == 0,
            b.source_span is None,
    {
        AssetBlock { assets: Vec::new(), source_span: None }
    }
}

} // verus!
