//! Token types.

use vstd::prelude::*;
use crate::text::str_eq;
use crate::text::string_from_chars;
use crate::text::chars_of;

verus! {

/// The token types, plus an extensibility variant for unknown types.
#[derive(Debug, Clone, PartialEq, Eq)]
pub enum TokenType {
    Color,
    Dimension,
    Number,
    FontFamily,
    FontWeight,
    Gradient,
    Shadow,
    /// An unrecognized token type (forward-compat; version-relative).
    Unknown(String),
}

/// Whether `t` is what the `type` property text `s` denotes.
pub open spec fn denotes_token_type(s: Seq<char>, t: TokenType) -> bool {
    match t {
        TokenType::Color => s == "color"@,
        TokenType::Dimension => s == "dimension"@,
        TokenType::Number => s == "number"@,
        TokenType::FontFamily => s == "fontFamily"@,
        TokenType::FontWeight => s == "fontWeight"@,
        TokenType::Gradient => s == "gradient"@,
        TokenType::Shadow => s == "shadow"@,
        TokenType::Unknown(u) => u@ == s && s != "color"@ && s != "dimension"@ && s != "number"@
            && s != "fontFamily"@ && s != "fontWeight"@ && s != "gradient"@ && s != "shadow"@,
    }
}

/// Each `type` text denotes one token type: two types it denotes are the
/// same variant, and for an unknown type the same text.
pub proof fn law_type_text_denotes_one_type(s: Seq<char>, a: TokenType, b: TokenType)
    requires
        denotes_token_type(s, a),
        denotes_token_type(s, b),
    ensures
        match (a, b) {
            (TokenType::Unknown(u), TokenType::Unknown(v)) => u@ == v@,
            _ => a == b,
        },
{
    reveal_strlit("color");
    reveal_strlit("dimension");
    reveal_strlit("number");
    reveal_strlit("fontFamily");
    reveal_strlit("fontWeight");
    reveal_strlit("gradient");
    reveal_strlit("shadow");
    assert("color"@[0] == 'c');
    assert("dimension"@[0] == 'd');
    assert("number"@[0] == 'n');
    assert("fontFamily"@[0] == 'f' && "fontFamily"@[4] == 'F');
    assert("fontWeight"@[0] == 'f' && "fontWeight"@[4] == 'W');
    assert("gradient"@[0] == 'g');
    assert("shadow"@[0] == 's');
}

impl TokenType {
    /// Parse the token type from the `type` property string. Infallible: an
    /// unrecognized type is preserved as `TokenType::Unknown`.
    pub fn from_type_name(s: &str) -> (r: Self)
        ensures
            denotes_token_type(s@, r),
    {
        if str_eq(s, "color") {
            TokenType::Color
        } else if str_eq(s, "dimension") {
            TokenType::Dimension
        } else if str_eq(s, "number") {
            TokenType::Number
        } else if str_eq(s, "fontFamily") {
            TokenType::FontFamily
        } else if str_eq(s, "fontWeight") {
            TokenType::FontWeight
        } else if str_eq(s, "gradient") {
            TokenType::Gradient
        } else if str_eq(s, "shadow") {
            TokenType::Shadow
        } else {
            let cs = chars_of(s);
            TokenType::Unknown(string_from_chars(cs.as_slice()))
        }
    }
}

/// Whether a gradient token is linear or radial.
#[derive(Debug, Clone, Copy, PartialEq, Eq, Structural)]
pub enum GradientKind {
    /// A linear gradient (the default).
    Linear,
    /// A radial gradient.
    Radial,
}

impl Default for GradientKind {
    /// `Linear`.
    fn default() -> (k: Self)
        ensures
            k == GradientKind::Linear,
    {
        GradientKind::Linear
    }
}

} // verus!
