//! Checks made before rendering: locked asset hashes and page selection.

use vstd::prelude::*;
use vstd::string::StringExecFns;
use sha2::Digest;
use crate::text::{
    chars_of, decimal, decimal_chars, string_from_chars, trim, trim_chars, str_eq, to_lowercase,
    unicode_lowercase,
};

verus! {

/// An error from the render command, with the process exit code it maps to.
#[derive(Debug)]
pub struct RenderCmdErr {
    /// Human-readable message.
    pub message: String,
    /// Exit code: 1 for validation errors, 2 for usage, parse or I/O errors.
    pub exit_code: u8,
}

impl RenderCmdErr {
    /// An error carrying `message` and `exit_code`.
    pub fn new(message: String, exit_code: u8) -> (r: Self)
        ensures
            r.message@ == message@,
            r.exit_code == exit_code,
    {
        RenderCmdErr { message, exit_code }
    }
}

pub open spec fn is_lower_hex(c: char) -> bool {
    ('0' <= c <= '9') || ('a' <= c <= 'f')
}

/// The lowercase hexadecimal SHA-256 digest of `bytes`.
pub uninterp spec fn sha256_hex(bytes: Seq<u8>) -> Seq<char>;

/// `sha2::Sha256::digest`, written with `{:x}`: the digest of `bytes` as 64
/// lowercase hexadecimal digits (named by `sha256_hex`).
#[verifier::external_body]
fn sha256_hex_of(bytes: &[u8]) -> (r: String)
    ensures
        r@ == sha256_hex(bytes@),
        r@.len() == 64,
        forall|i: int| 0 <= i < r@.len() ==> is_lower_hex(#[trigger] r@[i]),
{
    format!("{:x}", sha2::Sha256::digest(bytes))
}

pub open spec fn no_hash_message(kind: Seq<char>, id: Seq<char>) -> Seq<char> {
    "--locked: "@ + kind + " '"@ + id + "' has no declared sha256"@
}

pub open spec fn mismatch_message(kind: Seq<char>, id: Seq<char>, declared: Seq<char>, actual: Seq<char>) -> Seq<
    char,
> {
    "--locked: "@ + kind + " '"@ + id + "' sha256 mismatch (declared "@ + declared + ", actual "@
        + actual + ")"@
}

/// The outcome of checking `bytes` against the declared hash `sha256` of
/// the `kind` named `id`: no declared hash is an error; otherwise the
/// declared hash, trimmed and lowercased, must equal the digest.
pub open spec fn locked_check(
    id: Seq<char>,
    kind: Seq<char>,
    sha256: Option<Seq<char>>,
    bytes: Seq<u8>,
) -> Result<(), Seq<char>> {
    match sha256 {
        None => Err(no_hash_message(kind, id)),
        Some(declared) => if unicode_lowercase(trim(declared)) == sha256_hex(bytes) {
            Ok(())
        } else {
            Err(mismatch_message(kind, id, declared, sha256_hex(bytes)))
        },
    }
}

pub open spec fn opt_str_view(o: Option<&str>) -> Option<Seq<char>> {
    match o {
        Some(s) => Some(s@),
        None => None,
    }
}

/// Check the contents `bytes` of the `kind` (`"asset"`, `"font asset"`)
/// named `id` against its declared `sha256`. A missing hash or a mismatch
/// is an error with exit code 2.
pub fn verify_locked_sha256(id: &str, kind: &str, sha256: Option<&str>, bytes: &[u8]) -> (r: Result<
    (),
    RenderCmdErr,
>)
    ensures
        match r {
            Ok(()) => locked_check(id@, kind@, opt_str_view(sha256), bytes@) is Ok,
            Err(e) => e.exit_code == 2 && locked_check(id@, kind@, opt_str_view(sha256), bytes@)
                == Err::<(), Seq<char>>(e.message@),
        },
{
    let declared = match sha256 {
        Some(d) => d,
        None => {
            let mut m = String::new();
            m.append("--locked: ");
            m.append(kind);
            m.append(" '");
            m.append(id);
            m.append("' has no declared sha256");
            return Err(RenderCmdErr::new(m, 2));
        },
    };
    let hex = sha256_hex_of(bytes);
    let cs = chars_of(declared);
    let trimmed = string_from_chars(trim_chars(cs.as_slice()));
    let lowered = to_lowercase(trimmed.as_str());
    if str_eq(lowered.as_str(), hex.as_str()) {
        Ok(())
    } else {
        let mut m = String::new();
        m.append("--locked: ");
        m.append(kind);
        m.append(" '");
        m.append(id);
        m.append("' sha256 mismatch (declared ");
        m.append(declared);
        m.append(", actual ");
        m.append(hex.as_str());
        m.append(")");
        Err(RenderCmdErr::new(m, 2))
    }
}

pub open spec fn page_range_message(page: nat, count: nat) -> Seq<char> {
    "page "@ + decimal(page) + " out of range; document has "@ + decimal(count) + " page(s)"@
}

/// The 0-based index of the 1-based `page` in a document of `page_count`
/// pages; a page outside `1..=page_count` is an error with exit code 2.
pub fn resolve_page_index(page_count: usize, page: usize) -> (r: Result<usize, RenderCmdErr>)
    ensures
        match r {
            Ok(i) => 1 <= page <= page_count && i == page - 1,
            Err(e) => !(1 <= page <= page_count) && e.exit_code == 2 && e.message@
                == page_range_message(page as nat, page_count as nat),
        },
{
    if page_count == 0 || page < 1 || page > page_count {
        let mut m = chars_of("page ");
        let mut p = decimal_chars(page as u64);
        m.append(&mut p);
        let mut mid = chars_of(" out of range; document has ");
        m.append(&mut mid);
        let mut n = decimal_chars(page_count as u64);
        m.append(&mut n);
        let mut tail = chars_of(" page(s)");
        m.append(&mut tail);
        return Err(RenderCmdErr::new(string_from_chars(m.as_slice()), 2));
    }
    Ok(page - 1)
}

} // verus!
