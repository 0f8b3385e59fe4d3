use zenith::pipeline::{resolve_page_index, verify_locked_sha256, RenderCmdErr};

const ABC_SHA256: &str = "ba7816bf8f01cfea414140de5dae2223b00361a396177a9cb410ff61f20015ad";

#[test]
fn locked_hash_matches() {
    assert!(verify_locked_sha256("img.a", "asset", Some(ABC_SHA256), b"abc").is_ok());
}

#[test]
fn locked_hash_is_trimmed_and_case_insensitive() {
    let declared = format!("  {}\n", ABC_SHA256.to_uppercase());
    assert!(verify_locked_sha256("img.a", "asset", Some(&declared), b"abc").is_ok());
}

#[test]
fn locked_hash_missing_is_an_error() {
    let err = verify_locked_sha256("font.x", "font asset", None, b"abc").unwrap_err();
    assert_eq!(err.exit_code, 2);
    assert_eq!(err.message, "--locked: font asset 'font.x' has no declared sha256");
}

#[test]
fn locked_hash_mismatch_reports_both() {
    let err = verify_locked_sha256("img.a", "asset", Some("00"), b"abc").unwrap_err();
    assert_eq!(err.exit_code, 2);
    assert_eq!(
        err.message,
        format!("--locked: asset 'img.a' sha256 mismatch (declared 00, actual {ABC_SHA256})")
    );
}

#[test]
fn page_index_is_zero_based() {
    assert_eq!(resolve_page_index(3, 1).unwrap(), 0);
    assert_eq!(resolve_page_index(3, 3).unwrap(), 2);
}

#[test]
fn page_out_of_range_is_an_error() {
    let err = resolve_page_index(3, 4).unwrap_err();
    assert_eq!(err.exit_code, 2);
    assert_eq!(err.message, "page 4 out of range; document has 3 page(s)");
    let err = resolve_page_index(2, 0).unwrap_err();
    assert_eq!(err.message, "page 0 out of range; document has 2 page(s)");
    let err = resolve_page_index(0, 1).unwrap_err();
    assert_eq!(err.message, "page 1 out of range; document has 0 page(s)");
}

#[test]
fn render_cmd_err_keeps_fields() {
    let e = RenderCmdErr::new("x".to_owned(), 1);
    assert_eq!((e.message.as_str(), e.exit_code), ("x", 1));
}
