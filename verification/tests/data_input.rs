use zenith::data::{data_kind_for_path, load_data_context, DataFileKind};

/// Collect an array accessor's `&[String]` into borrowed `&str`s for ergonomic
/// comparison against `&str` literals in assertions.
fn as_strs(arr: Option<&[String]>) -> Option<Vec<&str>> {
    arr.map(|a| a.iter().map(String::as_str).collect())
}

/// The name and contents of a data file `data<suffix>`.
fn data_file(suffix: &str, content: &'static [u8]) -> (String, &'static [u8]) {
    (format!("data{suffix}"), content)
}

// ── JSON: flat object ─────────────────────────────────────────────────

#[test]
fn json_flat_object_fields() {
    let (path, content) = data_file(".json", br#"{"name": "Alice", "age": 30, "active": true}"#);
    let ctx = load_data_context(&path, content).unwrap();
    assert_eq!(ctx.get("name"), Some("Alice"));
    assert_eq!(ctx.get("age"), Some("30"));
    assert_eq!(ctx.get("active"), Some("true"));
}

#[test]
fn json_null_becomes_empty_string() {
    let (path, content) = data_file(".json", br#"{"x": null}"#);
    let ctx = load_data_context(&path, content).unwrap();
    assert_eq!(ctx.get("x"), Some(""));
}

// ── JSON: nested object flattens to dot-paths ─────────────────────────

#[test]
fn json_nested_object_flattens() {
    let (path, content) = data_file(
        ".json",
        br#"{"revenue": {"total": 42, "tax": 3.5}, "label": "Q1"}"#,
    );
    let ctx = load_data_context(&path, content).unwrap();
    assert_eq!(ctx.get("revenue.total"), Some("42"));
    assert_eq!(ctx.get("revenue.tax"), Some("3.5"));
    assert_eq!(ctx.get("label"), Some("Q1"));
    // Parent key should NOT be inserted.
    assert_eq!(ctx.get("revenue"), None);
}

// ── JSON: array nested inside object is skipped ───────────────────────

#[test]
fn json_nested_array_is_skipped() {
    let (path, content) = data_file(".json", br#"{"tags": [1, 2, 3], "val": "ok"}"#);
    let ctx = load_data_context(&path, content).unwrap();
    assert_eq!(ctx.get("val"), Some("ok"));
    assert_eq!(ctx.get("tags"), None);
}

// ── JSON: top-level array — first element used ────────────────────────

#[test]
fn json_array_first_element_used() {
    let (path, content) = data_file(
        ".json",
        br##"[{"color": "#ff0000"}, {"color": "#00ff00"}]"##,
    );
    let ctx = load_data_context(&path, content).unwrap();
    assert_eq!(ctx.get("color"), Some("#ff0000"));
}

#[test]
fn json_empty_array_is_error() {
    let (path, content) = data_file(".json", b"[]");
    let err = load_data_context(&path, content).unwrap_err();
    assert!(
        err.message.contains("empty JSON array"),
        "expected 'empty JSON array' in error; got: {}",
        err.message
    );
}

#[test]
fn json_array_non_object_first_element_is_error() {
    let (path, content) = data_file(".json", b"[42]");
    let err = load_data_context(&path, content).unwrap_err();
    assert!(
        err.message.contains("not an object"),
        "expected 'not an object' in error; got: {}",
        err.message
    );
}

#[test]
fn json_top_level_scalar_is_error() {
    let (path, content) = data_file(".json", b"\"hello\"");
    let err = load_data_context(&path, content).unwrap_err();
    assert!(
        err.message.contains("not a JSON object or array"),
        "expected 'not a JSON object or array' in error; got: {}",
        err.message
    );
}

// ── CSV ───────────────────────────────────────────────────────────────

#[test]
fn csv_header_and_first_row() {
    let (path, content) = data_file(".csv", b"name,city\nAlice,Wonderland\nBob,Nowhere");
    let ctx = load_data_context(&path, content).unwrap();
    assert_eq!(ctx.get("name"), Some("Alice"));
    assert_eq!(ctx.get("city"), Some("Wonderland"));
}

#[test]
fn csv_no_data_rows_is_error() {
    let (path, content) = data_file(".csv", b"name,city\n");
    let err = load_data_context(&path, content).unwrap_err();
    assert!(
        err.message.contains("no data rows"),
        "expected 'no data rows' in error; got: {}",
        err.message
    );
}

// ── Unknown extension ─────────────────────────────────────────────────

#[test]
fn unknown_extension_is_error() {
    let (path, content) = data_file(".toml", b"key = \"val\"");
    let err = load_data_context(&path, content).unwrap_err();
    assert!(
        err.message.contains("unsupported file extension"),
        "expected 'unsupported file extension' in error; got: {}",
        err.message
    );
}

// ── BTreeMap determinism ──────────────────────────────────────────────

#[test]
fn json_fields_are_sorted() {
    let (path, content) = data_file(".json", br#"{"z": "last", "a": "first", "m": "middle"}"#);
    let ctx = load_data_context(&path, content).unwrap();
    let field_keys = ctx.field_keys();
    let keys: Vec<&str> = field_keys.iter().map(String::as_str).collect();
    assert_eq!(keys, vec!["a", "m", "z"]);
}

// ── JSON: array values populate arrays map ────────────────────────────

#[test]
fn json_array_value_populates_arrays() {
    let (path, content) = data_file(".json", br#"{"sales": [12, 18, 15]}"#);
    let ctx = load_data_context(&path, content).unwrap();
    assert_eq!(
        as_strs(ctx.get_array("sales")),
        Some(vec!["12", "18", "15"]),
        "numeric JSON array must populate arrays map"
    );
    // The key must NOT appear in scalar fields.
    assert_eq!(ctx.get("sales"), None);
}

#[test]
fn json_array_with_mixed_scalars() {
    let (path, content) = data_file(".json", br#"{"vals": [1, "two", true, null]}"#);
    let ctx = load_data_context(&path, content).unwrap();
    assert_eq!(
        as_strs(ctx.get_array("vals")),
        Some(vec!["1", "two", "true", ""]),
    );
}

#[test]
fn json_empty_array_is_not_inserted() {
    let (path, content) = data_file(".json", br#"{"empty": [], "x": "y"}"#);
    let ctx = load_data_context(&path, content).unwrap();
    assert!(
        ctx.get_array("empty").is_none(),
        "empty array must not be inserted"
    );
    assert_eq!(ctx.get("x"), Some("y"));
}

#[test]
fn json_scalar_and_array_coexist() {
    let (path, content) = data_file(".json", br#"{"name": "Alice", "scores": [10, 20, 30]}"#);
    let ctx = load_data_context(&path, content).unwrap();
    assert_eq!(ctx.get("name"), Some("Alice"));
    assert_eq!(
        as_strs(ctx.get_array("scores")),
        Some(vec!["10", "20", "30"])
    );
}

// ── CSV: all rows populate arrays map ────────────────────────────────

#[test]
fn csv_all_rows_populate_arrays() {
    let (path, content) = data_file(".csv", b"month,revenue\nJan,100\nFeb,200\nMar,150");
    let ctx = load_data_context(&path, content).unwrap();
    // Scalar fields: first row only.
    assert_eq!(ctx.get("month"), Some("Jan"));
    assert_eq!(ctx.get("revenue"), Some("100"));
    // Array columns: all rows.
    assert_eq!(
        as_strs(ctx.get_array("month")),
        Some(vec!["Jan", "Feb", "Mar"]),
    );
    assert_eq!(
        as_strs(ctx.get_array("revenue")),
        Some(vec!["100", "200", "150"]),
    );
}

#[test]
fn csv_short_row_pads_with_empty_string() {
    // Second row is missing the revenue cell.
    let (path, content) = data_file(".csv", b"month,revenue\nJan,100\nFeb");
    let ctx = load_data_context(&path, content).unwrap();
    assert_eq!(
        as_strs(ctx.get_array("revenue")),
        Some(vec!["100", ""]),
        "short CSV row must pad missing cells with empty string"
    );
}

#[test]
fn unknown_extension_message_names_the_lowercased_extension() {
    let err = load_data_context("dir/data.TOML", b"x").unwrap_err();
    assert_eq!(err.message, "--data: unsupported file extension '.toml'; expected .json or .csv");
}

#[test]
fn uppercase_json_extension_is_read_as_json() {
    let ctx = load_data_context("dir/DATA.JSON", br#"{"a":"1"}"#).expect("json loads");
    assert_eq!(ctx.get("a"), Some("1"));
}

#[test]
fn dotfile_without_extension_is_an_error_with_an_empty_extension() {
    let err = load_data_context("dir/.json", b"{}").unwrap_err();
    assert_eq!(err.message, "--data: unsupported file extension '.'; expected .json or .csv");
}

#[test]
fn extension_comes_from_the_file_name_not_the_directory() {
    let err = load_data_context("data.json/notes", b"{}").unwrap_err();
    assert_eq!(err.message, "--data: unsupported file extension '.'; expected .json or .csv");
}

#[test]
fn data_kind_follows_the_path_extension() {
    assert_eq!(data_kind_for_path("a/b.Csv").ok(), Some(DataFileKind::Csv));
    assert_eq!(data_kind_for_path("a/b.json").ok(), Some(DataFileKind::Json));
    assert!(data_kind_for_path("a/b").is_err());
}

#[test]
fn toml_file_with_backslashes_is_not_read_as_json() {
    let err = load_data_context("C:\\docs\\data.toml", br#"{"a":"1"}"#).unwrap_err();
    assert!(err.message.contains("unsupported file extension"), "got: {}", err.message);
}
