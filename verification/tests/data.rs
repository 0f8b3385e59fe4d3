use zenith::data::{
    context_from_csv_table, context_from_json_nodes, data_file_kind, load_data, load_data_context,
    DataContext, DataFileKind, DataInputError, JsonKind, JsonNode,
};

fn node(parent: Option<usize>, key: &str, kind: JsonKind) -> JsonNode {
    JsonNode { parent, key: key.to_owned(), kind }
}

#[test]
fn get_array_returns_slice_for_present_key() {
    let mut ctx = DataContext::default();
    ctx.insert_array(
        "sales".to_owned(),
        vec!["12".to_owned(), "18".to_owned(), "15".to_owned()],
    );
    let got: Vec<&str> = ctx
        .get_array("sales")
        .unwrap()
        .iter()
        .map(String::as_str)
        .collect();
    assert_eq!(got, ["12", "18", "15"]);
}

#[test]
fn get_array_returns_none_for_missing_key() {
    let ctx = DataContext::default();
    assert!(ctx.get_array("missing").is_none());
}

#[test]
fn get_scalar_unaffected_by_arrays() {
    let mut ctx = DataContext::default();
    ctx.insert_field("x".to_owned(), "hello".to_owned());
    ctx.insert_array("x".to_owned(), vec!["a".to_owned(), "b".to_owned()]);
    assert_eq!(ctx.get("x"), Some("hello"));
    let got: Vec<&str> = ctx
        .get_array("x")
        .unwrap()
        .iter()
        .map(String::as_str)
        .collect();
    assert_eq!(got, ["a", "b"]);
}

#[test]
fn default_has_empty_arrays() {
    let ctx = DataContext::default();
    assert!(ctx.array_keys().is_empty());
}

#[test]
fn later_insert_replaces_earlier_value() {
    let mut ctx = DataContext::new();
    ctx.insert_field("k".to_owned(), "one".to_owned());
    ctx.insert_field("k".to_owned(), "two".to_owned());
    assert_eq!(ctx.get("k"), Some("two"));
    assert_eq!(ctx.field_keys(), vec!["k".to_owned()]);
}

#[test]
fn keys_come_out_sorted() {
    let mut ctx = DataContext::new();
    for k in ["b", "a.c", "a", "ä", "B"] {
        ctx.insert_field(k.to_owned(), String::new());
    }
    assert_eq!(ctx.field_keys(), vec!["B", "a", "a.c", "b", "ä"]);
}

#[test]
fn json_dot_path_collision_follows_member_order() {
    // Members come in key order: "a" (whose "b" is bound first), then "a.b".
    let ctx = load_data_context("d.json", br#"{"a.b": 2, "a": {"b": 1}}"#).unwrap();
    assert_eq!(ctx.get("a.b"), Some("2"));
}

#[test]
fn json_empty_key_nested_object_has_no_leading_dot() {
    let ctx = load_data_context("d.json", br#"{"": {"b": "x"}}"#).unwrap();
    assert_eq!(ctx.get("b"), Some("x"));
}

#[test]
fn json_array_items_keep_scalars_and_skip_containers() {
    let ctx = load_data_context("d.json", br#"{"v": [1, [2], {"a": 3}, "x"]}"#).unwrap();
    let got: Vec<&str> = ctx.get_array("v").unwrap().iter().map(String::as_str).collect();
    assert_eq!(got, ["1", "x"]);
    assert_eq!(ctx.get("v.a"), None);
}

#[test]
fn json_deep_nesting_flattens_every_level() {
    let ctx = load_data_context("d.json", br#"{"a": {"b": {"c": false}}}"#).unwrap();
    assert_eq!(ctx.get("a.b.c"), Some("false"));
}

#[test]
fn json_array_first_element_nested_containers_flatten() {
    let ctx = load_data_context("d.json", br#"[{"k": {"n": 1}, "l": [true]}, {"k": 9}]"#).unwrap();
    assert_eq!(ctx.get("k.n"), Some("1"));
    let got: Vec<&str> = ctx.get_array("l").unwrap().iter().map(String::as_str).collect();
    assert_eq!(got, ["true"]);
}

#[test]
fn invalid_json_is_an_error() {
    let err = load_data_context("d.json", b"{").unwrap_err();
    assert!(err.message.starts_with("--data: 'd.json' is not valid JSON: "), "got: {}", err.message);
}

#[test]
fn invalid_utf8_is_an_error() {
    let err = load_data_context("d.csv", &[0x61, 0xc3]).unwrap_err();
    assert!(err.message.starts_with("--data: 'd.csv' is not valid UTF-8: "), "got: {}", err.message);
}

#[test]
fn error_messages_name_kinds() {
    let err = load_data_context("d.json", b"true").unwrap_err();
    assert_eq!(err.message, "--data: 'd.json' contains a boolean not a JSON object or array");
    let err = load_data_context("d.json", b"[[1]]").unwrap_err();
    assert_eq!(err.message, "--data: first element of 'd.json' is an array not an object");
    let err = load_data_context("d.json", b"null").unwrap_err();
    assert_eq!(err.message, "--data: 'd.json' contains null not a JSON object or array");
}

#[test]
fn extension_is_case_insensitive() {
    let ctx = load_data_context("D.JSON", br#"{"a": "b"}"#).unwrap();
    assert_eq!(ctx.get("a"), Some("b"));
    let ctx = load_data_context("x.Csv", b"h\nv").unwrap();
    assert_eq!(ctx.get("h"), Some("v"));
}

#[test]
fn unknown_extension_message_is_lowercased() {
    let err = load_data_context("x.TOML", b"").unwrap_err();
    assert_eq!(err.message, "--data: unsupported file extension '.toml'; expected .json or .csv");
    let err = load_data_context("noext", b"").unwrap_err();
    assert_eq!(err.message, "--data: unsupported file extension '.'; expected .json or .csv");
}

#[test]
fn data_file_kind_by_extension() {
    assert_eq!(data_file_kind("json").unwrap(), DataFileKind::Json);
    assert_eq!(data_file_kind("CSV").unwrap(), DataFileKind::Csv);
    assert!(data_file_kind("txt").is_err());
}

#[test]
fn load_data_reads_in_the_given_format() {
    let ctx = load_data(DataFileKind::Csv, "x.json", b"a,b\n1,2").unwrap();
    assert_eq!(ctx.get("b"), Some("2"));
}

#[test]
fn csv_duplicate_header_later_column_wins() {
    let ctx = load_data_context("d.csv", b"a,a\n1,2\n3,4").unwrap();
    assert_eq!(ctx.get("a"), Some("2"));
    let got: Vec<&str> = ctx.get_array("a").unwrap().iter().map(String::as_str).collect();
    assert_eq!(got, ["2", "4"]);
}

#[test]
fn csv_long_row_extra_fields_are_ignored() {
    let ctx = load_data_context("d.csv", b"a\n1,2,3").unwrap();
    assert_eq!(ctx.get("a"), Some("1"));
    assert_eq!(ctx.field_keys(), vec!["a".to_owned()]);
}

#[test]
fn csv_table_without_rows_is_an_error() {
    let err = context_from_csv_table("t.csv", &vec!["a".to_owned()], &vec![]).unwrap_err();
    assert_eq!(err.message, "--data: 't.csv' has a header but no data rows");
}

#[test]
fn json_nodes_build_a_context() {
    let nodes = vec![
        node(None, "", JsonKind::Object),
        node(Some(0), "n", JsonKind::Number("7".to_owned())),
        node(Some(0), "o", JsonKind::Object),
        node(Some(2), "s", JsonKind::Str("hi".to_owned())),
    ];
    let ctx = context_from_json_nodes("x", &nodes).unwrap();
    assert_eq!(ctx.get("n"), Some("7"));
    assert_eq!(ctx.get("o.s"), Some("hi"));
    assert_eq!(ctx.get("o"), None);
}

#[test]
fn empty_node_list_is_treated_as_null() {
    let err = context_from_json_nodes("x", &vec![]).unwrap_err();
    assert_eq!(err.message, "--data: 'x' contains null not a JSON object or array");
}

#[test]
fn cannot_read_message() {
    let e = DataInputError::cannot_read("a.json", "No such file");
    assert_eq!(e.message, "--data: cannot read 'a.json': No such file");
    assert_eq!(DataInputError::new("m".to_owned()).message, "m");
}
