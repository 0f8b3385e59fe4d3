use zenith::policy::{DiagnosticPolicy, PolicyEntry, PolicyVerb};
use zenith::policy_file::{parse_diagnostic_policy, ParseErrorCode};

fn entry(verb: PolicyVerb, code: &str) -> PolicyEntry {
    PolicyEntry {
        verb,
        code: code.to_owned(),
        source_span: None,
    }
}

#[test]
fn default_policy_is_empty_and_inert() {
    let p = DiagnosticPolicy::default();
    assert!(p.entries.is_empty());
    assert_eq!(p.verb_for("anything"), None);
}

#[test]
fn verb_for_returns_the_governing_verb() {
    let p = DiagnosticPolicy {
        entries: vec![entry(PolicyVerb::Allow, "layout.off_canvas")],
    };
    assert_eq!(p.verb_for("layout.off_canvas"), Some(&PolicyVerb::Allow));
    assert_eq!(p.verb_for("token.unused"), None);
}

#[test]
fn verb_for_is_last_wins() {
    let p = DiagnosticPolicy {
        entries: vec![
            entry(PolicyVerb::Deny, "node.unknown_property"),
            entry(PolicyVerb::Warn, "node.unknown_property"),
        ],
    };
    assert_eq!(p.verb_for("node.unknown_property"), Some(&PolicyVerb::Warn));
}

#[test]
fn parses_allow_deny_warn_block() {
    let src = br#"diagnostics {
            allow "layout.off_canvas"
            deny  "font.local"
            warn  "node.unknown_property"
        }"#;
    let policy = parse_diagnostic_policy(src).expect("must parse");
    assert_eq!(policy.entries.len(), 3);
    assert_eq!(policy.verb_for("layout.off_canvas"), Some(&PolicyVerb::Allow));
    assert_eq!(policy.verb_for("font.local"), Some(&PolicyVerb::Deny));
    assert_eq!(policy.verb_for("node.unknown_property"), Some(&PolicyVerb::Warn));
}

#[test]
fn empty_source_is_default_policy() {
    let policy = parse_diagnostic_policy(b"").expect("empty must parse");
    assert!(policy.entries.is_empty());
}

#[test]
fn no_diagnostics_node_is_default_policy() {
    let src = br#"something else=1
        other "node""#;
    let policy = parse_diagnostic_policy(src).expect("must parse");
    assert!(policy.entries.is_empty());
}

#[test]
fn malformed_kdl_is_error() {
    let src = b"diagnostics {{{ not valid kdl";
    let err = parse_diagnostic_policy(src).expect_err("must fail");
    assert_eq!(err.code, ParseErrorCode::InvalidKdl);
}

#[test]
fn entry_missing_code_is_error() {
    let src = br#"diagnostics {
            deny
        }"#;
    let err = parse_diagnostic_policy(src).expect_err("missing code must fail");
    assert_eq!(err.code, ParseErrorCode::InvalidPropertyValue);
}

#[test]
fn last_wins_across_entries() {
    let src = br#"diagnostics {
            deny "node.unknown_property"
            warn "node.unknown_property"
        }"#;
    let policy = parse_diagnostic_policy(src).expect("must parse");
    assert_eq!(policy.verb_for("node.unknown_property"), Some(&PolicyVerb::Warn));
}

#[test]
fn invalid_utf8_is_error() {
    let err = parse_diagnostic_policy(&[0x64, 0xff, 0x65]).expect_err("not UTF-8");
    assert_eq!(err.code, ParseErrorCode::NotUtf8);
    assert!(err.message.starts_with("config source is not valid UTF-8: "), "got: {}", err.message);
}

#[test]
fn kdl_error_message_is_prefixed() {
    let err = parse_diagnostic_policy(b"diagnostics {{{").expect_err("must fail");
    assert!(err.message.starts_with("config KDL parse error: "), "got: {}", err.message);
}

#[test]
fn only_first_diagnostics_block_is_read_and_entries_keep_order() {
    let src = br#"diagnostics {
            allow "a"
            deny "b"
        }
        diagnostics {
            warn "c"
        }"#;
    let policy = parse_diagnostic_policy(src).expect("must parse");
    let codes: Vec<&str> = policy.entries.iter().map(|e| e.code.as_str()).collect();
    assert_eq!(codes, vec!["a", "b"]);
    assert_eq!(policy.entries[1].verb, PolicyVerb::Deny);
    assert_eq!(policy.verb_for("c"), None);
}

#[test]
fn missing_code_message_names_the_verb() {
    let err = parse_diagnostic_policy(b"diagnostics {\n  warn\n}\n").expect_err("must fail");
    assert_eq!(err.message, "`warn` entry requires a diagnostic code string");
}
