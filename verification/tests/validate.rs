use zenith::validate::{config_error, parse_error, run_exit_code, validated_exit_code, RunStage, Diagnostic, Severity, ValidationReport};

fn diag(code: &str, severity: Severity) -> Diagnostic {
    Diagnostic {
        code: code.to_owned(),
        severity,
        message: String::new(),
        subject_id: None,
    }
}

#[test]
fn report_with_an_error_has_errors() {
    let report = ValidationReport {
        diagnostics: vec![diag("a", Severity::Warning), diag("b", Severity::Error)],
    };
    assert!(report.has_errors());
}

#[test]
fn report_without_errors() {
    let report = ValidationReport {
        diagnostics: vec![diag("a", Severity::Warning), diag("b", Severity::Advisory)],
    };
    assert!(!report.has_errors());
    assert!(!ValidationReport { diagnostics: vec![] }.has_errors());
}

#[test]
fn config_error_human_form() {
    let out = config_error("bad file", false);
    assert_eq!(out.exit_code, 2);
    assert_eq!(out.stdout, "error[config.error]: bad file");
}

#[test]
fn config_error_json_form() {
    let out = config_error("bad \"file\"", true);
    assert_eq!(out.exit_code, 2);
    let v: serde_json::Value = serde_json::from_str(&out.stdout).expect("valid JSON");
    assert_eq!(v["schema"], "zenith-validate-v1");
    assert_eq!(v["valid"], false);
    assert_eq!(v["diagnostics"][0]["code"], "config.error");
    assert_eq!(v["diagnostics"][0]["severity"], "error");
    assert_eq!(v["diagnostics"][0]["message"], "bad \"file\"");
    assert!(out.stdout.contains("\"valid\": false"));
}

#[test]
fn parse_error_human_and_json_forms() {
    let human = parse_error("unexpected token", false);
    assert_eq!(human.exit_code, 2);
    assert_eq!(human.stdout, "error[parse.error]: unexpected token");
    let json = parse_error("unexpected token", true);
    assert_eq!(json.exit_code, 2);
    let v: serde_json::Value = serde_json::from_str(&json.stdout).expect("valid JSON");
    assert_eq!(v["diagnostics"][0]["code"], "parse.error");
    assert_eq!(v["diagnostics"][0]["message"], "unexpected token");
    assert_eq!(v["diagnostics"][0]["subject_id"], serde_json::Value::Null);
}

#[test]
fn exit_code_is_one_with_an_error_and_zero_otherwise() {
    let bad = ValidationReport { diagnostics: vec![diag("a", Severity::Advisory), diag("b", Severity::Error)] };
    assert_eq!(validated_exit_code(&bad), 1);
    let warn = ValidationReport { diagnostics: vec![diag("a", Severity::Warning)] };
    assert_eq!(validated_exit_code(&warn), 0);
    assert_eq!(validated_exit_code(&ValidationReport { diagnostics: vec![] }), 0);
}

#[test]
fn json_messages_are_escaped_as_serde_json_does() {
    let out = config_error("tab\there \u{1} \"q\" back\\slash\nnl", true);
    assert!(
        out.stdout.contains(r#""message": "tab\there \u0001 \"q\" back\\slash\nnl","#),
        "got: {}",
        out.stdout
    );
    assert!(out.stdout.contains("\\u0001"));
}

#[test]
fn json_messages_quote_exactly_as_serde_json() {
    let mut every_control: String = (0u32..0x20).filter_map(char::from_u32).collect();
    every_control.push_str("\u{7f} \"\\ / é 中 😀");
    for msg in [every_control.as_str(), "", "plain", "a\"b\\c"] {
        let out = config_error(msg, true);
        let expected = format!("\"message\": {},", serde_json::to_string(msg).expect("serializes"));
        assert!(out.stdout.contains(&expected), "got: {}\nexpected: {}", out.stdout, expected);
    }
}

#[test]
fn run_exit_codes_follow_the_stage() {
    assert_eq!(run_exit_code(&RunStage::ConfigFailed), 2);
    assert_eq!(run_exit_code(&RunStage::ParseFailed), 2);
    let bad = ValidationReport { diagnostics: vec![diag("x", Severity::Error)] };
    assert_eq!(run_exit_code(&RunStage::Validated(bad)), 1);
    let ok = ValidationReport { diagnostics: vec![diag("x", Severity::Warning)] };
    assert_eq!(run_exit_code(&RunStage::Validated(ok)), 0);
}
