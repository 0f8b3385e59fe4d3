use zenith::fonts::{fonts_listing, list, os_font_dirs, sort_families, FontEnv, FontPlatform};

fn env(home: Option<&str>) -> FontEnv {
    FontEnv {
        home: home.map(str::to_owned),
        windir: Some("C:\\Windows".to_owned()),
        local_app_data: None,
    }
}

#[test]
fn os_font_dirs_is_callable_and_paths_are_absolute_or_under_home() {
    for platform in [FontPlatform::Linux, FontPlatform::MacOs, FontPlatform::Windows, FontPlatform::Other] {
        for dir in os_font_dirs(platform, &env(Some("/home/u"))) {
            assert!(!dir.is_empty(), "an os font dir entry must not be empty");
        }
    }
}

#[test]
fn linux_dirs_with_home() {
    let dirs = os_font_dirs(FontPlatform::Linux, &env(Some("/home/u")));
    assert_eq!(
        dirs,
        vec![
            "/usr/share/fonts",
            "/usr/local/share/fonts",
            "/home/u/.fonts",
            "/home/u/.local/share/fonts"
        ]
    );
}

#[test]
fn linux_dirs_without_home() {
    let dirs = os_font_dirs(FontPlatform::Linux, &env(None));
    assert_eq!(dirs, vec!["/usr/share/fonts", "/usr/local/share/fonts"]);
}

#[test]
fn macos_dirs() {
    let dirs = os_font_dirs(FontPlatform::MacOs, &env(Some("/Users/u/")));
    assert_eq!(dirs, vec!["/System/Library/Fonts", "/Library/Fonts", "/Users/u/Library/Fonts"]);
}

#[test]
fn other_platform_has_no_dirs() {
    assert!(os_font_dirs(FontPlatform::Other, &env(Some("/h"))).is_empty());
    assert_eq!(os_font_dirs(FontPlatform::Windows, &env(None)).len(), 1);
}

#[test]
fn families_are_deduped_case_insensitively_and_sorted() {
    let bundled = vec!["Noto Sans".to_owned(), "noto sans".to_owned(), "Inter".to_owned()];
    let local = vec!["NOTO SANS".to_owned(), "Zapfino".to_owned(), "arial".to_owned(), "Arial".to_owned()];
    let (b, l) = sort_families(&bundled, &local);
    assert_eq!(b, vec!["Inter", "Noto Sans"]);
    assert_eq!(l, vec!["arial", "Zapfino"]);
}

#[test]
fn human_listing_sections() {
    let out = fonts_listing(&vec!["Noto Sans".to_owned()], &vec![], false);
    assert_eq!(
        out,
        "Bundled (portable)\n──────────────────\n  Noto Sans\n\nLocal / system (this machine only)\n──────────────────────────────────\n  (none found)"
    );
    let out = fonts_listing(&vec![], &vec!["Zapfino".to_owned()], false);
    assert!(out.starts_with("Bundled (portable)\n──────────────────\n  (none)\n"));
    assert!(out.ends_with("  Zapfino\n\nNote: local fonts are not portable — renders that use them may differ on another machine and trip a `font.local` advisory."));
}

#[test]
fn json_listing_envelope() {
    let out = fonts_listing(&vec!["Noto Sans".to_owned(), "Inter".to_owned()], &vec![], true);
    let v: serde_json::Value = serde_json::from_str(&out).expect("valid JSON");
    assert_eq!(v["schema"], "zenith-fonts-v1");
    assert_eq!(v["bundled"][1], "Inter");
    assert!(v["local"].as_array().expect("array").is_empty());
    assert_eq!(
        out,
        "{\n  \"schema\": \"zenith-fonts-v1\",\n  \"bundled\": [\n    \"Noto Sans\",\n    \"Inter\"\n  ],\n  \"local\": []\n}"
    );
}

#[test]
fn linux_home_dirs_are_home_joined_with_the_names() {
    let home = "/home/u";
    let dirs = os_font_dirs(FontPlatform::Linux, &env(Some(home)));
    let expected_fonts = std::path::Path::new(home).join(".fonts");
    let expected_local = std::path::Path::new(home).join(".local/share/fonts");
    assert_eq!(dirs[2], expected_fonts.to_string_lossy());
    assert_eq!(dirs[3], expected_local.to_string_lossy());
}

#[test]
fn home_with_trailing_slash_gets_no_second_slash() {
    let dirs = os_font_dirs(FontPlatform::Linux, &env(Some("/home/u/")));
    assert_eq!(dirs[2], "/home/u/.fonts");
    let mac = os_font_dirs(FontPlatform::MacOs, &env(Some("/Users/u/")));
    assert_eq!(mac[2], "/Users/u/Library/Fonts");
}

#[test]
fn windows_dirs_join_the_variables() {
    let e = FontEnv {
        home: None,
        windir: Some("C:/Windows".to_owned()),
        local_app_data: Some("C:/Users/u/AppData/Local/".to_owned()),
    };
    let dirs = os_font_dirs(FontPlatform::Windows, &e);
    assert_eq!(dirs, vec!["C:/Windows/Fonts", "C:/Users/u/AppData/Local/Microsoft/Windows/Fonts"]);
}

/// The bundled faces' families, as the bundled provider names them.
fn bundled_families() -> Vec<String> {
    vec!["Noto Sans".to_owned(), "noto sans".to_owned(), "Inter".to_owned()]
}

#[test]
fn list_human_returns_exit_0_and_contains_bundled_section() {
    let (output, code) = list(&bundled_families(), &vec!["Zapfino".to_owned()], false);
    assert_eq!(code, 0, "exit code must be 0");
    assert!(
        output.contains("Bundled"),
        "human output must contain a 'Bundled' section header"
    );
    assert!(
        output.contains("Noto Sans"),
        "bundled section must include 'Noto Sans'"
    );
    assert!(
        output.contains("Local / system"),
        "human output must contain a 'Local / system' section header"
    );
}

#[test]
fn list_json_returns_exit_0_and_valid_envelope() {
    let (output, code) = list(&bundled_families(), &vec![], true);
    assert_eq!(code, 0, "exit code must be 0");
    let parsed: serde_json::Value =
        serde_json::from_str(&output).expect("--json output must be valid JSON");
    assert_eq!(
        parsed["schema"], "zenith-fonts-v1",
        "JSON envelope must carry schema = 'zenith-fonts-v1'"
    );
    let bundled = parsed["bundled"]
        .as_array()
        .expect("'bundled' must be an array");
    assert!(
        bundled.iter().any(|v| v.as_str() == Some("Noto Sans")),
        "bundled array must include 'Noto Sans'"
    );
    assert!(
        parsed["local"].is_array(),
        "'local' key must be present and be an array"
    );
}

#[test]
fn list_dedups_and_sorts_before_listing() {
    let (output, _) = list(&bundled_families(), &vec!["inter".to_owned(), "Zapfino".to_owned()], true);
    assert_eq!(
        output,
        "{\n  \"schema\": \"zenith-fonts-v1\",\n  \"bundled\": [\n    \"Inter\",\n    \"Noto Sans\"\n  ],\n  \"local\": [\n    \"Zapfino\"\n  ]\n}"
    );
}
