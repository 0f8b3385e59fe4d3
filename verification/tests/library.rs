use zenith::library::{
    load_embedded_packs, parse_pack, resolve_packs, ItemKind, LibraryPack, PackItem, PackSource, FLOWCHART_SOURCE,
};
use zenith::listing::list;

const NO_SELF_ENTRY_SRC: &str = r#"zenith version=1 {
  project id="proj.x" name="No Library"
  tokens format="zenith-token-v1" {}
  styles {}
  document id="d" title="x" {
    page id="pg" w=(px)10 h=(px)10 {}
  }
}
"#;

#[test]
fn library_parse_embedded_flowchart_identity_and_items() {
    let pack = parse_pack(FLOWCHART_SOURCE, PackSource::Preset).expect("flowchart pack parses");
    assert_eq!(pack.id, "@zenith/flowchart");
    assert_eq!(pack.version.as_deref(), Some("1.0.0"));
    assert_eq!(pack.source, PackSource::Preset);
    let ids: Vec<&str> = pack.items.iter().map(|i| i.id.as_str()).collect();
    assert_eq!(ids, vec!["process", "decision", "terminator"]);
}

#[test]
fn tests_parse_embedded_flowchart_identity_and_items() {
    let pack = parse_pack(FLOWCHART_SOURCE, PackSource::Preset).expect("flowchart pack parses");
    assert_eq!(pack.id, "@zenith/flowchart");
    assert_eq!(pack.version.as_deref(), Some("1.0.0"));
    assert_eq!(pack.source, PackSource::Preset);
    assert_eq!(
        pack.items,
        vec![
            PackItem {
                id: "process".to_owned(),
                kind: ItemKind::Component
            },
            PackItem {
                id: "decision".to_owned(),
                kind: ItemKind::Component
            },
            PackItem {
                id: "terminator".to_owned(),
                kind: ItemKind::Component
            },
        ]
    );
}

#[test]
fn library_load_embedded_packs_includes_flowchart() {
    let packs = load_embedded_packs();
    assert!(
        packs.iter().any(|p| p.id == "@zenith/flowchart"),
        "embedded packs must include @zenith/flowchart"
    );
}

#[test]
fn tests_load_embedded_packs_includes_flowchart() {
    let packs = load_embedded_packs();
    assert!(
        packs.iter().any(|p| p.id == "@zenith/flowchart"),
        "embedded packs must include @zenith/flowchart"
    );
}

#[test]
fn library_pack_without_self_entry_errors() {
    let err = parse_pack(NO_SELF_ENTRY_SRC, PackSource::Preset).expect_err("must require a self-entry");
    assert!(err.message.contains("library self-entry"));
}

#[test]
fn tests_pack_without_self_entry_errors() {
    let err = parse_pack(NO_SELF_ENTRY_SRC, PackSource::Preset).expect_err("must require a self-entry");
    assert!(err.message.contains("library self-entry"));
}

#[test]
fn library_resolve_packs_includes_embedded_when_no_project_dir() {
    let packs = resolve_packs(None);
    assert!(packs.iter().any(|p| p.id == "@zenith/flowchart"));
}

#[test]
fn tests_resolve_packs_includes_embedded_when_no_project_dir() {
    let packs = resolve_packs(None);
    assert!(packs.iter().any(|p| p.id == "@zenith/flowchart"));
}

#[test]
fn library_resolve_packs_is_sorted_by_id() {
    let packs = resolve_packs(None);
    let mut sorted = packs.clone();
    sorted.sort_by(|a, b| a.id.cmp(&b.id));
    let ids: Vec<_> = packs.iter().map(|p| &p.id).collect();
    let sorted_ids: Vec<_> = sorted.iter().map(|p| &p.id).collect();
    assert_eq!(ids, sorted_ids);
}

#[test]
fn tests_resolve_packs_is_sorted_by_id() {
    let packs = resolve_packs(None);
    let mut sorted = packs.clone();
    sorted.sort_by(|a, b| a.id.cmp(&b.id));
    let ids: Vec<_> = packs.iter().map(|p| &p.id).collect();
    let sorted_ids: Vec<_> = sorted.iter().map(|p| &p.id).collect();
    assert_eq!(ids, sorted_ids);
}

#[test]
fn human_lists_flowchart_with_items() {
    let packs = resolve_packs(None);
    let out = list(&packs, false);
    assert!(out.contains("@zenith/flowchart"), "got: {}", out);
    assert!(out.contains("[preset]"), "got: {}", out);
    assert!(out.contains("#process"), "got: {}", out);
    assert!(out.contains("#decision"), "got: {}", out);
    assert!(out.contains("#terminator"), "got: {}", out);
}

#[test]
fn json_is_parseable_and_contains_flowchart() {
    let packs = resolve_packs(None);
    let out = list(&packs, true);
    let value: serde_json::Value = serde_json::from_str(&out).expect("valid JSON");
    assert_eq!(value["schema"], "zenith-library-v1");
    let packs_json = value["packs"].as_array().expect("packs array");
    let flow = packs_json
        .iter()
        .find(|p| p["id"] == "@zenith/flowchart")
        .expect("flowchart pack present");
    assert_eq!(flow["version"], "1.0.0");
    assert_eq!(flow["source"], "preset");
    let items: Vec<&str> = flow["items"]
        .as_array()
        .expect("items array")
        .iter()
        .filter_map(|v| v.as_str())
        .collect();
    assert_eq!(items, vec!["process", "decision", "terminator"]);
}

#[test]
fn empty_packs_human_message() {
    let out = list(&[], false);
    assert_eq!(out, "no libraries found");
}

#[test]
fn version_falls_back_to_dash() {
    let pack = LibraryPack {
        id: "@x/y".to_owned(),
        version: None,
        source: PackSource::Preset,
        items: vec![],
    };
    let out = list(std::slice::from_ref(&pack), false);
    assert!(out.contains("@x/y  -  [preset]"), "got: {}", out);
}

#[test]
fn project_pack_shadows_preset_with_same_id() {
    let project = parse_pack(FLOWCHART_SOURCE, PackSource::Project("libraries/flow.zen".to_owned()))
        .expect("parses");
    let packs = resolve_packs(Some(vec![project]));
    assert_eq!(packs.len(), 2);
    assert_eq!(packs[0].id, "@zenith/flowchart");
    assert_eq!(packs[0].source.label(), "project");
    assert_eq!(packs[1].source.label(), "preset");
}

#[test]
fn kdl_syntax_error_is_reported_as_parse_error() {
    let err = parse_pack("zenith {{{", PackSource::Preset).expect_err("invalid KDL");
    assert!(err.message.starts_with("parse error: "), "got: {}", err.message);
}

#[test]
fn pack_without_root_is_reported() {
    let err = parse_pack("other x=1\n", PackSource::Preset).expect_err("no root");
    assert_eq!(err.message, "parse error: document has no `zenith` root node");
}

#[test]
fn list_json_for_no_packs_is_an_empty_array() {
    let out = list(&[], true);
    let value: serde_json::Value = serde_json::from_str(&out).expect("valid JSON");
    assert_eq!(value["schema"], "zenith-library-v1");
    assert_eq!(value["packs"].as_array().map(|a| a.len()), Some(0));
}

#[test]
fn project_packs_parse_and_note_failures_in_order() {
    let files = vec![
        ("libraries/bad.zen".to_owned(), "zenith {{{".to_owned()),
        ("libraries/flow.zen".to_owned(), FLOWCHART_SOURCE.to_owned()),
    ];
    let (packs, notes) = zenith::library::project_packs(&files);
    assert_eq!(packs.len(), 1);
    assert_eq!(packs[0].source, PackSource::Project("libraries/flow.zen".to_owned()));
    assert_eq!(notes.len(), 1);
    assert!(notes[0].starts_with("note: skipping 'libraries/bad.zen': parse error: "), "got: {}", notes[0]);
}

#[test]
fn pack_files_are_recognised_by_extension() {
    assert!(zenith::library::is_pack_path("libraries/flow.zen"));
    assert!(!zenith::library::is_pack_path("libraries/flow.zen.bak"));
    assert!(!zenith::library::is_pack_path("libraries/README"));
}

#[test]
fn parse_pack_with_actions_lists_action_items() {
    const ACTION_PACK_SRC: &str = r#"zenith version=1 {
  project id="@test/actions" name="Test Actions"
  libraries { library id="@test/actions" version="1.0.0" }
  actions {
    action id="apply-brand-kit" {
      tx "{\"ops\":[]}"
    }
  }
  document id="d" title="x" {
    page id="pg" w=(px)100 h=(px)100 {
    }
  }
}
"#;
    let pack = parse_pack(ACTION_PACK_SRC, PackSource::Preset).expect("action pack parses");
    assert_eq!(pack.id, "@test/actions");
    assert!(
        pack.items.contains(&PackItem {
            id: "apply-brand-kit".to_owned(),
            kind: ItemKind::Action,
        }),
        "action item must be present; items: {:?}",
        pack.items
    );
}

const TOKEN_PACK_SRC: &str = r##"zenith version=1 {
  project id="@test/looks" name="Looks"
  libraries { library id="@test/looks" version="2.0.0" }
  tokens format="zenith-token-v1" {
    token id="looks.gold" type="color" value="#c9a227"
    token id="sepia" type="filter" value="sepia(1)"
    token id="fade" type="mask" value="linear"
  }
  components {
    component id="card" {}
  }
  document id="d" title="x" {
    page id="pg" w=(px)10 h=(px)10 {}
  }
}
"##;

#[test]
fn filter_and_mask_tokens_are_items_and_colour_tokens_are_not() {
    let pack = parse_pack(TOKEN_PACK_SRC, PackSource::Preset).expect("token pack parses");
    assert_eq!(pack.version.as_deref(), Some("2.0.0"));
    assert_eq!(
        pack.items,
        vec![
            PackItem { id: "sepia".to_owned(), kind: ItemKind::Token },
            PackItem { id: "fade".to_owned(), kind: ItemKind::Token },
            PackItem { id: "card".to_owned(), kind: ItemKind::Component },
        ]
    );
    assert!(!pack.items.iter().any(|i| i.id == "looks.gold"));
}

#[test]
fn listing_shows_every_item_kind_by_id() {
    let pack = parse_pack(TOKEN_PACK_SRC, PackSource::Preset).expect("token pack parses");
    let out = list(&[pack], false);
    assert_eq!(out, "@test/looks  2.0.0  [preset]\n  #sepia\n  #fade\n  #card");
}

#[test]
fn hidden_zen_file_is_not_a_pack_file() {
    assert!(!zenith::library::is_pack_path("libraries/.zen"));
    assert!(zenith::library::is_pack_path("a.b/flow.zen"));
    assert!(!zenith::library::is_pack_path("flow.zen/notes"));
}
