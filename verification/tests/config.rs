use zenith::config::{
    global_config_path, merge_policy, policy_from_config, unreadable_config, CliPolicyFlags,
    LocalConfigWalk,
};
use zenith::brand::BrandContract;
use zenith::policy::{DiagnosticPolicy, PolicyEntry, PolicyVerb};

fn deny(code: &str) -> DiagnosticPolicy {
    DiagnosticPolicy {
        entries: vec![PolicyEntry {
            verb: PolicyVerb::Deny,
            code: code.to_owned(),
            source_span: None,
        }],
    }
}

fn allow(code: &str) -> DiagnosticPolicy {
    DiagnosticPolicy {
        entries: vec![PolicyEntry {
            verb: PolicyVerb::Allow,
            code: code.to_owned(),
            source_span: None,
        }],
    }
}

/// Walk up from `start` to the first local config file, as the command
/// does; with none found, the policy is the default one.
fn walk_for_policy(start: &str) -> Result<DiagnosticPolicy, String> {
    let mut walk = LocalConfigWalk::start(start);
    while let Some(candidate) = walk.candidate() {
        if std::path::Path::new(&candidate).is_file() {
            return Err(unreadable_config(&candidate, "not read in this test"));
        }
        walk.advance();
    }
    Ok(DiagnosticPolicy::default())
}

#[test]
fn empty_everything_is_identity() {
    let merged = merge_policy(
        &DiagnosticPolicy::default(),
        &DiagnosticPolicy::default(),
        &DiagnosticPolicy::default(),
        &CliPolicyFlags::default(),
    );
    assert!(merged.entries.is_empty());
}

#[test]
fn cli_beats_in_file_beats_local_beats_global() {
    let global = allow("a");
    let local = deny("a");
    let in_file = allow("a");
    let flags = CliPolicyFlags {
        deny: vec!["a".to_owned()],
        ..Default::default()
    };
    let merged = merge_policy(&global, &local, &in_file, &flags);
    assert_eq!(merged.verb_for("a"), Some(&PolicyVerb::Deny));
}

#[test]
fn in_file_beats_config_when_no_flag() {
    let global = deny("a");
    let local = deny("a");
    let in_file = allow("a");
    let merged = merge_policy(&global, &local, &in_file, &CliPolicyFlags::default());
    assert_eq!(merged.verb_for("a"), Some(&PolicyVerb::Allow));
}

#[test]
fn find_local_handles_root_without_panic() {
    let policy = walk_for_policy("/").expect("root walk must be ok");
    assert!(policy.entries.is_empty());
}

#[test]
fn walk_from_root_probes_once_and_ends() {
    let mut walk = LocalConfigWalk::start("/");
    assert_eq!(walk.candidate().as_deref(), Some("/.zenith.kdl"));
    walk.advance();
    assert_eq!(walk.candidate(), None);
}

#[test]
fn walk_climbs_one_directory_at_a_time() {
    let mut walk = LocalConfigWalk::start("/a/b");
    assert_eq!(walk.candidate().as_deref(), Some("/a/b/.zenith.kdl"));
    walk.advance();
    assert_eq!(walk.candidate().as_deref(), Some("/a/.zenith.kdl"));
    walk.advance();
    assert_eq!(walk.candidate().as_deref(), Some("/.zenith.kdl"));
    walk.advance();
    assert_eq!(walk.candidate(), None);
}

#[test]
fn global_config_path_is_under_zenith() {
    assert_eq!(global_config_path("/home/u/.config"), "/home/u/.config/zenith/config.kdl");
}

#[test]
fn malformed_config_names_the_file() {
    let err = policy_from_config("/p/.zenith.kdl", b"diagnostics {\n  deny\n}\n").expect_err("bad entry");
    assert_eq!(
        err,
        "invalid config '/p/.zenith.kdl': `deny` entry requires a diagnostic code string"
    );
}

#[test]
fn unreadable_config_message() {
    assert_eq!(unreadable_config("/x", "denied"), "cannot read config '/x': denied");
}

#[test]
fn cli_flags_order_allow_warn_deny() {
    let flags = CliPolicyFlags {
        allow: vec!["x".to_owned()],
        warn: vec!["x".to_owned()],
        deny: vec![],
    };
    assert!(!flags.is_empty());
    assert!(CliPolicyFlags::default().is_empty());
    let merged = merge_policy(
        &DiagnosticPolicy::default(),
        &DiagnosticPolicy::default(),
        &DiagnosticPolicy::default(),
        &flags,
    );
    assert_eq!(merged.entries.len(), 2);
    assert_eq!(merged.verb_for("x"), Some(&PolicyVerb::Warn));
}

#[test]
fn find_local_brand_root_walk_terminates() {
    let mut walk = LocalConfigWalk::start("/");
    let mut found = None;
    while let Some(candidate) = walk.candidate() {
        if std::path::Path::new(&candidate).is_file() {
            found = Some(candidate);
            break;
        }
        walk.advance();
    }
    let brand = match found {
        None => BrandContract::default(),
        Some(path) => panic!("no config expected at the root, found {path}"),
    };
    assert!(brand.is_empty(), "root walk with no config must yield default");
}

#[test]
fn walk_from_a_relative_dir_climbs_to_the_empty_dir() {
    let mut walk = LocalConfigWalk::start("docs/site");
    walk.advance();
    assert_eq!(walk.candidate().as_deref(), Some("docs/.zenith.kdl"));
    walk.advance();
    assert_eq!(walk.candidate().as_deref(), Some(".zenith.kdl"));
    walk.advance();
    assert_eq!(walk.candidate(), None);
}

#[test]
fn walk_through_parent_components_drops_one_segment_at_a_time() {
    let mut walk = LocalConfigWalk::start("../up/dir");
    walk.advance();
    assert_eq!(walk.candidate().as_deref(), Some("../up/.zenith.kdl"));
    walk.advance();
    assert_eq!(walk.candidate().as_deref(), Some("../.zenith.kdl"));
    walk.advance();
    assert_eq!(walk.candidate().as_deref(), Some(".zenith.kdl"));
    walk.advance();
    assert_eq!(walk.candidate(), None);
}

#[test]
fn ancestor_dirs_lists_each_ancestor_once_up_to_the_root() {
    assert_eq!(zenith::config::ancestor_dirs("/a/b/c"), vec!["/a/b/c", "/a/b", "/a", "/"]);
    assert_eq!(zenith::config::ancestor_dirs("/"), vec!["/"]);
    assert_eq!(zenith::config::ancestor_dirs("x/y"), vec!["x/y", "x", ""]);
}

#[test]
fn local_config_candidates_probe_each_ancestor_in_order() {
    assert_eq!(
        zenith::config::local_config_candidates("/home/u/docs"),
        vec!["/home/u/docs/.zenith.kdl", "/home/u/.zenith.kdl", "/home/.zenith.kdl", "/.zenith.kdl"]
    );
}
