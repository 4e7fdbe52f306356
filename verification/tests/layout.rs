use kero::layout::{
    config_path, discover_project, global_layout, global_root, project_candidates, project_layout,
    require_identity, DiscoveryError, InitializedLayout, ScopeIdentity,
};
use kero::setup::{
    confirmed, entered_location, global_init_root, mount_candidates, mount_point, policy_exit, setup_choice, trim,
    SetupChoice,
};

fn s(x: &str) -> String {
    x.to_string()
}

fn identity(kind: &str, id: &str) -> ScopeIdentity {
    ScopeIdentity { schema: s("kero/project/v1"), id: s(id), kind: s(kind) }
}

#[test]
fn initialization_adds_only_one_consumer_root_and_never_overwrites() {
    let plan = project_layout("/repo");
    assert_eq!(plan.root, "/repo/.kero");
    assert!(plan.directories.iter().all(|d| d.starts_with("/repo/.kero/")));
    assert!(plan.directories.contains(&s("/repo/.kero/knowledge/shared")));
    assert!(plan.directories.contains(&s("/repo/.kero/knowledge/local")));
    assert_eq!(plan.files.len(), 6);
    assert!(plan.files.iter().all(|(path, _)| path.starts_with("/repo/.kero/")));
    let mut first = InitializedLayout::new(s("kero/initialized-layout/v1"), plan.root.clone());
    for (path, _) in plan.files.iter().rev() {
        first.record(path.clone(), true);
    }
    assert_eq!(first.created.len(), 6);
    let mut sorted = first.created.clone();
    sorted.sort();
    assert_eq!(first.created, sorted);
    let mut second = InitializedLayout::new(s("kero/initialized-layout/v1"), plan.root.clone());
    for (path, _) in &plan.files {
        second.record(path.clone(), false);
    }
    assert!(second.created.is_empty());
    assert_eq!(second.existing.len(), 6);
}

#[test]
fn global_layout_lives_at_its_root() {
    let plan = global_layout("/home/user/.kero");
    assert_eq!(plan.root, "/home/user/.kero");
    assert_eq!(plan.directories[0], "/home/user/.kero");
    assert_eq!(plan.files[0].0, "/home/user/.kero/kero.toml");
    assert!(plan.files[0].1.contains("id = \"kero.global\""));
    assert!(plan.directories.contains(&s("/home/user/.kero/knowledge")));
}

#[test]
fn identity_must_match_its_kind_and_id() {
    assert!(require_identity(s("/g"), identity("global", "kero.global"), "global", Some("kero.global")).is_ok());
    let error = require_identity(s("/g"), identity("project", "kero.project"), "global", None).unwrap_err();
    assert_eq!(
        error.message(),
        "kero.discovery.identity-mismatch: expected global, found project at /g"
    );
    assert!(matches!(
        require_identity(s("/g"), identity("global", "other"), "global", Some("kero.global")),
        Err(DiscoveryError::IdentityMismatch { .. })
    ));
}

#[test]
fn configuration_is_found_in_order() {
    assert_eq!(config_path(Some("/c"), Some("/x"), Some("/h")).unwrap(), "/c/config.toml");
    assert_eq!(config_path(None, Some("/x"), Some("/h")).unwrap(), "/x/kero/config.toml");
    assert_eq!(config_path(None, None, Some("/h")).unwrap(), "/h/.config/kero/config.toml");
    assert!(matches!(config_path(None, None, None), Err(DiscoveryError::HomeUnavailable)));
}

#[test]
fn global_and_project_discovery_use_separate_channels() {
    assert_eq!(
        global_root(Some(s("/explicit")), Some(s("/env")), Ok(s("/c")), None, None, false).unwrap(),
        (s("/explicit"), None)
    );
    assert_eq!(
        global_root(None, Some(s("/env")), Ok(s("/c")), None, None, false).unwrap(),
        (s("/env"), None)
    );
    assert_eq!(
        global_root(None, None, Ok(s("/c")), Some(Ok((s("/chosen"), s("kero.global")))), Some(s("/h")), true)
            .unwrap(),
        (s("/chosen"), Some(s("kero.global")))
    );
    assert_eq!(global_root(None, None, Ok(s("/c")), None, Some(s("/h")), true).unwrap(), (s("/h/.kero"), None));
    assert!(matches!(
        global_root(None, None, Ok(s("/c")), None, Some(s("/h")), false),
        Err(DiscoveryError::GlobalUnconfigured)
    ));
    let candidates = project_candidates("/repo/src/nested", true);
    assert_eq!(candidates, vec!["/repo/src/nested/.kero", "/repo/src/.kero", "/repo/.kero", "/.kero"]);
    assert_eq!(project_candidates("/repo/file.rs", false), vec!["/repo/.kero", "/.kero"]);
    let (path, found) = discover_project(
        "/repo/src/nested",
        true,
        vec![None, Some(Ok(identity("global", "kero.global"))), Some(Ok(identity("project", "kero.project"))), None],
    )
    .unwrap();
    assert_eq!(path, "/repo/.kero");
    assert_eq!(found.kind, "project");
    assert!(matches!(
        discover_project("/repo", true, vec![None, None]),
        Err(DiscoveryError::ProjectNotFound(p)) if p == "/repo"
    ));
    assert!(matches!(
        discover_project("/repo", true, vec![Some(Err(DiscoveryError::Io(s("denied")))), None]),
        Err(DiscoveryError::Io(_))
    ));
}

#[test]
fn setup_answers_are_read_as_the_prompt_describes() {
    assert_eq!(setup_choice(""), SetupChoice::Recommended);
    assert_eq!(setup_choice(" 1\n"), SetupChoice::Recommended);
    assert_eq!(setup_choice("2\n"), SetupChoice::Other);
    assert_eq!(setup_choice("3"), SetupChoice::Invalid);
    assert_eq!(entered_location("  /data/kero \n"), Some(s("/data/kero")));
    assert_eq!(entered_location(" \t\n"), None);
    assert!(confirmed("\n"));
    assert!(confirmed("y"));
    assert!(!confirmed("N\n"));
    assert!(!confirmed(" No "));
    assert!(confirmed("nope"));
    assert_eq!(trim("\u{3000} a b \u{A0}"), "a b");
}

#[test]
fn global_init_and_policy_exit_follow_discovery_and_decision() {
    assert_eq!(global_init_root(Some(s("/x")), Ok(s("/y")), None).unwrap(), "/x");
    assert_eq!(global_init_root(None, Ok(s("/y")), None).unwrap(), "/y");
    assert_eq!(global_init_root(None, Err(DiscoveryError::GlobalUnconfigured), Some(s("/h"))).unwrap(), "/h/.kero");
    assert_eq!(
        global_init_root(None, Err(DiscoveryError::GlobalUnconfigured), None).unwrap_err(),
        Err(s("HOME is unavailable; pass --root"))
    );
    assert!(matches!(
        global_init_root(None, Err(DiscoveryError::HomeUnavailable), None),
        Err(Ok(DiscoveryError::HomeUnavailable))
    ));
    assert_eq!(policy_exit(Some("ALLOW")), 0);
    assert_eq!(policy_exit(Some("DENY")), 2);
    assert_eq!(policy_exit(None), 1);
}

#[test]
fn writable_mounts_are_read_from_the_mount_table() {
    let table = "proc /proc proc rw,nosuid 0 0\n/dev/sda1 / ext4 rw,relatime 0 0\n/dev/sdb1 /mnt/my\\040disk ext4 rw 0 0\n/dev/sdc1 /ro ext4 ro,rw2 0 0\ntmpfs /tmp tmpfs rw 0 0\nshort line\n";
    assert_eq!(mount_candidates(table), vec![s("/"), s("/mnt/my disk")]);
    assert_eq!(mount_point("  a   /b\tc   x,rw  "), Some(s("/b")));
    assert_eq!(mount_point("a /b c"), None);
}
