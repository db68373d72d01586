use embeddenator_workspace::overlay::{is_override, patch_key_for};
use embeddenator_workspace::patch::{join_path, place};
use embeddenator_workspace::{
    CargoManifest, GitDependency, PatchConfig, PatchError, PatchManager, SourceFile,
    WorkspaceScanner,
};
use toml_edit::{value, DocumentMut, Item};

const ROOT: &str = "/work";

fn repo_manifest(name: &str, with_section: bool) -> SourceFile {
    let mut content = format!(
        "[package]\nname = \"{}\"\nversion = \"0.1.0\"\nedition = \"2021\"\n",
        name
    );
    if with_section {
        content.push_str("\n[dependencies]\n");
    }
    SourceFile {
        path: format!("{}/{}/Cargo.toml", ROOT, name),
        content,
    }
}

/// The manifests of a workspace with four local repos and a main package
/// that takes all four from remote sources, and the names of the repos that
/// hold a manifest.
fn create_test_workspace() -> (Vec<CargoManifest>, Vec<String>) {
    let repos = vec![
        "embeddenator-vsa",
        "embeddenator-fs",
        "embeddenator-io",
        "embeddenator-retrieval",
    ];
    let mut files: Vec<SourceFile> = repos.iter().map(|r| repo_manifest(r, true)).collect();
    let main_manifest = r#"[package]
name = "embeddenator"
version = "0.20.0"
edition = "2021"

[dependencies]
embeddenator-vsa = { git = "https://github.com/tzervas/embeddenator-vsa", tag = "v0.1.0" }
embeddenator-fs = { git = "https://github.com/tzervas/embeddenator-fs", branch = "main" }
embeddenator-io = { git = "https://github.com/tzervas/embeddenator-io", tag = "v0.1.1" }
serde = "1.0"

[dev-dependencies]
embeddenator-retrieval = { git = "https://github.com/tzervas/embeddenator-retrieval", tag = "v0.1.3" }
"#;
    files.push(SourceFile {
        path: format!("{}/embeddenator/Cargo.toml", ROOT),
        content: main_manifest.to_string(),
    });
    let manifests = WorkspaceScanner::new(ROOT).find_manifests(&files);
    let mut present: Vec<String> = repos.iter().map(|r| r.to_string()).collect();
    present.push("embeddenator".to_string());
    (manifests, present)
}

#[test]
fn test_discover_patchable_dependencies() {
    let (manifests, present) = create_test_workspace();
    let manager = PatchManager::new(ROOT);

    let deps = manager.discover_patchable_dependencies(&manifests, &present);

    // Should find 4 dependencies (all embeddenator-* with git URLs)
    assert_eq!(deps.len(), 4);

    // Check names are sorted
    let names: Vec<&str> = deps.iter().map(|d| d.name.as_str()).collect();
    assert_eq!(
        names,
        vec![
            "embeddenator-fs",
            "embeddenator-io",
            "embeddenator-retrieval",
            "embeddenator-vsa"
        ]
    );

    // Verify local paths are correct
    for dep in &deps {
        assert_eq!(dep.local_path, format!("{}/{}", ROOT, dep.name));
        assert!(manifests
            .iter()
            .any(|m| m.path == format!("{}/Cargo.toml", dep.local_path)));
    }

    // Check git URLs are extracted
    let vsa = deps.iter().find(|d| d.name == "embeddenator-vsa").unwrap();
    assert_eq!(vsa.git_url, "https://github.com/tzervas/embeddenator-vsa");
    assert_eq!(vsa.branch_or_tag, Some("v0.1.0".to_string()));
}

#[test]
fn test_apply_patches() {
    let (manifests, present) = create_test_workspace();
    let manager = PatchManager::new(ROOT);

    let deps = manager.discover_patchable_dependencies(&manifests, &present);
    let (report, config) = manager.apply_patches(None, &deps).unwrap();

    assert_eq!(report.patched_count, 4);
    assert!(!report.verified); // verification skipped
    assert_eq!(report.config_path, "/work/.cargo/config.toml");

    // Parse the config file
    let content = config.render();
    let doc: DocumentMut = content.parse().unwrap();

    // Verify patch sections exist
    let patch_key = "patch.\"https://github.com/tzervas/embeddenator-vsa\"";
    assert!(doc.get(patch_key).is_some());

    // Verify specific patch entry
    let vsa_path = doc
        .get(patch_key)
        .and_then(|p| p.get("embeddenator-vsa"))
        .and_then(|e| e.get("path"))
        .and_then(|p| p.as_str())
        .unwrap();

    assert!(vsa_path.contains("embeddenator-vsa"));
    assert_eq!(vsa_path, "/work/embeddenator-vsa");
}

#[test]
fn test_remove_patches() {
    let (manifests, present) = create_test_workspace();
    let manager = PatchManager::new(ROOT);

    // First apply patches
    let deps = manager.discover_patchable_dependencies(&manifests, &present);
    let (_, config) = manager.apply_patches(None, &deps).unwrap();
    let written = config.render();

    // Now remove patches
    let (report, left) = manager.remove_patches(Some(&written)).unwrap();
    assert_eq!(report.removed_count, 4);
    assert!(report.config_deleted); // Should be deleted as it's empty
    assert_eq!(left.render(), "");
}

#[test]
fn test_remove_patches_preserves_other_config() {
    let manager = PatchManager::new(ROOT);

    let config_content = r#"[build]
target-dir = "custom-target"

[patch."https://github.com/tzervas/embeddenator-vsa"]
embeddenator-vsa = { path = "embeddenator-vsa" }
"#;

    // Remove patches
    let (report, config) = manager.remove_patches(Some(config_content)).unwrap();
    assert_eq!(report.removed_count, 1);
    assert!(!report.config_deleted); // Should be preserved

    // Verify the config still exists with other content
    let content = config.render();
    let doc: DocumentMut = content.parse().unwrap();

    assert!(doc.get("build").is_some());
    assert!(doc
        .get("patch.\"https://github.com/tzervas/embeddenator-vsa\"")
        .is_none());
    assert!(doc.get("patch").is_none());
    assert_eq!(content, "[build]\ntarget-dir = \"custom-target\"\n");
}

#[test]
fn test_remove_patches_when_none_exist() {
    let manager = PatchManager::new(ROOT);

    // Remove patches without applying any
    let (report, _) = manager.remove_patches(None).unwrap();
    assert_eq!(report.removed_count, 0);
    assert!(!report.config_deleted);
}

#[test]
fn test_multiple_repos_same_git_url() {
    let mut files: Vec<SourceFile> = ["embeddenator-vsa", "embeddenator-fs"]
        .iter()
        .map(|r| repo_manifest(r, false))
        .collect();

    // Create main package that depends on both from same git URL
    let manifest = r#"[package]
name = "embeddenator"
version = "0.1.0"
edition = "2021"

[dependencies]
embeddenator-vsa = { git = "https://github.com/tzervas/embeddenator", branch = "main" }
embeddenator-fs = { git = "https://github.com/tzervas/embeddenator", branch = "main" }
"#;
    files.push(SourceFile {
        path: format!("{}/embeddenator/Cargo.toml", ROOT),
        content: manifest.to_string(),
    });
    let manifests = WorkspaceScanner::new(ROOT).find_manifests(&files);
    let present = vec!["embeddenator-vsa".to_string(), "embeddenator-fs".to_string()];

    let manager = PatchManager::new(ROOT);
    let deps = manager.discover_patchable_dependencies(&manifests, &present);

    assert_eq!(deps.len(), 2);

    // Apply patches
    let (report, config) = manager.apply_patches(None, &deps).unwrap();
    assert_eq!(report.patched_count, 2);

    // Verify both patches are in the same patch section
    let content = config.render();
    let doc: DocumentMut = content.parse().unwrap();

    let patch_section = doc
        .get("patch.\"https://github.com/tzervas/embeddenator\"")
        .unwrap();
    assert!(patch_section.get("embeddenator-vsa").is_some());
    assert!(patch_section.get("embeddenator-fs").is_some());
    assert_eq!(doc.as_table().len(), 1);
}

#[test]
fn test_parse_git_dependency() {
    // Test table format with tag
    let mut table = toml_edit::Table::new();
    table.insert("git", value("https://github.com/user/repo"));
    table.insert("tag", value("v1.0.0"));
    let item = Item::Table(table);

    let result = PatchManager::parse_git_dependency("test-crate", &item);
    assert!(result.is_some());
    let (url, tag) = result.unwrap();
    assert_eq!(url, "https://github.com/user/repo");
    assert_eq!(tag, Some("v1.0.0".to_string()));

    // Test table format with branch
    let mut table = toml_edit::Table::new();
    table.insert("git", value("https://github.com/user/repo"));
    table.insert("branch", value("main"));
    let item = Item::Table(table);

    let result = PatchManager::parse_git_dependency("test-crate", &item);
    assert!(result.is_some());
    let (url, branch) = result.unwrap();
    assert_eq!(url, "https://github.com/user/repo");
    assert_eq!(branch, Some("main".to_string()));

    // Test non-git dependency (version string)
    let item = value("1.0.0");
    let result = PatchManager::parse_git_dependency("test-crate", &item);
    assert!(result.is_none());
}

#[test]
fn git_dependency_prefers_the_branch_and_reads_inline_tables() {
    let doc: DocumentMut = r#"
both = { git = "https://example.org/r", branch = "dev", tag = "v2" }
bare = { git = "https://example.org/r" }
odd_branch = { git = "https://example.org/r", branch = 3, tag = "v2" }
no_url = { git = 7, tag = "v2" }
"#
    .parse()
    .unwrap();
    assert_eq!(
        PatchManager::parse_git_dependency("both", doc.get("both").unwrap()),
        Some(("https://example.org/r".to_string(), Some("dev".to_string())))
    );
    assert_eq!(
        PatchManager::parse_git_dependency("bare", doc.get("bare").unwrap()),
        Some(("https://example.org/r".to_string(), None))
    );
    assert_eq!(
        PatchManager::parse_git_dependency("odd_branch", doc.get("odd_branch").unwrap()),
        Some(("https://example.org/r".to_string(), None))
    );
    assert_eq!(
        PatchManager::parse_git_dependency("no_url", doc.get("no_url").unwrap()),
        None
    );
}

#[test]
fn discovery_needs_a_local_manifest_and_a_namespaced_package() {
    let (manifests, _) = create_test_workspace();
    let manager = PatchManager::new(ROOT);

    // only two of the repos hold a manifest at the expected place
    let present = vec!["embeddenator-io".to_string(), "embeddenator-vsa".to_string()];
    let deps = manager.discover_patchable_dependencies(&manifests, &present);
    let names: Vec<&str> = deps.iter().map(|d| d.name.as_str()).collect();
    assert_eq!(names, vec!["embeddenator-io", "embeddenator-vsa"]);

    // nothing is present
    assert!(manager
        .discover_patchable_dependencies(&manifests, &Vec::new())
        .is_empty());

    // names that no local package carries do not count, present or not
    let files = vec![SourceFile {
        path: "/work/app/Cargo.toml".to_string(),
        content: r#"[package]
name = "embeddenator-app"
version = "0.1.0"

[dependencies]
embeddenator-gone = { git = "https://example.org/gone" }
other = { git = "https://example.org/other" }
"#
        .to_string(),
    }];
    let manifests = WorkspaceScanner::new(ROOT).find_manifests(&files);
    let present = vec!["embeddenator-gone".to_string(), "other".to_string()];
    assert!(manager
        .discover_patchable_dependencies(&manifests, &present)
        .is_empty());
}

#[test]
fn discovery_keeps_the_entry_scanned_last() {
    let files = vec![
        repo_manifest("embeddenator-vsa", true),
        SourceFile {
            path: "/work/a/Cargo.toml".to_string(),
            content: r#"[package]
name = "embeddenator-a"
version = "0.1.0"

[dependencies]
embeddenator-vsa = { git = "https://example.org/first", tag = "v1" }
"#
            .to_string(),
        },
        SourceFile {
            path: "/work/b/Cargo.toml".to_string(),
            content: r#"[package]
name = "embeddenator-b"
version = "0.1.0"

[build-dependencies]
embeddenator-vsa = { git = "https://example.org/second", branch = "next" }
"#
            .to_string(),
        },
    ];
    let manifests = WorkspaceScanner::new(ROOT).find_manifests(&files);
    let present = vec!["embeddenator-vsa".to_string()];
    let deps =
        PatchManager::new(ROOT).discover_patchable_dependencies(&manifests, &present);
    assert_eq!(
        deps,
        vec![GitDependency {
            name: "embeddenator-vsa".to_string(),
            git_url: "https://example.org/second".to_string(),
            branch_or_tag: Some("next".to_string()),
            local_path: "/work/embeddenator-vsa".to_string(),
        }]
    );
}

fn dep(name: &str, url: &str) -> GitDependency {
    GitDependency {
        name: name.to_string(),
        git_url: url.to_string(),
        branch_or_tag: None,
        local_path: format!("/work/{}", name),
    }
}

#[test]
fn place_keeps_names_sorted_and_single() {
    let mut out: Vec<GitDependency> = Vec::new();
    place(&mut out, dep("m", "u1"));
    place(&mut out, dep("a", "u2"));
    place(&mut out, dep("z", "u3"));
    place(&mut out, dep("m", "u4"));
    place(&mut out, dep("b", "u5"));
    let seen: Vec<(&str, &str)> = out
        .iter()
        .map(|d| (d.name.as_str(), d.git_url.as_str()))
        .collect();
    assert_eq!(
        seen,
        vec![("a", "u2"), ("b", "u5"), ("m", "u4"), ("z", "u3")]
    );
}

#[test]
fn overlay_sections_group_by_remote_source() {
    let deps = vec![
        dep("embeddenator-a", "https://example.org/one"),
        dep("embeddenator-b", "https://example.org/two"),
        dep("embeddenator-c", "https://example.org/one"),
    ];
    let (report, config) = PatchManager::new(ROOT).apply_patches(None, &deps).unwrap();
    assert_eq!(report.patched_count, 3);
    let doc: DocumentMut = config.render().parse().unwrap();
    assert_eq!(doc.as_table().len(), 2);
    let one = doc
        .get("patch.\"https://example.org/one\"")
        .unwrap()
        .as_table()
        .unwrap();
    let two = doc
        .get("patch.\"https://example.org/two\"")
        .unwrap()
        .as_table()
        .unwrap();
    assert_eq!(one.len(), 2);
    assert_eq!(two.len(), 1);
    assert_eq!(
        one.get("embeddenator-c")
            .and_then(|e| e.get("path"))
            .and_then(|p| p.as_str()),
        Some("/work/embeddenator-c")
    );
}

#[test]
fn overlay_round_trip_keeps_other_settings() {
    let original = "[build]\ntarget-dir = \"custom-target\"\njobs = 4\n\n[alias]\nb = \"build\"\n";
    let deps = vec![
        dep("embeddenator-a", "https://example.org/one"),
        dep("embeddenator-b", "https://example.org/two"),
        dep("embeddenator-c", "https://example.org/one"),
    ];
    let manager = PatchManager::new(ROOT);
    let (written, config) = manager.apply_patches(Some(original), &deps).unwrap();
    let patched = config.render();
    assert!(patched.contains("custom-target"));
    assert!(patched.contains("embeddenator-b"));

    let (report, left) = manager.remove_patches(Some(&patched)).unwrap();
    assert_eq!(report.removed_count, written.patched_count);
    assert_eq!(report.removed_count, 3);
    assert!(!report.config_deleted);
    assert_eq!(left.render(), original);
}

#[test]
fn overlay_with_only_overrides_is_deleted() {
    let only = "[patch.\"https://example.org/one\"]\na = { path = \"a\" }\nb = { path = \"b\" }\n\n[patch.crates-io]\nc = { path = \"c\" }\n";
    let (report, left) = PatchManager::new(ROOT).remove_patches(Some(only)).unwrap();
    assert_eq!(report.removed_count, 3);
    assert!(report.config_deleted);
    assert_eq!(left.render(), "");

    let mixed = "[patch.crates-io]\nc = { path = \"c\" }\n\n[net]\noffline = true\n";
    let (report, left) = PatchManager::new(ROOT).remove_patches(Some(mixed)).unwrap();
    assert_eq!(report.removed_count, 1);
    assert!(!report.config_deleted);
    // the blank line before the section that stays belongs to that section
    assert_eq!(left.render(), "\n[net]\noffline = true\n");
}

#[test]
fn empty_overlay_is_deleted() {
    let (report, _) = PatchManager::new(ROOT).remove_patches(Some("")).unwrap();
    assert_eq!(report.removed_count, 0);
    assert!(report.config_deleted);
    let (report, left) = PatchManager::new(ROOT)
        .remove_patches(Some("# only a comment\n"))
        .unwrap();
    assert_eq!(report.removed_count, 0);
    assert!(report.config_deleted);
    assert_eq!(left.render(), "# only a comment\n");
}

#[test]
fn override_sections_that_are_no_tables_hold_no_entries() {
    let odd = "patch = 3\n\"patch.x\" = \"y\"\nkeep = true\n";
    let (report, left) = PatchManager::new(ROOT).remove_patches(Some(odd)).unwrap();
    assert_eq!(report.removed_count, 0);
    assert!(!report.config_deleted);
    assert_eq!(left.render(), "keep = true\n");
}

#[test]
fn apply_overwrites_an_entry_and_skips_what_is_no_section() {
    let existing = "\"patch.\\\"https://example.org/one\\\"\" = \"taken\"\n\n['patch.\"https://example.org/two\"'.embeddenator-b]\npath = \"old\"\n";
    let deps = vec![
        dep("embeddenator-a", "https://example.org/one"),
        dep("embeddenator-b", "https://example.org/two"),
    ];
    let (report, config) = PatchManager::new(ROOT)
        .apply_patches(Some(existing), &deps)
        .unwrap();
    assert_eq!(report.patched_count, 1);
    let doc: DocumentMut = config.render().parse().unwrap();
    assert_eq!(
        doc.get("patch.\"https://example.org/one\"")
            .and_then(|i| i.as_str()),
        Some("taken")
    );
    assert_eq!(
        doc.get("patch.\"https://example.org/two\"")
            .and_then(|s| s.get("embeddenator-b"))
            .and_then(|e| e.get("path"))
            .and_then(|p| p.as_str()),
        Some("/work/embeddenator-b")
    );
}

#[test]
fn overlay_that_is_no_toml_is_an_error() {
    let manager = PatchManager::new(ROOT);
    assert_eq!(
        manager.apply_patches(Some("[broken"), &Vec::new()).unwrap_err(),
        PatchError::ParseError
    );
    assert_eq!(
        manager.remove_patches(Some("= 1")).unwrap_err(),
        PatchError::ParseError
    );
    assert!(PatchConfig::open(Some("a = 1")).is_ok());
}

#[test]
fn report_records_the_probe() {
    let (report, _) = PatchManager::new(ROOT)
        .apply_patches(None, &vec![dep("embeddenator-a", "u")])
        .unwrap();
    let fine = report.clone().record_verification(Ok(()));
    assert!(fine.verified);
    assert_eq!(fine.verification_error, None);
    assert_eq!(fine.patched_count, 1);
    let bad = report.record_verification(Err("cargo metadata failed".to_string()));
    assert!(!bad.verified);
    assert_eq!(
        bad.verification_error,
        Some("cargo metadata failed".to_string())
    );
    assert_eq!(bad.patched_count, 1);
}

#[test]
fn paths_and_keys() {
    assert_eq!(join_path("/work", "a"), "/work/a");
    assert_eq!(join_path("/work/", "a"), "/work/a");
    assert_eq!(join_path("", "a"), "a");
    assert_eq!(join_path(".", ".cargo"), "./.cargo");
    let manager = PatchManager::new("/w");
    assert_eq!(manager.config_path(), "/w/.cargo/config.toml");
    assert_eq!(
        manager.expected_manifest_path("embeddenator-vsa"),
        "/w/embeddenator-vsa/Cargo.toml"
    );
    assert_eq!(
        manager.find_local_repo_path("x", &vec!["x".to_string()]),
        Some("/w/x".to_string())
    );
    assert_eq!(manager.find_local_repo_path("y", &vec!["x".to_string()]), None);
    assert_eq!(patch_key_for("https://e.org/r"), "patch.\"https://e.org/r\"");
    assert!(is_override("patch"));
    assert!(is_override("patch.crates-io"));
    assert!(is_override("patch.\"u\""));
    assert!(!is_override("patches"));
    assert!(!is_override("build"));
}
