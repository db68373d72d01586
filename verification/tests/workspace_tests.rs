use embeddenator_workspace::consistency::check_packages;
use embeddenator_workspace::version::{find_new_version, plan_changes, update_dependencies};
use embeddenator_workspace::workspace::{
    find_workspace_root, is_package, is_skipped_directory, RootCandidate,
};
use embeddenator_workspace::{
    BumpType, CargoManifest, SemVer, SourceFile, VersionError, VersionManager, WorkspaceError,
    WorkspaceScanner,
};

fn file(path: &str, content: &str) -> SourceFile {
    SourceFile {
        path: path.to_string(),
        content: content.to_string(),
    }
}

/// A small workspace with two packages, the first of which depends on the
/// second.
fn create_test_workspace() -> Vec<SourceFile> {
    vec![
        file(
            "/ws/pkg1/Cargo.toml",
            r#"[package]
name = "embeddenator-pkg1"
version = "0.20.0-alpha.1"
edition = "2021"

[dependencies]
embeddenator-pkg2 = "0.20.0-alpha.1"
"#,
        ),
        file(
            "/ws/pkg2/Cargo.toml",
            r#"[package]
name = "embeddenator-pkg2"
version = "0.20.0-alpha.1"
edition = "2021"

[dependencies]
"#,
        ),
    ]
}

#[test]
fn test_check_versions_consistent() {
    let report = VersionManager::new("/ws")
        .check_consistency(&create_test_workspace())
        .unwrap();
    assert!(!report.has_issues());
    assert_eq!(report.total_packages, 2);
    assert!(!report.drift_detected);
    assert!(report.issues.is_empty());
    assert!(report.inconsistencies.is_empty());
}

#[test]
fn test_check_versions_inconsistent() {
    let mut files = create_test_workspace();
    // Give pkg2 a different version
    files[1] = file(
        "/ws/pkg2/Cargo.toml",
        r#"[package]
name = "embeddenator-pkg2"
version = "0.21.0"
edition = "2021"

[dependencies]
"#,
    );
    let report = VersionManager::new("/ws")
        .check_consistency(&files)
        .unwrap();
    assert!(report.has_issues());
    assert!(!report.drift_detected);
    assert_eq!(report.inconsistencies.len(), 1);
    let found = &report.inconsistencies[0];
    assert_eq!(found.package, "embeddenator-pkg1");
    assert_eq!(found.dependency, "embeddenator-pkg2");
    assert_eq!(found.expected.to_string(), "0.21.0");
    assert_eq!(found.found.to_string(), "0.20.0-alpha.1");
}

#[test]
fn test_bump_version_dry_run() {
    let files = create_test_workspace();
    let outcome = VersionManager::new("/ws")
        .bump_versions(&files, BumpType::Prerelease, true)
        .unwrap();

    let shown: Vec<String> = outcome
        .changes
        .iter()
        .map(|c| {
            format!(
                "{} {} → {}",
                c.package,
                c.old_version.to_string(),
                c.new_version.to_string()
            )
        })
        .collect();
    assert_eq!(
        shown,
        vec![
            "embeddenator-pkg1 0.20.0-alpha.1 → 0.20.0-alpha.2".to_string(),
            "embeddenator-pkg2 0.20.0-alpha.1 → 0.20.0-alpha.2".to_string(),
        ]
    );

    // Nothing is to be written, and the packages are as they were loaded
    assert!(outcome.writes.is_empty());
    assert_eq!(outcome.packages[0].save(), files[0].content);
    assert!(outcome.packages[0]
        .save()
        .contains("version = \"0.20.0-alpha.1\""));
}

#[test]
fn test_bump_version_actual() {
    let files = create_test_workspace();
    let outcome = VersionManager::new("/ws")
        .bump_versions(&files, BumpType::Prerelease, false)
        .unwrap();

    assert_eq!(outcome.writes.len(), 2);
    assert_eq!(outcome.writes[0].path, "/ws/pkg1/Cargo.toml");
    assert_eq!(outcome.writes[1].path, "/ws/pkg2/Cargo.toml");

    let pkg1_content = &outcome.writes[0].content;
    assert!(pkg1_content.contains("version = \"0.20.0-alpha.2\""));
    assert!(pkg1_content.contains("embeddenator-pkg2 = \"0.20.0-alpha.2\""));

    let pkg2_content = &outcome.writes[1].content;
    assert!(pkg2_content.contains("version = \"0.20.0-alpha.2\""));
}

#[test]
fn dry_run_reports_what_a_real_run_applies() {
    let files = create_test_workspace();
    let manager = VersionManager::new("/ws");
    for bump in [
        BumpType::Major,
        BumpType::Minor,
        BumpType::Patch,
        BumpType::Prerelease,
    ] {
        let dry = manager.bump_versions(&files, bump, true).unwrap();
        let real = manager.bump_versions(&files, bump, false).unwrap();
        assert_eq!(dry.changes, real.changes);
        assert!(dry.writes.is_empty());
        for (change, package) in real.changes.iter().zip(real.packages.iter()) {
            assert_eq!(change.package, package.package_name);
            assert_eq!(change.path, package.path);
            assert_eq!(change.new_version, package.version);
            let reloaded = CargoManifest::load(&package.path, &package.save()).unwrap();
            assert_eq!(reloaded.version, change.new_version);
        }
        for (change, package) in dry.changes.iter().zip(dry.packages.iter()) {
            assert_eq!(change.old_version, package.version);
        }
    }
}

#[test]
fn bump_propagates_and_keeps_other_keys() {
    let files = vec![
        file(
            "/ws/app/Cargo.toml",
            r#"[package]
name = "embeddenator-app"
version = "1.4.0"

[dependencies]
embeddenator-core = { version = "1.4.0", path = "../core", features = ["fast"] }
embeddenator-util = "0.9.3"
serde = "1.0"
third-party = { version = "1.4.0", path = "../vendor" }

[dev-dependencies]
embeddenator-core = { path = "../core" }
"#,
        ),
        file(
            "/ws/core/Cargo.toml",
            "[package]\nname = \"embeddenator-core\"\nversion = \"1.4.0\"\n",
        ),
        file(
            "/ws/util/Cargo.toml",
            "[package]\nname = \"embeddenator-util\"\nversion = \"0.9.3\"\n",
        ),
    ];
    let outcome = VersionManager::new("/ws")
        .bump_versions(&files, BumpType::Minor, false)
        .unwrap();
    assert_eq!(
        outcome.writes[0].content,
        r#"[package]
name = "embeddenator-app"
version = "1.5.0"

[dependencies]
embeddenator-core = { version = "1.5.0", path = "../core", features = ["fast"] }
embeddenator-util = "0.10.0"
serde = "1.0"
third-party = { version = "1.4.0", path = "../vendor" }

[dev-dependencies]
embeddenator-core = { path = "../core" }
"#
    );
    assert_eq!(
        outcome.writes[1].content,
        "[package]\nname = \"embeddenator-core\"\nversion = \"1.5.0\"\n"
    );
    assert_eq!(
        outcome.writes[2].content,
        "[package]\nname = \"embeddenator-util\"\nversion = \"0.10.0\"\n"
    );
}

/// A workspace whose main package carries the bare prefix as its name, and
/// a package that depends on it in all three sections.
fn workspace_with_main_package(declared: &str) -> Vec<SourceFile> {
    vec![
        file(
            "/ws/embeddenator/Cargo.toml",
            "[package]\nname = \"embeddenator\"\nversion = \"2.3.4\"\n",
        ),
        file(
            "/ws/cli/Cargo.toml",
            &format!(
                r#"[package]
name = "embeddenator-cli"
version = "2.3.4"

[dependencies]
embeddenator = "{0}"

[dev-dependencies]
embeddenator = {{ version = "{0}", features = ["testing"] }}

[build-dependencies.embeddenator]
version = "{0}"
default-features = false
"#,
                declared
            ),
        ),
    ]
}

#[test]
fn bump_reaches_dependencies_on_the_main_package() {
    let outcome = VersionManager::new("/ws")
        .bump_versions(&workspace_with_main_package("2.3.4"), BumpType::Patch, false)
        .unwrap();
    assert_eq!(outcome.changes[0].package, "embeddenator");
    assert_eq!(outcome.changes[0].new_version.to_string(), "2.3.5");
    assert_eq!(outcome.writes[1].path, "/ws/cli/Cargo.toml");
    assert_eq!(
        outcome.writes[1].content,
        r#"[package]
name = "embeddenator-cli"
version = "2.3.5"

[dependencies]
embeddenator = "2.3.5"

[dev-dependencies]
embeddenator = { version = "2.3.5", features = ["testing"] }

[build-dependencies.embeddenator]
version = "2.3.5"
default-features = false
"#
    );
    for change in &outcome.changes {
        for package in &outcome.packages {
            for dep in &package.dependencies {
                if dep.name == change.package {
                    assert_eq!(dep.version.as_ref(), Some(&change.new_version));
                }
            }
        }
    }
}

#[test]
fn consistency_compares_dependencies_on_the_main_package() {
    let report = VersionManager::new("/ws")
        .check_consistency(&workspace_with_main_package("2.0.0"))
        .unwrap();
    assert_eq!(report.total_packages, 2);
    assert!(report.has_issues());
    let seen: Vec<(&str, &str, String, String)> = report
        .inconsistencies
        .iter()
        .map(|x| {
            (
                x.package.as_str(),
                x.dependency.as_str(),
                x.expected.to_string(),
                x.found.to_string(),
            )
        })
        .collect();
    let one = (
        "embeddenator-cli",
        "embeddenator",
        "2.3.4".to_string(),
        "2.0.0".to_string(),
    );
    assert_eq!(seen, vec![one.clone(), one.clone(), one]);

    let agreed = VersionManager::new("/ws")
        .check_consistency(&workspace_with_main_package("2.3.4"))
        .unwrap();
    assert!(!agreed.has_issues());
}

#[test]
fn consistency_without_packages_is_an_error() {
    let manager = VersionManager::new("/ws");
    assert_eq!(
        manager.check_consistency(&Vec::new()).unwrap_err(),
        WorkspaceError::NoPackagesFound
    );
    let others = vec![
        file(
            "/ws/x/Cargo.toml",
            "[package]\nname = \"serde\"\nversion = \"1.0.0\"\n",
        ),
        file("/ws/broken/Cargo.toml", "[package"),
        file(
            "/ws/a/crates/inner/Cargo.toml",
            "[package]\nname = \"embeddenator-inner\"\nversion = \"1.0.0\"\n",
        ),
    ];
    assert_eq!(
        manager.check_consistency(&others).unwrap_err(),
        WorkspaceError::NoPackagesFound
    );
    let one = vec![file(
        "/ws/a/Cargo.toml",
        "[package]\nname = \"embeddenator-a\"\nversion = \"1.0.0\"\n",
    )];
    assert_eq!(manager.check_consistency(&one).unwrap().total_packages, 1);
}

#[test]
fn bump_without_packages_is_an_error() {
    let manager = VersionManager::new("/ws");
    assert_eq!(
        manager
            .bump_versions(&Vec::new(), BumpType::Patch, true)
            .unwrap_err(),
        WorkspaceError::NoPackagesFound
    );
    let others = vec![file(
        "/ws/x/Cargo.toml",
        "[package]\nname = \"serde\"\nversion = \"1.0.0\"\n",
    )];
    assert_eq!(
        manager
            .bump_versions(&others, BumpType::Patch, false)
            .unwrap_err(),
        WorkspaceError::NoPackagesFound
    );
}

#[test]
fn errors_say_what_went_wrong() {
    assert_eq!(
        WorkspaceError::NoPackagesFound.message(),
        "No embeddenator packages found in workspace"
    );
    assert_eq!(
        WorkspaceError::Version(VersionError::Overflow).message(),
        VersionError::Overflow.message()
    );
    assert_eq!(VersionError::Malformed.message(), "not a semantic version");
    assert_eq!(
        VersionError::Overflow.message(),
        "version number has no successor"
    );
    assert_eq!(
        VersionError::InvalidPrerelease.message(),
        "prerelease label is not valid"
    );
    assert_eq!(
        embeddenator_workspace::ManifestError::ParseError.message(),
        "Failed to parse the manifest"
    );
    assert_eq!(
        embeddenator_workspace::ManifestError::InvalidVersion.message(),
        "Invalid version in package.version"
    );
    assert_eq!(
        CargoManifest::load("x", "[package]\nname = \"a\"\n")
            .unwrap_err()
            .message(),
        "Missing package.version"
    );
    assert_eq!(
        CargoManifest::load("x", "[package]\nversion = \"1.0.0\"\n")
            .unwrap_err()
            .message(),
        "Missing package.name"
    );
    assert_eq!(
        embeddenator_workspace::PatchError::ParseError.message(),
        "Failed to parse the overlay document"
    );
}

#[test]
fn bump_that_overflows_writes_nothing() {
    let files = vec![
        file(
            "/ws/a/Cargo.toml",
            "[package]\nname = \"embeddenator-a\"\nversion = \"1.0.0\"\n",
        ),
        file(
            "/ws/b/Cargo.toml",
            "[package]\nname = \"embeddenator-b\"\nversion = \"18446744073709551615.0.0\"\n",
        ),
    ];
    assert_eq!(
        VersionManager::new("/ws")
            .bump_versions(&files, BumpType::Major, false)
            .unwrap_err(),
        WorkspaceError::Version(VersionError::Overflow)
    );
}

#[test]
fn scanner_skips_what_does_not_load_and_sorts_by_name() {
    let files = vec![
        file(
            "/ws/zeta/Cargo.toml",
            "[package]\nname = \"embeddenator-zeta\"\nversion = \"1.0.0\"\n",
        ),
        file("/ws/broken/Cargo.toml", "[package\nname ="),
        file("/ws/Cargo.toml", "[workspace]\nmembers = [\"zeta\"]\n"),
        file(
            "/ws/alpha/Cargo.toml",
            "[package]\nname = \"embeddenator-alpha\"\nversion = \"1.0.0\"\n",
        ),
        file(
            "/ws/alpha/crates/inner/Cargo.toml",
            "[package]\nname = \"embeddenator-inner\"\nversion = \"1.0.0\"\n",
        ),
        file(
            "/ws/out/target/debug/Cargo.toml",
            "[package]\nname = \"embeddenator-built\"\nversion = \"1.0.0\"\n",
        ),
        file(
            "/ws/dep/Cargo.toml",
            "[package]\nname = \"serde\"\nversion = \"1.0.0\"\n",
        ),
        file(
            "/ws/main/Cargo.toml",
            "[package]\nname = \"embeddenator\"\nversion = \"1.0.0\"\n",
        ),
    ];
    let scanner = WorkspaceScanner::new("/ws");
    let all: Vec<String> = scanner
        .find_manifests(&files)
        .iter()
        .map(|m| m.package_name.clone())
        .collect();
    assert_eq!(
        all,
        vec![
            "embeddenator-zeta",
            "embeddenator-alpha",
            "embeddenator-inner",
            "embeddenator-built",
            "serde",
            "embeddenator"
        ]
    );
    let packages: Vec<String> = scanner
        .find_embeddenator_packages(&files)
        .iter()
        .map(|m| m.package_name.clone())
        .collect();
    assert_eq!(
        packages,
        vec!["embeddenator", "embeddenator-alpha", "embeddenator-zeta"]
    );
    let serde = CargoManifest::load(&files[6].path, &files[6].content).unwrap();
    assert!(!is_package(&serde));
}

#[test]
fn sorting_is_stable_for_equal_names() {
    let files = vec![
        file(
            "/ws/b/Cargo.toml",
            "[package]\nname = \"embeddenator-x\"\nversion = \"2.0.0\"\n",
        ),
        file(
            "/ws/a/Cargo.toml",
            "[package]\nname = \"embeddenator-x\"\nversion = \"1.0.0\"\n",
        ),
        file(
            "/ws/c/Cargo.toml",
            "[package]\nname = \"embeddenator-a\"\nversion = \"3.0.0\"\n",
        ),
    ];
    let paths: Vec<String> = WorkspaceScanner::new("/ws")
        .find_embeddenator_packages(&files)
        .iter()
        .map(|m| m.path.clone())
        .collect();
    assert_eq!(
        paths,
        vec!["/ws/c/Cargo.toml", "/ws/b/Cargo.toml", "/ws/a/Cargo.toml"]
    );
}

#[test]
fn workspace_root_is_the_innermost_marked_directory() {
    let candidate = |path: &str, script: bool, main: bool| RootCandidate {
        path: path.to_string(),
        has_update_script: script,
        has_main_package: main,
    };
    assert_eq!(find_workspace_root(&Vec::new()), None);
    assert_eq!(
        find_workspace_root(&vec![
            candidate("/a/b/c", false, false),
            candidate("/a/b", false, true),
            candidate("/a", true, false),
            candidate("/", false, false),
        ]),
        Some(1)
    );
    assert_eq!(
        find_workspace_root(&vec![
            candidate("/a/b", false, false),
            candidate("/a", false, false),
            candidate("/", true, true),
        ]),
        Some(2)
    );
    assert_eq!(
        find_workspace_root(&vec![
            candidate("/a", false, false),
            candidate("/", false, false),
        ]),
        None
    );
}

#[test]
fn walk_skips_build_and_tool_directories() {
    assert!(is_skipped_directory("target"));
    assert!(is_skipped_directory(".git"));
    assert!(is_skipped_directory("node_modules"));
    assert!(is_skipped_directory(".cargo"));
    assert!(!is_skipped_directory("src"));
    assert!(!is_skipped_directory("targets"));
    assert!(!is_skipped_directory(""));
}

#[test]
fn consistency_reports_drift_by_major_version() {
    let files = vec![
        file(
            "/ws/a/Cargo.toml",
            "[package]\nname = \"embeddenator-a\"\nversion = \"1.0.0\"\n",
        ),
        file(
            "/ws/b/Cargo.toml",
            "[package]\nname = \"embeddenator-b\"\nversion = \"2.3.0\"\n",
        ),
        file(
            "/ws/c/Cargo.toml",
            "[package]\nname = \"embeddenator-c\"\nversion = \"1.9.0\"\n",
        ),
    ];
    let report = VersionManager::new("/ws")
        .check_consistency(&files)
        .unwrap();
    assert!(report.drift_detected);
    assert!(report.has_issues());
    assert_eq!(report.total_packages, 3);
    assert_eq!(
        report.issues,
        vec![
            "version drift: 2 package(s) on major version 1: embeddenator-a, embeddenator-c"
                .to_string(),
            "version drift: 1 package(s) on major version 2: embeddenator-b".to_string(),
        ]
    );
    assert!(report.inconsistencies.is_empty());
}

#[test]
fn consistency_passes_over_local_paths_and_strangers() {
    let files = vec![
        file(
            "/ws/a/Cargo.toml",
            r#"[package]
name = "embeddenator-a"
version = "1.0.0"

[dependencies]
embeddenator-b = { version = "0.1.0", path = "../b" }
embeddenator-c = { version = "0.1.0" }
embeddenator-gone = "0.1.0"
embeddenator-d = { git = "https://example.org/d" }
serde = "0.1.0"

[dev-dependencies]
embeddenator-b = "1.0.0"

[build-dependencies]
embeddenator-b = "0.3.0+meta"
"#,
        ),
        file(
            "/ws/b/Cargo.toml",
            "[package]\nname = \"embeddenator-b\"\nversion = \"1.0.0\"\n",
        ),
        file(
            "/ws/c/Cargo.toml",
            "[package]\nname = \"embeddenator-c\"\nversion = \"1.0.0\"\n",
        ),
        file(
            "/ws/d/Cargo.toml",
            "[package]\nname = \"embeddenator-d\"\nversion = \"1.0.0\"\n",
        ),
    ];
    let report = VersionManager::new("/ws")
        .check_consistency(&files)
        .unwrap();
    assert!(!report.drift_detected);
    let seen: Vec<(String, String, String, String)> = report
        .inconsistencies
        .iter()
        .map(|x| {
            (
                x.package.clone(),
                x.dependency.clone(),
                x.expected.to_string(),
                x.found.to_string(),
            )
        })
        .collect();
    assert_eq!(
        seen,
        vec![
            (
                "embeddenator-a".to_string(),
                "embeddenator-c".to_string(),
                "1.0.0".to_string(),
                "0.1.0".to_string()
            ),
            (
                "embeddenator-a".to_string(),
                "embeddenator-b".to_string(),
                "1.0.0".to_string(),
                "0.3.0+meta".to_string()
            ),
        ]
    );
    assert!(report.has_issues());
}

#[test]
fn consistency_of_no_packages_is_clean() {
    let report = check_packages(&Vec::new());
    assert_eq!(report.total_packages, 0);
    assert!(!report.has_issues());
    assert_eq!(report, embeddenator_workspace::VersionReport::default());
}

#[test]
fn planning_and_propagation_work_on_loaded_manifests() {
    let scanner = WorkspaceScanner::new("/ws");
    let mut packages = scanner.find_embeddenator_packages(&create_test_workspace());
    let changes = plan_changes(&packages, BumpType::Major).unwrap();
    assert_eq!(changes.len(), 2);
    assert_eq!(changes[0].package, "embeddenator-pkg1");
    assert_eq!(changes[0].path, "/ws/pkg1/Cargo.toml");
    assert_eq!(changes[0].old_version, SemVer::parse("0.20.0-alpha.1").unwrap());
    assert_eq!(changes[0].new_version, SemVer::new(1, 0, 0));
    assert_eq!(
        find_new_version(&changes, "embeddenator-pkg2"),
        Some(&SemVer::new(1, 0, 0))
    );
    assert_eq!(find_new_version(&changes, "serde"), None);

    update_dependencies(&mut packages, &changes);
    assert!(packages[0]
        .save()
        .contains("embeddenator-pkg2 = \"1.0.0\""));
    // the package's own version is not touched by propagation
    assert!(packages[0].save().contains("version = \"0.20.0-alpha.1\""));
    assert_eq!(
        packages[0].dependencies[0].version,
        Some(SemVer::new(1, 0, 0))
    );
}
