use embeddenator_workspace::cargo::ManifestField;
use embeddenator_workspace::{CargoManifest, DependencyType, ManifestError, SemVer};

fn manifest_text(name: &str, version: &str) -> String {
    format!(
        r#"[package]
name = "{}"
version = "{}"
edition = "2021"

[dependencies]
"#,
        name, version
    )
}

fn manifest_text_with_deps(name: &str, version: &str, deps: &[(&str, &str)]) -> String {
    let mut content = manifest_text(name, version);
    for (dep_name, dep_version) in deps {
        content.push_str(&format!("{} = \"{}\"\n", dep_name, dep_version));
    }
    content
}

#[test]
fn test_load_manifest() {
    let content = manifest_text("test-package", "0.20.0-alpha.1");

    let manifest = CargoManifest::load("test-package/Cargo.toml", &content).unwrap();

    assert_eq!(manifest.package_name, "test-package");
    assert_eq!(manifest.version.to_string(), "0.20.0-alpha.1");
}

#[test]
fn test_set_version() {
    let content = manifest_text("test-package", "0.20.0-alpha.1");

    let mut manifest = CargoManifest::load("test-package/Cargo.toml", &content).unwrap();
    let new_version = SemVer::parse("0.21.0").unwrap();

    manifest.set_version(&new_version);
    let saved = manifest.save();

    // Reload and verify
    let reloaded = CargoManifest::load("test-package/Cargo.toml", &saved).unwrap();
    assert_eq!(reloaded.version, new_version);
}

#[test]
fn test_update_dependency() {
    let content = manifest_text_with_deps(
        "test-package",
        "0.20.0-alpha.1",
        &[("embeddenator-vsa", "0.20.0-alpha.1")],
    );

    let mut manifest = CargoManifest::load("test-package/Cargo.toml", &content).unwrap();
    let new_version = SemVer::parse("0.21.0").unwrap();

    manifest.update_dependency("embeddenator-vsa", &new_version);
    let saved = manifest.save();

    // Reload and verify
    let reloaded = CargoManifest::load("test-package/Cargo.toml", &saved).unwrap();
    let vsa_dep = reloaded
        .dependencies
        .iter()
        .find(|d| d.name == "embeddenator-vsa")
        .unwrap();

    assert_eq!(vsa_dep.version.as_ref().unwrap(), &new_version);
}

#[test]
fn test_embeddenator_dependencies() {
    let content = manifest_text_with_deps(
        "test-package",
        "0.20.0-alpha.1",
        &[
            ("embeddenator-vsa", "0.20.0-alpha.1"),
            ("serde", "1.0"),
            ("embeddenator-io", "0.20.0-alpha.1"),
        ],
    );

    let manifest = CargoManifest::load("test-package/Cargo.toml", &content).unwrap();
    let embeddenator_deps = manifest.embeddenator_dependencies();

    assert_eq!(embeddenator_deps.len(), 2);
    assert!(embeddenator_deps
        .iter()
        .any(|d| d.name == "embeddenator-vsa"));
    assert!(embeddenator_deps
        .iter()
        .any(|d| d.name == "embeddenator-io"));
}

#[test]
fn namespaced_dependencies_carry_the_shared_prefix() {
    let content = manifest_text_with_deps(
        "embeddenator-cli",
        "1.0.0",
        &[
            ("embeddenator", "1.0.0"),
            ("embeddenators", "1.0.0"),
            ("embeddenato", "1.0.0"),
            ("my-embeddenator", "1.0.0"),
            ("embeddenator-vsa", "1.0.0"),
        ],
    );
    let manifest = CargoManifest::load("cli/Cargo.toml", &content).unwrap();
    let names: Vec<&str> = manifest
        .embeddenator_dependencies()
        .iter()
        .map(|d| d.name.as_str())
        .collect();
    assert_eq!(names, vec!["embeddenator", "embeddenators", "embeddenator-vsa"]);
    assert!(embeddenator_workspace::cargo::has_namespace("embeddenator"));
    assert!(!embeddenator_workspace::cargo::has_namespace("Embeddenator"));
}

#[test]
fn load_reports_what_is_wrong() {
    assert_eq!(
        CargoManifest::load("x", "[package").unwrap_err(),
        ManifestError::ParseError
    );
    assert_eq!(
        CargoManifest::load("x", "[workspace]\nmembers = []\n").unwrap_err(),
        ManifestError::MissingField(ManifestField::Name)
    );
    assert_eq!(
        CargoManifest::load("x", "[package]\nversion = \"1.0.0\"\n").unwrap_err(),
        ManifestError::MissingField(ManifestField::Name)
    );
    assert_eq!(
        CargoManifest::load("x", "[package]\nname = 3\nversion = \"1.0.0\"\n").unwrap_err(),
        ManifestError::MissingField(ManifestField::Name)
    );
    assert_eq!(
        CargoManifest::load("x", "[package]\nname = \"a\"\n").unwrap_err(),
        ManifestError::MissingField(ManifestField::Version)
    );
    assert_eq!(
        CargoManifest::load("x", "[package]\nname = \"a\"\nversion = \"1.0\"\n").unwrap_err(),
        ManifestError::InvalidVersion
    );
}

#[test]
fn load_reads_the_three_sections_in_order() {
    let content = r#"[package]
name = "embeddenator-app"
version = "1.2.3"

[build-dependencies]
cc = "1.0"

[dev-dependencies]
embeddenator-testkit = { version = "0.3.0", path = "../testkit" }

[dependencies]
serde = { version = "1.0", features = ["derive"] }
embeddenator-vsa = "0.20.0"
embeddenator-fs = { git = "https://example.org/fs", branch = "main" }
odd = 5

[dependencies.embeddenator-io]
version = "0.4.1"
"#;
    let manifest = CargoManifest::load("app/Cargo.toml", content).unwrap();
    assert_eq!(manifest.path, "app/Cargo.toml");
    let seen: Vec<(&str, Option<String>, DependencyType, bool)> = manifest
        .dependencies
        .iter()
        .map(|d| {
            (
                d.name.as_str(),
                d.version.as_ref().map(|v| v.to_string()),
                d.dep_type,
                d.has_path,
            )
        })
        .collect();
    assert_eq!(
        seen,
        vec![
            ("serde", None, DependencyType::Normal, false),
            (
                "embeddenator-vsa",
                Some("0.20.0".to_string()),
                DependencyType::Normal,
                false
            ),
            ("embeddenator-fs", None, DependencyType::Normal, false),
            ("odd", None, DependencyType::Normal, false),
            (
                "embeddenator-io",
                Some("0.4.1".to_string()),
                DependencyType::Normal,
                false
            ),
            (
                "embeddenator-testkit",
                Some("0.3.0".to_string()),
                DependencyType::Dev,
                true
            ),
            ("cc", None, DependencyType::Build, false),
        ]
    );
}

#[test]
fn set_version_keeps_the_rest_of_the_document() {
    let content = r#"# the package
[package]
name = "embeddenator-app" # its name
version = "1.2.3"
edition = "2021"

[features]
default = []
"#;
    let mut manifest = CargoManifest::load("Cargo.toml", content).unwrap();
    manifest.set_version(&SemVer::parse("2.0.0-alpha.1").unwrap());
    assert_eq!(manifest.version.to_string(), "2.0.0-alpha.1");
    assert_eq!(
        manifest.save(),
        r#"# the package
[package]
name = "embeddenator-app" # its name
version = "2.0.0-alpha.1"
edition = "2021"

[features]
default = []
"#
    );
}

#[test]
fn update_dependency_rewrites_only_the_version() {
    let content = r#"[package]
name = "embeddenator-app"
version = "1.2.3"

[dependencies]
embeddenator-vsa = "0.20.0"
serde = "1.0"

[dev-dependencies]
embeddenator-vsa = { version = "0.20.0", path = "../vsa", features = ["x"] }

[build-dependencies]
embeddenator-vsa = { git = "https://example.org/vsa", tag = "v1" }
"#;
    let mut manifest = CargoManifest::load("Cargo.toml", content).unwrap();
    manifest.update_dependency("embeddenator-vsa", &SemVer::parse("0.21.0").unwrap());
    assert_eq!(
        manifest.save(),
        r#"[package]
name = "embeddenator-app"
version = "1.2.3"

[dependencies]
embeddenator-vsa = "0.21.0"
serde = "1.0"

[dev-dependencies]
embeddenator-vsa = { version = "0.21.0", path = "../vsa", features = ["x"] }

[build-dependencies]
embeddenator-vsa = { git = "https://example.org/vsa", tag = "v1" }
"#
    );
    let recorded: Vec<Option<String>> = manifest
        .dependencies
        .iter()
        .filter(|d| d.name == "embeddenator-vsa")
        .map(|d| d.version.as_ref().map(|v| v.to_string()))
        .collect();
    assert_eq!(
        recorded,
        vec![Some("0.21.0".to_string()), Some("0.21.0".to_string()), None]
    );
}

#[test]
fn update_dependency_rewrites_a_table_under_a_header() {
    let content = r#"[package]
name = "embeddenator-app"
version = "1.2.3"

[dependencies.embeddenator-io]
version = "0.4.1"
path = "../io"
"#;
    let mut manifest = CargoManifest::load("Cargo.toml", content).unwrap();
    manifest.update_dependency("embeddenator-io", &SemVer::parse("0.5.0").unwrap());
    let saved = manifest.save();
    assert!(saved.contains("version = \"0.5.0\""));
    assert!(saved.contains("path = \"../io\""));
    assert!(saved.contains("version = \"1.2.3\""));
}

#[test]
fn update_dependency_of_an_unknown_name_changes_nothing() {
    let content = manifest_text_with_deps("a", "1.0.0", &[("serde", "1.0")]);
    let mut manifest = CargoManifest::load("Cargo.toml", &content).unwrap();
    manifest.update_dependency("embeddenator-vsa", &SemVer::parse("0.5.0").unwrap());
    assert_eq!(manifest.save(), content);
}

#[test]
fn package_written_inline_is_read_and_rewritten() {
    let content = "package = { name = \"embeddenator-x\", version = \"1.0.0\" }\n";
    let mut manifest = CargoManifest::load("Cargo.toml", content).unwrap();
    assert_eq!(manifest.package_name, "embeddenator-x");
    manifest.set_version(&SemVer::parse("1.0.1").unwrap());
    assert_eq!(
        manifest.save(),
        "package = { name = \"embeddenator-x\", version = \"1.0.1\" }\n"
    );
}

#[test]
fn sections_that_are_no_tables_declare_nothing() {
    let content = "dependencies = { embeddenator-a = \"1.0.0\" }\n\n[package]\nname = \"x\"\nversion = \"1.0.0\"\n";
    let mut manifest = CargoManifest::load("Cargo.toml", content).unwrap();
    assert!(manifest.dependencies.is_empty());
    manifest.update_dependency("embeddenator-a", &SemVer::parse("2.0.0").unwrap());
    assert_eq!(manifest.save(), content);
}

#[test]
fn save_round_trips_an_untouched_document() {
    let content = "# note\n[package]\nname = \"a\"   # trailing\nversion = \"1.0.0\"\n\n[x]\ny = [1, 2,\n  3]\n";
    let manifest = CargoManifest::load("Cargo.toml", content).unwrap();
    assert_eq!(manifest.save(), content);
}
