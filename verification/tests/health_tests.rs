//! Tests for workspace health checking.

use embeddenator_workspace::checks::{
    count_warning_lines, docs_check, git_check, read_failure_lines, specs_check, tests_check,
    version_check, version_check_failed, PackageRun, RepoProbe, RunOutcome, SpecProbe,
};
use embeddenator_workspace::health::{detail_window, overall_status};
use embeddenator_workspace::{
    GitStatus, HealthCheckResult, HealthCheckType, HealthChecker, HealthReport, HealthStatus,
    SourceFile, VersionManager,
};

fn result(check_type: HealthCheckType, status: HealthStatus) -> HealthCheckResult {
    HealthCheckResult {
        check_type,
        status,
        message: format!("{} done", check_type.as_str()),
        details: Vec::new(),
    }
}

/// Two packages with the same version, the first with specs and the second
/// without.
fn create_test_workspace() -> Vec<SourceFile> {
    vec![
        SourceFile {
            path: "/ws/embeddenator-test1/Cargo.toml".to_string(),
            content: r#"
[package]
name = "embeddenator-test1"
version = "0.20.0-alpha.1"
edition = "2021"

[dependencies]
            "#
            .to_string(),
        },
        SourceFile {
            path: "/ws/embeddenator-test2/Cargo.toml".to_string(),
            content: r#"
[package]
name = "embeddenator-test2"
version = "0.20.0-alpha.1"
edition = "2021"
            "#
            .to_string(),
        },
    ]
}

fn spec_probes() -> Vec<SpecProbe> {
    vec![
        SpecProbe {
            package: "embeddenator-test1".to_string(),
            has_specs: true,
            spec_files: 1,
        },
        SpecProbe {
            package: "embeddenator-test2".to_string(),
            has_specs: false,
            spec_files: 0,
        },
    ]
}

#[test]
fn test_health_checker_creation() {
    let checker = HealthChecker::new("/ws");
    assert_eq!(checker.workspace_root, "/ws");
}

#[test]
fn test_spec_coverage_check() {
    let checker = HealthChecker::new("/ws");
    let outcomes = vec![Some(specs_check(&spec_probes(), "50.0"))];
    let report = checker.check_selected(outcomes, "1700000000");

    assert_eq!(report.checks.len(), 1);
    let spec_check = &report.checks[0];

    assert_eq!(spec_check.check_type, HealthCheckType::Specs);
    // Should be warning because one package has specs, one doesn't
    assert_eq!(spec_check.status, HealthStatus::Warn);
    assert!(spec_check.message.contains("50.0%") || spec_check.message.contains("coverage"));
    assert_eq!(
        spec_check.message,
        "Spec coverage: 50.0% (1/2 packages with specs/)"
    );
    assert_eq!(
        spec_check.details,
        vec![
            "embeddenator-test1: 1 spec file(s)".to_string(),
            "embeddenator-test2: missing specs/ directory".to_string(),
        ]
    );
}

#[test]
fn test_version_check() {
    let checker = HealthChecker::new("/ws");
    let versions = VersionManager::new("/ws")
        .check_consistency(&create_test_workspace())
        .unwrap();
    let report = checker.check_selected(vec![Some(version_check(&versions))], "1700000000");

    assert_eq!(report.checks.len(), 1);
    let version_check = &report.checks[0];

    assert_eq!(version_check.check_type, HealthCheckType::Version);
    // Should pass since both packages have consistent versions
    assert_eq!(version_check.status, HealthStatus::Pass);
    assert_eq!(
        version_check.message,
        "All 2 packages have consistent versions"
    );
}

#[test]
fn test_parallel_checks() {
    let checker = HealthChecker::new("/ws");
    let versions = VersionManager::new("/ws")
        .check_consistency(&create_test_workspace())
        .unwrap();

    let outcomes = vec![
        Some(version_check(&versions)),
        Some(specs_check(&spec_probes(), "50.0")),
    ];
    let report = checker.check_selected(outcomes, "1700000000");

    // Should have results for both checks
    assert_eq!(report.checks.len(), 2);

    // Verify both check types are present
    let check_type_set: std::collections::HashSet<_> =
        report.checks.iter().map(|c| c.check_type).collect();
    assert!(check_type_set.contains(&HealthCheckType::Version));
    assert!(check_type_set.contains(&HealthCheckType::Specs));
}

#[test]
fn test_report_has_failures() {
    let checker = HealthChecker::new("/ws");
    let passing = checker.check_selected(
        vec![
            Some(result(HealthCheckType::Git, HealthStatus::Pass)),
            Some(result(HealthCheckType::Docs, HealthStatus::Warn)),
        ],
        "0",
    );
    assert!(!passing.has_failures());
    let failing = checker.check_selected(
        vec![
            Some(result(HealthCheckType::Git, HealthStatus::Pass)),
            Some(result(HealthCheckType::Tests, HealthStatus::Fail)),
        ],
        "0",
    );
    assert!(failing.has_failures());
}

#[test]
fn test_markdown_generation() {
    let checker = HealthChecker::new("/ws");
    let versions = VersionManager::new("/ws")
        .check_consistency(&create_test_workspace())
        .unwrap();
    let report = checker.check_selected(vec![Some(version_check(&versions))], "1700000000");

    let markdown = report.to_markdown();

    // Verify markdown structure
    assert!(markdown.contains("# Workspace Health Report"));
    assert!(markdown.contains("**Generated:**"));
    assert!(markdown.contains("**Workspace:**"));
    assert!(markdown.contains("**Overall Status:**"));
    assert!(markdown.contains("## Check Results"));
}

#[test]
fn test_health_check_type_from_str() {
    assert_eq!("git".parse::<HealthCheckType>(), Ok(HealthCheckType::Git));
    assert_eq!(
        "version".parse::<HealthCheckType>(),
        Ok(HealthCheckType::Version)
    );
    assert_eq!(
        "tests".parse::<HealthCheckType>(),
        Ok(HealthCheckType::Tests)
    );
    assert_eq!("docs".parse::<HealthCheckType>(), Ok(HealthCheckType::Docs));
    assert_eq!(
        "specs".parse::<HealthCheckType>(),
        Ok(HealthCheckType::Specs)
    );
    assert!("invalid".parse::<HealthCheckType>().is_err());
}

#[test]
fn test_health_status_is_critical() {
    assert!(!HealthStatus::Pass.is_critical());
    assert!(!HealthStatus::Warn.is_critical());
    assert!(HealthStatus::Fail.is_critical());
}

#[test]
fn check_type_names_ignore_case_and_round_trip() {
    assert_eq!(HealthCheckType::parse("GIT"), Ok(HealthCheckType::Git));
    assert_eq!(HealthCheckType::parse("Docs"), Ok(HealthCheckType::Docs));
    assert_eq!(
        HealthCheckType::parse("lint"),
        Err("Unknown health check type: lint".to_string())
    );
    assert_eq!(HealthCheckType::from_lowercase("GIT"), None);
    for check in HealthCheckType::all() {
        assert_eq!(HealthCheckType::parse(check.as_str()), Ok(check));
        assert_eq!(HealthCheckType::from_lowercase(check.as_str()), Some(check));
    }
    assert_eq!(HealthCheckType::all().len(), 5);
}

#[test]
fn overall_status_is_the_most_severe_in_any_order() {
    let all = [HealthStatus::Pass, HealthStatus::Warn, HealthStatus::Fail];
    assert_eq!(overall_status(&Vec::new()), HealthStatus::Pass);
    for a in all {
        for b in all {
            for c in all {
                let results = vec![
                    result(HealthCheckType::Git, a),
                    result(HealthCheckType::Version, b),
                    result(HealthCheckType::Tests, c),
                ];
                let expected = if [a, b, c].contains(&HealthStatus::Fail) {
                    HealthStatus::Fail
                } else if [a, b, c].contains(&HealthStatus::Warn) {
                    HealthStatus::Warn
                } else {
                    HealthStatus::Pass
                };
                assert_eq!(overall_status(&results), expected);
                let swapped = vec![
                    result(HealthCheckType::Tests, c),
                    result(HealthCheckType::Git, a),
                    result(HealthCheckType::Version, b),
                ];
                assert_eq!(overall_status(&swapped), expected);
            }
        }
    }
}

#[test]
fn a_failed_task_costs_only_its_own_check() {
    let checker = HealthChecker::new("/ws");
    let outcomes = vec![
        Some(result(HealthCheckType::Git, HealthStatus::Pass)),
        None,
        Some(result(HealthCheckType::Tests, HealthStatus::Warn)),
        None,
        Some(result(HealthCheckType::Specs, HealthStatus::Pass)),
    ];
    let report = checker.check_selected(outcomes, "1700000000");
    let kinds: Vec<HealthCheckType> = report.checks.iter().map(|c| c.check_type).collect();
    assert_eq!(
        kinds,
        vec![
            HealthCheckType::Git,
            HealthCheckType::Tests,
            HealthCheckType::Specs
        ]
    );
    assert_eq!(report.overall_status, HealthStatus::Warn);
    assert_eq!(report.timestamp, "1700000000");
    assert_eq!(report.workspace_root, "/ws");

    let nothing = checker.check_selected(vec![None, None], "0");
    assert!(nothing.checks.is_empty());
    assert_eq!(nothing.overall_status, HealthStatus::Pass);
}

#[test]
fn markdown_is_exact() {
    let report = HealthReport {
        timestamp: "1700000000".to_string(),
        workspace_root: "/ws".to_string(),
        checks: vec![
            HealthCheckResult {
                check_type: HealthCheckType::Git,
                status: HealthStatus::Fail,
                message: "Found 1 repositories with uncommitted changes".to_string(),
                details: vec!["a: 1 dirty file(s) on branch main".to_string(), "b".to_string()],
            },
            HealthCheckResult {
                check_type: HealthCheckType::Docs,
                status: HealthStatus::Pass,
                message: "fine".to_string(),
                details: Vec::new(),
            },
        ],
        overall_status: HealthStatus::Fail,
    };
    assert_eq!(
        report.to_markdown(),
        "# Workspace Health Report\n\n**Generated:** 1700000000\n**Workspace:** `/ws`\n\n**Overall Status:** ❌ Fail\n\n## Check Results\n\n### ❌ git Check\n\n**Status:** Fail\n\nFound 1 repositories with uncommitted changes\n\n**Details:**\n\n- a: 1 dirty file(s) on branch main\n- b\n\n### ✅ docs Check\n\n**Status:** Pass\n\nfine\n\n"
    );
    let warn = HealthReport {
        timestamp: "t".to_string(),
        workspace_root: ".".to_string(),
        checks: Vec::new(),
        overall_status: HealthStatus::Warn,
    };
    assert_eq!(
        warn.to_markdown(),
        "# Workspace Health Report\n\n**Generated:** t\n**Workspace:** `.`\n\n**Overall Status:** ⚠️ Warn\n\n## Check Results\n\n"
    );
}

#[test]
fn terminal_listing_cuts_long_detail_lists() {
    assert_eq!(detail_window(0, false), (0, 0));
    assert_eq!(detail_window(3, false), (3, 0));
    assert_eq!(detail_window(4, false), (3, 1));
    assert_eq!(detail_window(10, false), (3, 7));
    assert_eq!(detail_window(10, true), (10, 0));
}

fn clean(name: &str) -> RepoProbe {
    RepoProbe {
        name: name.to_string(),
        path: format!("/ws/{}", name),
        status: Ok(GitStatus {
            repo_path: format!("/ws/{}", name),
            branch: "main".to_string(),
            is_dirty: false,
            ahead: 0,
            behind: 0,
            has_upstream: true,
            dirty_files: Vec::new(),
        }),
    }
}

#[test]
fn git_check_ranks_dirt_over_warnings() {
    let all_clean = git_check(&vec![clean("a"), clean("b")], false);
    assert_eq!(all_clean.check_type, HealthCheckType::Git);
    assert_eq!(all_clean.status, HealthStatus::Pass);
    assert_eq!(all_clean.message, "All 2 repositories are clean and synced");
    assert!(all_clean.details.is_empty());

    let mut ahead = clean("b");
    if let Ok(status) = &mut ahead.status {
        status.ahead = 2;
        status.behind = 1;
        status.has_upstream = false;
        status.branch = "dev".to_string();
    }
    let unreadable = RepoProbe {
        name: "c".to_string(),
        path: "/ws/c".to_string(),
        status: Err("not a repository".to_string()),
    };
    let warned = git_check(&vec![clean("a"), ahead, unreadable], false);
    assert_eq!(warned.status, HealthStatus::Warn);
    assert_eq!(warned.message, "All repositories clean, 3 warning(s)");
    assert_eq!(
        warned.details,
        vec![
            "b: 2 ahead, 1 behind upstream on dev".to_string(),
            "b: no upstream configured for dev".to_string(),
            "Failed to check /ws/c: not a repository".to_string(),
        ]
    );

    let mut dirty = clean("a");
    if let Ok(status) = &mut dirty.status {
        status.is_dirty = true;
        status.dirty_files = vec!["src/lib.rs".to_string(), "README.md".to_string()];
        status.behind = 4;
    }
    let dirty_again = RepoProbe {
        name: dirty.name.clone(),
        path: dirty.path.clone(),
        status: dirty.status.clone(),
    };
    let terse = git_check(&vec![dirty, clean("b")], false);
    assert_eq!(terse.status, HealthStatus::Fail);
    assert_eq!(terse.message, "Found 1 repositories with uncommitted changes");
    assert_eq!(
        terse.details,
        vec![
            "a: 2 dirty file(s) on branch main".to_string(),
            "a: 0 ahead, 4 behind upstream on main".to_string(),
        ]
    );
    let verbose = git_check(&vec![dirty_again, clean("b")], true);
    assert_eq!(verbose.status, HealthStatus::Fail);
    assert_eq!(
        verbose.message,
        "Found 3 repositories with uncommitted changes"
    );
    assert_eq!(
        verbose.details,
        vec![
            "a: 2 dirty file(s) on branch main".to_string(),
            "  - src/lib.rs".to_string(),
            "  - README.md".to_string(),
            "a: 0 ahead, 4 behind upstream on main".to_string(),
        ]
    );
}

#[test]
fn version_check_fails_on_drift_and_mismatch() {
    let files = vec![
        SourceFile {
            path: "/ws/a/Cargo.toml".to_string(),
            content: "[package]\nname = \"embeddenator-a\"\nversion = \"1.0.0\"\n\n[dependencies]\nembeddenator-b = \"0.1.0\"\n".to_string(),
        },
        SourceFile {
            path: "/ws/b/Cargo.toml".to_string(),
            content: "[package]\nname = \"embeddenator-b\"\nversion = \"0.2.0\"\n".to_string(),
        },
    ];
    let versions = VersionManager::new("/ws")
        .check_consistency(&files)
        .unwrap();
    let check = version_check(&versions);
    assert_eq!(check.status, HealthStatus::Fail);
    assert_eq!(
        check.message,
        "Version inconsistencies detected: 2 issue(s), 1 dependency mismatch(es)"
    );
    assert_eq!(
        check.details,
        vec![
            "version drift: 1 package(s) on major version 1: embeddenator-a".to_string(),
            "version drift: 1 package(s) on major version 0: embeddenator-b".to_string(),
            "embeddenator-a depends on embeddenator-b 0.1.0 (expected: 0.2.0)".to_string(),
        ]
    );
    let failed = version_check_failed("disk on fire");
    assert_eq!(failed.status, HealthStatus::Fail);
    assert_eq!(failed.check_type, HealthCheckType::Version);
    assert_eq!(failed.message, "Failed to check versions: disk on fire");
    assert!(failed.details.is_empty());
}

fn finished(package: &str, success: bool, stderr: &str) -> PackageRun {
    PackageRun {
        package: package.to_string(),
        outcome: RunOutcome::Finished {
            success,
            stderr: stderr.to_string(),
        },
    }
}

#[test]
fn tests_check_lists_failure_lines() {
    let runs = vec![
        finished("embeddenator-a", true, "warning: unused\n"),
        finished(
            "embeddenator-b",
            false,
            "running 2 tests\r\n  test x ... FAILED  \nnoise\n\ttest result: FAILED. 1 passed; 1 failed\n",
        ),
        PackageRun {
            package: "embeddenator-c".to_string(),
            outcome: RunOutcome::NotStarted {
                error: "No such file".to_string(),
            },
        },
    ];
    let check = tests_check(&runs);
    assert_eq!(check.check_type, HealthCheckType::Tests);
    assert_eq!(check.status, HealthStatus::Fail);
    assert_eq!(check.message, "Tests: 1 passed, 2 failed out of 3 packages");
    assert_eq!(
        check.details,
        vec![
            "embeddenator-b: tests failed".to_string(),
            "  test x ... FAILED".to_string(),
            "  test result: FAILED. 1 passed; 1 failed".to_string(),
            "embeddenator-c: failed to run tests: No such file".to_string(),
        ]
    );
    let fine = tests_check(&vec![finished("embeddenator-a", true, "")]);
    assert_eq!(fine.status, HealthStatus::Pass);
    assert_eq!(fine.message, "Tests: 1 passed, 0 failed out of 1 packages");
    assert!(fine.details.is_empty());
}

#[test]
fn docs_check_counts_warning_lines() {
    let runs = vec![
        finished("embeddenator-a", true, "warning: ignored when the run succeeds\n"),
        finished(
            "embeddenator-b",
            false,
            "warning: missing documentation for a function\n  --> src/lib.rs\nerror: missing documentation\nwarning: again",
        ),
        finished("embeddenator-c", false, "error: something else\n"),
        PackageRun {
            package: "embeddenator-d".to_string(),
            outcome: RunOutcome::NotStarted {
                error: "spawn failed".to_string(),
            },
        },
    ];
    let check = docs_check(&runs);
    assert_eq!(check.check_type, HealthCheckType::Docs);
    assert_eq!(check.status, HealthStatus::Warn);
    assert_eq!(
        check.message,
        "Documentation: 1 clean, 3 with warnings out of 4 packages"
    );
    assert_eq!(
        check.details,
        vec![
            "embeddenator-b: 3 documentation warning(s)".to_string(),
            "embeddenator-d: failed to check docs: spawn failed".to_string(),
        ]
    );
    let fine = docs_check(&Vec::new());
    assert_eq!(fine.status, HealthStatus::Pass);
    assert_eq!(
        fine.message,
        "Documentation: 0 clean, 0 with warnings out of 0 packages"
    );
}

#[test]
fn specs_check_passes_when_every_package_is_covered() {
    let probes = vec![
        SpecProbe {
            package: "a".to_string(),
            has_specs: true,
            spec_files: 0,
        },
        SpecProbe {
            package: "b".to_string(),
            has_specs: true,
            spec_files: 12,
        },
    ];
    let check = specs_check(&probes, "100.0");
    assert_eq!(check.status, HealthStatus::Pass);
    assert_eq!(
        check.message,
        "Spec coverage: 100.0% (2/2 packages with specs/)"
    );
    assert_eq!(check.details, vec!["b: 12 spec file(s)".to_string()]);
    let none = specs_check(&Vec::new(), "0.0");
    assert_eq!(none.status, HealthStatus::Pass);
    assert_eq!(none.message, "Spec coverage: 0.0% (0/0 packages with specs/)");
}

#[test]
fn output_lines_are_read_as_lines() {
    assert_eq!(read_failure_lines(""), Vec::<String>::new());
    assert_eq!(
        read_failure_lines("FAILED"),
        vec!["  FAILED".to_string()]
    );
    assert_eq!(
        read_failure_lines("a\n\u{a0} FAILED here \u{2003}\r\nb test result: ok\r"),
        vec!["  FAILED here".to_string(), "  b test result: ok".to_string()]
    );
    assert_eq!(count_warning_lines("warning:\nwarning:\n\nx"), 2);
    assert_eq!(count_warning_lines("missing documentation warning:"), 1);
    assert_eq!(count_warning_lines("warning"), 0);
}
