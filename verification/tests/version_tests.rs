use embeddenator_workspace::semantic_version::{calculate_new_version, increment_prerelease};
use embeddenator_workspace::{BumpType, SemVer, VersionError, VersionManager};

#[test]
fn test_bump_major() {
    let manager = VersionManager::new(".");
    let current = SemVer::parse("0.20.0-alpha.1").unwrap();
    let new = manager
        .calculate_new_version(&current, BumpType::Major)
        .unwrap();
    assert_eq!(new.to_string(), "1.0.0");
}

#[test]
fn test_bump_minor() {
    let manager = VersionManager::new(".");
    let current = SemVer::parse("0.20.0-alpha.1").unwrap();
    let new = manager
        .calculate_new_version(&current, BumpType::Minor)
        .unwrap();
    assert_eq!(new.to_string(), "0.21.0");
}

#[test]
fn test_bump_patch() {
    let manager = VersionManager::new(".");
    let current = SemVer::parse("0.20.0-alpha.1").unwrap();
    let new = manager
        .calculate_new_version(&current, BumpType::Patch)
        .unwrap();
    assert_eq!(new.to_string(), "0.20.1");
}

#[test]
fn test_bump_prerelease_initial() {
    let manager = VersionManager::new(".");
    let current = SemVer::parse("0.20.0").unwrap();
    let new = manager
        .calculate_new_version(&current, BumpType::Prerelease)
        .unwrap();
    assert_eq!(new.to_string(), "0.20.0-alpha.1");
}

#[test]
fn test_bump_prerelease_increment() {
    let manager = VersionManager::new(".");
    let current = SemVer::parse("0.20.0-alpha.1").unwrap();
    let new = manager
        .calculate_new_version(&current, BumpType::Prerelease)
        .unwrap();
    assert_eq!(new.to_string(), "0.20.0-alpha.2");
}

#[test]
fn test_bump_prerelease_beta() {
    let manager = VersionManager::new(".");
    let current = SemVer::parse("0.20.0-beta.3").unwrap();
    let new = manager
        .calculate_new_version(&current, BumpType::Prerelease)
        .unwrap();
    assert_eq!(new.to_string(), "0.20.0-beta.4");
}

#[test]
fn parse_reads_every_part() {
    let v = SemVer::parse("1.2.3-rc.1+build.5").unwrap();
    assert_eq!(v.major, 1);
    assert_eq!(v.minor, 2);
    assert_eq!(v.patch, 3);
    assert_eq!(v.pre, "rc.1");
    assert_eq!(v.build, "build.5");
    assert_eq!(v.to_string(), "1.2.3-rc.1+build.5");
}

#[test]
fn parse_rejects_what_is_no_version() {
    assert_eq!(SemVer::parse("1.0"), Err(VersionError::Malformed));
    assert_eq!(SemVer::parse("1.0.01"), Err(VersionError::Malformed));
    assert_eq!(SemVer::parse(""), Err(VersionError::Malformed));
    assert_eq!(SemVer::parse("1.0.0-"), Err(VersionError::Malformed));
}

#[test]
fn to_string_writes_large_numbers() {
    let v = SemVer::new(18446744073709551615, 10, 0);
    assert_eq!(v.to_string(), "18446744073709551615.10.0");
}

#[test]
fn release_bumps_zero_lower_numbers_and_drop_the_label() {
    let current = SemVer::parse("3.7.9-beta.2").unwrap();
    assert_eq!(
        calculate_new_version(&current, BumpType::Major).unwrap(),
        SemVer::new(4, 0, 0)
    );
    assert_eq!(
        calculate_new_version(&current, BumpType::Minor).unwrap(),
        SemVer::new(3, 8, 0)
    );
    assert_eq!(
        calculate_new_version(&current, BumpType::Patch).unwrap(),
        SemVer::new(3, 7, 10)
    );
}

#[test]
fn bump_keeps_build_metadata() {
    let current = SemVer::parse("1.2.3+linux").unwrap();
    let next = calculate_new_version(&current, BumpType::Minor).unwrap();
    assert_eq!(next.to_string(), "1.3.0+linux");
}

#[test]
fn bump_at_the_largest_number_overflows() {
    let top = SemVer::new(u64::MAX, u64::MAX, u64::MAX);
    assert_eq!(
        calculate_new_version(&top, BumpType::Major),
        Err(VersionError::Overflow)
    );
    assert_eq!(
        calculate_new_version(&top, BumpType::Minor),
        Err(VersionError::Overflow)
    );
    assert_eq!(
        calculate_new_version(&top, BumpType::Patch),
        Err(VersionError::Overflow)
    );
    let pre = SemVer::parse("1.0.0-alpha.18446744073709551615").unwrap();
    assert_eq!(
        calculate_new_version(&pre, BumpType::Prerelease),
        Err(VersionError::Overflow)
    );
}

#[test]
fn prerelease_label_without_a_number_gets_one() {
    assert_eq!(increment_prerelease("rc"), Some("rc.1".to_string()));
    assert_eq!(increment_prerelease("rc.x"), Some("rc.x.1".to_string()));
    assert_eq!(increment_prerelease(""), Some("alpha.1".to_string()));
    assert_eq!(increment_prerelease("alpha.9"), Some("alpha.10".to_string()));
    assert_eq!(increment_prerelease("a.b.41"), Some("a.b.42".to_string()));
    assert_eq!(
        increment_prerelease("alpha.99999999999999999999"),
        Some("alpha.99999999999999999999.1".to_string())
    );
}

#[test]
fn prerelease_bump_rejects_a_label_that_semver_rejects() {
    let odd = SemVer {
        major: 1,
        minor: 0,
        patch: 0,
        pre: "not valid".to_string(),
        build: String::new(),
    };
    assert_eq!(
        calculate_new_version(&odd, BumpType::Prerelease),
        Err(VersionError::InvalidPrerelease)
    );
    let empty_part = SemVer {
        major: 1,
        minor: 0,
        patch: 0,
        pre: "alpha.".to_string(),
        build: String::new(),
    };
    assert_eq!(
        calculate_new_version(&empty_part, BumpType::Prerelease),
        Err(VersionError::InvalidPrerelease)
    );
}

#[test]
fn equals_compares_every_part() {
    let a = SemVer::parse("1.2.3-alpha.1+x").unwrap();
    let b = SemVer::parse("1.2.3-alpha.1+x").unwrap();
    let c = SemVer::parse("1.2.3-alpha.1+y").unwrap();
    assert!(a.equals(&b));
    assert!(!a.equals(&c));
    assert!(a.duplicate().equals(&a));
}
