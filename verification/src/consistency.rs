//! The report on whether the versions of a workspace agree: drift between
//! major versions, and dependencies that declare another version than the
//! package they name has.

use crate::cargo::{CargoManifest, Dependency, DependencyView, ManifestView};
use crate::semantic_version::{SemVer, SemVerView};
use crate::text::{decimal, join, joined, str_eq, u64_to_string, usize_to_string, views};
use crate::version::{VersionManager, WorkspaceError};
use crate::workspace::{
    loaded, manifest_views, sorted_by_name, workspace_packages, SourceFile,
};
use vstd::prelude::*;
use vstd::string::*;

verus! {

/// A dependency that declares another version than the package it names
/// has.
#[derive(Debug, Clone, PartialEq, Eq)]
pub struct VersionInconsistency {
    pub package: String,
    pub dependency: String,
    pub expected: SemVer,
    pub found: SemVer,
}

/// What a [`VersionInconsistency`] stands for.
pub struct InconsistencyView {
    pub package: Seq<char>,
    pub dependency: Seq<char>,
    pub expected: SemVerView,
    pub found: SemVerView,
}

impl View for VersionInconsistency {
    type V = InconsistencyView;

    open spec fn view(&self) -> InconsistencyView {
        InconsistencyView {
            package: self.package@,
            dependency: self.dependency@,
            expected: self.expected@,
            found: self.found@,
        }
    }
}

/// The outcome of a consistency check.
#[derive(Debug, Clone, PartialEq, Eq)]
pub struct VersionReport {
    pub total_packages: usize,
    pub drift_detected: bool,
    pub issues: Vec<String>,
    pub inconsistencies: Vec<VersionInconsistency>,
}

/// What a [`VersionReport`] stands for.
pub struct VersionReportView {
    pub total_packages: nat,
    pub drift_detected: bool,
    pub issues: Seq<Seq<char>>,
    pub inconsistencies: Seq<InconsistencyView>,
}

/// The views of a sequence of inconsistencies.
pub open spec fn inconsistency_views(found: Seq<VersionInconsistency>) -> Seq<InconsistencyView> {
    found.map_values(|x: VersionInconsistency| x@)
}

impl View for VersionReport {
    type V = VersionReportView;

    open spec fn view(&self) -> VersionReportView {
        VersionReportView {
            total_packages: self.total_packages as nat,
            drift_detected: self.drift_detected,
            issues: views(self.issues@),
            inconsistencies: inconsistency_views(self.inconsistencies@),
        }
    }
}

/// A package as the drift check counts it: its name and its major version.
pub struct Standing {
    pub name: String,
    pub major: u64,
}

/// The views of a sequence of standings.
pub open spec fn standing_views(standings: Seq<Standing>) -> Seq<(Seq<char>, nat)> {
    standings.map_values(|s: Standing| (s.name@, s.major as nat))
}

/// Whether a package from index `from` on is called `name`.
pub open spec fn named_later(packages: Seq<ManifestView>, from: int, name: Seq<char>) -> bool {
    exists|j: int| from <= j < packages.len() && (#[trigger] packages[j]).package_name == name
}

/// The current version of the package called `name`: that of the last
/// package of this name.
pub open spec fn current_version(packages: Seq<ManifestView>, name: Seq<char>) -> Option<
    SemVerView,
>
    decreases packages.len(),
{
    if packages.len() == 0 {
        None
    } else if packages.last().package_name == name {
        Some(packages.last().version)
    } else {
        current_version(packages.drop_last(), name)
    }
}

/// The standings of the first `n` packages. Where several packages share a
/// name, only the last of them counts.
pub open spec fn standings_of(packages: Seq<ManifestView>, n: nat) -> Seq<(Seq<char>, nat)>
    decreases n,
{
    if n == 0 || n > packages.len() {
        Seq::empty()
    } else {
        let front = standings_of(packages, (n - 1) as nat);
        if named_later(packages, n as int, packages[n - 1].package_name) {
            front
        } else {
            front.push((packages[n - 1].package_name, packages[n - 1].version.major))
        }
    }
}

/// The major versions that occur, each once, in the order in which they
/// first occur.
pub open spec fn majors_of(standings: Seq<(Seq<char>, nat)>) -> Seq<nat>
    decreases standings.len(),
{
    if standings.len() == 0 {
        Seq::empty()
    } else {
        let front = majors_of(standings.drop_last());
        if front.contains(standings.last().1) {
            front
        } else {
            front.push(standings.last().1)
        }
    }
}

/// The names of the packages on major version `major`, in order.
pub open spec fn names_on_major(standings: Seq<(Seq<char>, nat)>, major: nat) -> Seq<Seq<char>>
    decreases standings.len(),
{
    if standings.len() == 0 {
        Seq::empty()
    } else if standings.last().1 == major {
        names_on_major(standings.drop_last(), major).push(standings.last().0)
    } else {
        names_on_major(standings.drop_last(), major)
    }
}

/// The issue line for one major version: how many packages are on it, and
/// which.
pub open spec fn drift_line(major: nat, names: Seq<Seq<char>>) -> Seq<char> {
    "version drift: "@ + decimal(names.len()) + " package(s) on major version "@ + decimal(major)
        + ": "@ + joined(names, ", "@)
}

/// The issue lines of the first `n` major versions.
pub open spec fn drift_lines(standings: Seq<(Seq<char>, nat)>, majors: Seq<nat>, n: nat) -> Seq<
    Seq<char>,
>
    decreases n,
{
    if n == 0 || n > majors.len() {
        Seq::empty()
    } else {
        drift_lines(standings, majors, (n - 1) as nat).push(
            drift_line(majors[n - 1], names_on_major(standings, majors[n - 1])),
        )
    }
}

/// The issues of a workspace with these standings: none where all packages
/// are on one major version, one line per major version otherwise.
pub open spec fn drift_issues(standings: Seq<(Seq<char>, nat)>) -> Seq<Seq<char>> {
    let majors = majors_of(standings);
    if majors.len() > 1 {
        drift_lines(standings, majors, majors.len())
    } else {
        Seq::empty()
    }
}

/// The inconsistency of one dependency of the package called `package`: a
/// dependency without a local path that declares a version, names one of
/// the packages, and declares another version than that package has.
pub open spec fn inconsistency_of(
    packages: Seq<ManifestView>,
    package: Seq<char>,
    dep: DependencyView,
) -> Option<InconsistencyView> {
    if !dep.has_path {
        match (dep.version, current_version(packages, dep.name)) {
            (Some(found), Some(expected)) => if found != expected {
                Some(InconsistencyView { package, dependency: dep.name, expected, found })
            } else {
                None
            },
            _ => None,
        }
    } else {
        None
    }
}

/// The inconsistencies among `deps`, dependencies of the package called
/// `package`, in order.
pub open spec fn inconsistencies_among(
    packages: Seq<ManifestView>,
    package: Seq<char>,
    deps: Seq<DependencyView>,
) -> Seq<InconsistencyView>
    decreases deps.len(),
{
    if deps.len() == 0 {
        Seq::empty()
    } else {
        let front = inconsistencies_among(packages, package, deps.drop_last());
        match inconsistency_of(packages, package, deps.last()) {
            Some(found) => front.push(found),
            None => front,
        }
    }
}

/// The inconsistencies of the first `n` packages, in order.
pub open spec fn inconsistencies_of(packages: Seq<ManifestView>, n: nat) -> Seq<InconsistencyView>
    decreases n,
{
    if n == 0 || n > packages.len() {
        Seq::empty()
    } else {
        inconsistencies_of(packages, (n - 1) as nat) + inconsistencies_among(
            packages,
            packages[n - 1].package_name,
            packages[n - 1].dependencies,
        )
    }
}

/// The report on `packages`.
pub open spec fn consistency_report(packages: Seq<ManifestView>) -> VersionReportView {
    let standings = standings_of(packages, packages.len());
    VersionReportView {
        total_packages: packages.len(),
        drift_detected: majors_of(standings).len() > 1,
        issues: drift_issues(standings),
        inconsistencies: inconsistencies_of(packages, packages.len()),
    }
}

/// Whether a package from index `from` on is called `name`.
fn is_named_later(packages: &Vec<CargoManifest>, from: usize, name: &str) -> (r: bool)
    requires
        from <= packages.len(),
    ensures
        r == named_later(manifest_views(packages@), from as int, name@),
{
    let ghost all = manifest_views(packages@);
    let mut j: usize = from;
    while j < packages.len()
        invariant
            from <= j <= packages.len(),
            all == manifest_views(packages@),
            forall|k: int| from <= k < j ==> (#[trigger] all[k]).package_name != name@,
        decreases packages.len() - j,
    {
        if str_eq(packages[j].package_name.as_str(), name) {
            assert(all[j as int].package_name == name@);
            return true;
        }
        j += 1;
    }
    false
}

/// The standings of the packages.
fn standings(packages: &Vec<CargoManifest>) -> (r: Vec<Standing>)
    ensures
        standing_views(r@) == standings_of(manifest_views(packages@), packages@.len()),
{
    let ghost all = manifest_views(packages@);
    let mut out: Vec<Standing> = Vec::new();
    let mut i: usize = 0;
    assert(standing_views(out@) == Seq::<(Seq<char>, nat)>::empty());
    while i < packages.len()
        invariant
            i <= packages.len(),
            all == manifest_views(packages@),
            standing_views(out@) == standings_of(all, i as nat),
        decreases packages.len() - i,
    {
        assert(all[i as int] == packages@[i as int]@);
        if !is_named_later(packages, i + 1, packages[i].package_name.as_str()) {
            let ghost previous = out@;
            let standing = Standing {
                name: packages[i].package_name.clone(),
                major: packages[i].version.major,
            };
            out.push(standing);
            assert(standing_views(out@) == standing_views(previous).push(
                (standing.name@, standing.major as nat),
            ));
        }
        i += 1;
    }
    out
}

/// Whether `major` is among `majors`.
fn has_major(majors: &Vec<u64>, major: u64) -> (r: bool)
    ensures
        r == majors@.contains(major),
{
    let mut i: usize = 0;
    while i < majors.len()
        invariant
            i <= majors.len(),
            forall|k: int| 0 <= k < i ==> majors@[k] != major,
        decreases majors.len() - i,
    {
        if majors[i] == major {
            return true;
        }
        i += 1;
    }
    false
}

/// The numbers of `majors`, as natural numbers.
pub open spec fn as_nats(majors: Seq<u64>) -> Seq<nat> {
    majors.map_values(|m: u64| m as nat)
}

/// The major versions that occur, in the order in which they first occur.
fn distinct_majors(standings: &Vec<Standing>) -> (r: Vec<u64>)
    ensures
        as_nats(r@) == majors_of(standing_views(standings@)),
{
    let ghost all = standing_views(standings@);
    let mut out: Vec<u64> = Vec::new();
    let mut i: usize = 0;
    assert(all.take(0) == Seq::<(Seq<char>, nat)>::empty());
    assert(as_nats(out@) == Seq::<nat>::empty());
    while i < standings.len()
        invariant
            i <= standings.len(),
            all == standing_views(standings@),
            as_nats(out@) == majors_of(all.take(i as int)),
        decreases standings.len() - i,
    {
        let major = standings[i].major;
        proof {
            assert(all.take(i + 1).drop_last() == all.take(i as int));
            assert(all.take(i + 1).last() == (standings@[i as int].name@, major as nat));
            if out@.contains(major) {
                let k = choose|k: int| 0 <= k < out@.len() && out@[k] == major;
                assert(as_nats(out@)[k] == major as nat);
            }
            if as_nats(out@).contains(major as nat) {
                let k = choose|k: int|
                    0 <= k < as_nats(out@).len() && as_nats(out@)[k] == major as nat;
                assert(out@[k] == major);
            }
        }
        if !has_major(&out, major) {
            let ghost previous = out@;
            out.push(major);
            assert(as_nats(out@) == as_nats(previous).push(major as nat));
        }
        i += 1;
    }
    assert(all.take(standings.len() as int) == all);
    out
}

/// The names of the packages on major version `major`.
fn names_on(standings: &Vec<Standing>, major: u64) -> (r: Vec<String>)
    ensures
        views(r@) == names_on_major(standing_views(standings@), major as nat),
{
    let ghost all = standing_views(standings@);
    let mut out: Vec<String> = Vec::new();
    let mut i: usize = 0;
    assert(all.take(0) == Seq::<(Seq<char>, nat)>::empty());
    assert(views(out@) == Seq::<Seq<char>>::empty());
    while i < standings.len()
        invariant
            i <= standings.len(),
            all == standing_views(standings@),
            views(out@) == names_on_major(all.take(i as int), major as nat),
        decreases standings.len() - i,
    {
        proof {
            assert(all.take(i + 1).drop_last() == all.take(i as int));
            assert(all.take(i + 1).last() == (
                standings@[i as int].name@,
                standings@[i as int].major as nat,
            ));
        }
        if standings[i].major == major {
            let ghost previous = out@;
            let name = standings[i].name.clone();
            out.push(name);
            assert(views(out@) == views(previous).push(name@));
        }
        i += 1;
    }
    assert(all.take(standings.len() as int) == all);
    out
}

/// The issue line for one major version.
fn write_drift_line(major: u64, names: &Vec<String>) -> (r: String)
    ensures
        r@ == drift_line(major as nat, views(names@)),
{
    let mut line = String::from_str("version drift: ");
    line.append(usize_to_string(names.len()).as_str());
    line.append(" package(s) on major version ");
    line.append(u64_to_string(major).as_str());
    line.append(": ");
    line.append(join(names, ", ").as_str());
    assert(views(names@).len() == names@.len());
    line
}

/// The issues of a workspace with these standings.
fn write_drift_issues(standings: &Vec<Standing>, majors: &Vec<u64>) -> (r: Vec<String>)
    requires
        as_nats(majors@) == majors_of(standing_views(standings@)),
    ensures
        views(r@) == drift_issues(standing_views(standings@)),
{
    let mut out: Vec<String> = Vec::new();
    assert(views(out@) == Seq::<Seq<char>>::empty());
    assert(as_nats(majors@).len() == majors@.len());
    if majors.len() <= 1 {
        return out;
    }
    let ghost all = standing_views(standings@);
    let mut i: usize = 0;
    while i < majors.len()
        invariant
            i <= majors.len(),
            all == standing_views(standings@),
            as_nats(majors@) == majors_of(all),
            as_nats(majors@).len() == majors@.len(),
            views(out@) == drift_lines(all, as_nats(majors@), i as nat),
        decreases majors.len() - i,
    {
        let names = names_on(standings, majors[i]);
        let line = write_drift_line(majors[i], &names);
        let ghost previous = out@;
        out.push(line);
        proof {
            assert(as_nats(majors@)[i as int] == majors@[i as int] as nat);
            assert(views(out@) == views(previous).push(line@));
        }
        i += 1;
    }
    out
}

/// The current version of the package called `name`.
fn find_current_version<'a>(packages: &'a Vec<CargoManifest>, name: &str) -> (r: Option<
    &'a SemVer,
>)
    ensures
        match r {
            Some(version) => current_version(manifest_views(packages@), name@) == Some(version@),
            None => current_version(manifest_views(packages@), name@) is None,
        },
{
    let ghost all = manifest_views(packages@);
    let mut i: usize = packages.len();
    assert(all.take(packages.len() as int) == all);
    while i > 0
        invariant
            i <= packages.len(),
            all == manifest_views(packages@),
            current_version(all, name@) == current_version(all.take(i as int), name@),
        decreases i,
    {
        proof {
            assert(all.take(i as int).drop_last() == all.take(i - 1));
            assert(all.take(i as int).last() == packages@[i - 1]@);
        }
        if str_eq(packages[i - 1].package_name.as_str(), name) {
            return Some(&packages[i - 1].version);
        }
        i -= 1;
    }
    None
}

/// The inconsistency of one dependency of the package called `package`.
fn check_dependency(packages: &Vec<CargoManifest>, package: &str, dep: &Dependency) -> (r: Option<
    VersionInconsistency,
>)
    ensures
        match r {
            Some(found) => inconsistency_of(manifest_views(packages@), package@, dep@) == Some(
                found@,
            ),
            None => inconsistency_of(manifest_views(packages@), package@, dep@) is None,
        },
{
    if dep.has_path {
        return None;
    }
    match &dep.version {
        Some(found) => match find_current_version(packages, dep.name.as_str()) {
            Some(expected) => {
                if found.equals(expected) {
                    None
                } else {
                    Some(
                        VersionInconsistency {
                            package: String::from_str(package),
                            dependency: dep.name.clone(),
                            expected: expected.duplicate(),
                            found: found.duplicate(),
                        },
                    )
                }
            },
            None => None,
        },
        None => None,
    }
}

/// The inconsistencies of one package, appended to `out`.
fn check_dependencies(
    packages: &Vec<CargoManifest>,
    m: &CargoManifest,
    out: &mut Vec<VersionInconsistency>,
)
    ensures
        inconsistency_views(final(out)@) == inconsistency_views(old(out)@) + inconsistencies_among(
            manifest_views(packages@),
            m@.package_name,
            m@.dependencies,
        ),
{
    let ghost all = manifest_views(packages@);
    let ghost deps = m@.dependencies;
    let ghost before = inconsistency_views(out@);
    let mut i: usize = 0;
    assert(deps.take(0) == Seq::<DependencyView>::empty());
    assert(before + Seq::<InconsistencyView>::empty() == before);
    while i < m.dependencies.len()
        invariant
            i <= m.dependencies.len(),
            all == manifest_views(packages@),
            deps == m@.dependencies,
            inconsistency_views(out@) == before + inconsistencies_among(
                all,
                m@.package_name,
                deps.take(i as int),
            ),
        decreases m.dependencies.len() - i,
    {
        proof {
            assert(deps.take(i + 1).drop_last() == deps.take(i as int));
            assert(deps.take(i + 1).last() == m.dependencies@[i as int]@);
        }
        match check_dependency(packages, m.package_name.as_str(), &m.dependencies[i]) {
            Some(found) => {
                let ghost previous = out@;
                out.push(found);
                proof {
                    assert(inconsistency_views(out@) == inconsistency_views(previous).push(found@));
                    let front = inconsistencies_among(all, m@.package_name, deps.take(i as int));
                    assert((before + front).push(found@) == before + front.push(found@));
                }
            },
            None => {},
        }
        i += 1;
    }
    assert(deps.take(m.dependencies.len() as int) == deps);
}

impl VersionReport {
    /// Whether the check found drift or an inconsistent dependency.
    pub fn has_issues(&self) -> (r: bool)
        ensures
            r == (self@.drift_detected || self@.inconsistencies.len() > 0),
    {
        self.drift_detected || self.inconsistencies.len() > 0
    }
}

impl Default for VersionReport {
    /// The report on no package at all.
    fn default() -> (r: VersionReport)
        ensures
            r@ == (VersionReportView {
                total_packages: 0,
                drift_detected: false,
                issues: Seq::empty(),
                inconsistencies: Seq::empty(),
            }),
    {
        let r = VersionReport {
            total_packages: 0,
            drift_detected: false,
            issues: Vec::new(),
            inconsistencies: Vec::new(),
        };
        assert(r@.issues =~= Seq::<Seq<char>>::empty());
        assert(r@.inconsistencies =~= Seq::<InconsistencyView>::empty());
        r
    }
}

/// Checks `packages` for version drift and for dependencies that declare
/// another version than the package they name has.
///
/// Drift is flagged where the packages are on more than one major version,
/// with one issue line per major version. Every inconsistent dependency is
/// listed, in the order of the packages and of their dependencies.
pub fn check_packages(packages: &Vec<CargoManifest>) -> (r: VersionReport)
    ensures
        r@ == consistency_report(manifest_views(packages@)),
{
    let ghost all = manifest_views(packages@);
    let standings = standings(packages);
    let majors = distinct_majors(&standings);
    let issues = write_drift_issues(&standings, &majors);
    let mut inconsistencies: Vec<VersionInconsistency> = Vec::new();
    let mut i: usize = 0;
    assert(inconsistency_views(inconsistencies@) == Seq::<InconsistencyView>::empty());
    while i < packages.len()
        invariant
            i <= packages.len(),
            all == manifest_views(packages@),
            inconsistency_views(inconsistencies@) == inconsistencies_of(all, i as nat),
        decreases packages.len() - i,
    {
        assert(all[i as int] == packages@[i as int]@);
        check_dependencies(packages, &packages[i], &mut inconsistencies);
        i += 1;
    }
    assert(as_nats(majors@).len() == majors@.len());
    VersionReport {
        total_packages: packages.len(),
        drift_detected: majors.len() > 1,
        issues,
        inconsistencies,
    }
}

/// What checking a workspace with these packages gives: the report on
/// them, or an error where there is no package to check.
pub open spec fn consistency_outcome(packages: Seq<ManifestView>) -> Result<
    VersionReportView,
    WorkspaceError,
> {
    if packages.len() == 0 {
        Err(WorkspaceError::NoPackagesFound)
    } else {
        Ok(consistency_report(packages))
    }
}

impl VersionManager {
    /// Checks the packages of the workspace found among `files`.
    ///
    /// A workspace without packages is an error. Otherwise the report counts
    /// the packages, flags drift between major versions, and lists every
    /// dependency that declares another version than the package it names
    /// has.
    pub fn check_consistency(&self, files: &Vec<SourceFile>) -> (r: Result<
        VersionReport,
        WorkspaceError,
    >)
        ensures
            match r {
                Ok(report) => consistency_outcome(
                    sorted_by_name(workspace_packages(loaded(files@))),
                ) == Ok::<VersionReportView, WorkspaceError>(report@),
                Err(e) => consistency_outcome(
                    sorted_by_name(workspace_packages(loaded(files@))),
                ) == Err::<VersionReportView, WorkspaceError>(e),
            },
    {
        let packages = self.scanner.find_embeddenator_packages(files);
        if packages.len() == 0 {
            return Err(WorkspaceError::NoPackagesFound);
        }
        Ok(check_packages(&packages))
    }
}

} // verus!
