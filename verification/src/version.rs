//! Version bumps across the packages of a workspace, and the report on
//! whether their versions agree.

use crate::cargo::{
    consistent, with_dependency, with_package_version, CargoManifest, DependencyView,
    ManifestView,
};
use crate::propagation::{all_read_back, lemma_applied_consistent};
use crate::document::rendered;
use crate::semantic_version::{
    bump_outcome, calculate_new_version, version_error_text, version_text, BumpType, SemVer,
    SemVerView, VersionError,
};
use crate::text::str_eq;
use crate::workspace::{
    all_consistent, loaded, manifest_views, sorted_by_name, workspace_packages, SourceFile,
    WorkspaceScanner,
};
use vstd::prelude::*;
use vstd::string::*;

verus! {

/// One computed bump: which package, where its manifest lies, and the
/// version before and after.
#[derive(Debug, Clone, PartialEq, Eq)]
pub struct VersionChange {
    pub package: String,
    pub path: String,
    pub old_version: SemVer,
    pub new_version: SemVer,
}

/// What a [`VersionChange`] stands for.
pub struct VersionChangeView {
    pub package: Seq<char>,
    pub path: Seq<char>,
    pub old_version: SemVerView,
    pub new_version: SemVerView,
}

impl View for VersionChange {
    type V = VersionChangeView;

    open spec fn view(&self) -> VersionChangeView {
        VersionChangeView {
            package: self.package@,
            path: self.path@,
            old_version: self.old_version@,
            new_version: self.new_version@,
        }
    }
}

/// Why an operation on the whole workspace failed.
#[derive(Debug, Clone, Copy, PartialEq, Eq, Structural)]
pub enum WorkspaceError {
    /// The workspace holds no package to work on.
    NoPackagesFound,
    /// A package has no next version.
    Version(VersionError),
}

/// What the error says.
pub open spec fn workspace_error_text(e: WorkspaceError) -> Seq<char> {
    match e {
        WorkspaceError::NoPackagesFound => "No embeddenator packages found in workspace"@,
        WorkspaceError::Version(inner) => version_error_text(inner),
    }
}

impl WorkspaceError {
    /// What the error says.
    pub fn message(&self) -> (r: String)
        ensures
            r@ == workspace_error_text(*self),
    {
        match self {
            WorkspaceError::NoPackagesFound => String::from_str(
                "No embeddenator packages found in workspace",
            ),
            WorkspaceError::Version(inner) => inner.message(),
        }
    }
}

/// What a bump returns: the changes, the packages as they stand after it,
/// and the files to write.
#[derive(Debug)]
pub struct BumpOutcome {
    pub changes: Vec<VersionChange>,
    pub packages: Vec<CargoManifest>,
    pub writes: Vec<SourceFile>,
}

/// Bumps and checks the versions of a workspace.
#[derive(Debug)]
pub struct VersionManager {
    pub scanner: WorkspaceScanner,
}

/// The views of a sequence of changes.
pub open spec fn change_views(changes: Seq<VersionChange>) -> Seq<VersionChangeView> {
    changes.map_values(|c: VersionChange| c@)
}

/// The change that a bump of kind `bump` makes to the package `m`.
pub open spec fn change_of(m: ManifestView, bump: BumpType) -> Result<
    VersionChangeView,
    VersionError,
> {
    match bump_outcome(m.version, bump) {
        Ok(next) => Ok(
            VersionChangeView {
                package: m.package_name,
                path: m.path,
                old_version: m.version,
                new_version: next,
            },
        ),
        Err(e) => Err(e),
    }
}

/// One change per package, in the order of the packages, or the error of
/// the first package that has no next version.
pub open spec fn planned_changes(packages: Seq<ManifestView>, bump: BumpType) -> Result<
    Seq<VersionChangeView>,
    VersionError,
>
    decreases packages.len(),
{
    if packages.len() == 0 {
        Ok(Seq::empty())
    } else {
        match planned_changes(packages.drop_last(), bump) {
            Err(e) => Err(e),
            Ok(changes) => match change_of(packages.last(), bump) {
                Ok(change) => Ok(changes.push(change)),
                Err(e) => Err(e),
            },
        }
    }
}

/// What a bump reports: no packages, the first package without a next
/// version, or the planned changes.
pub open spec fn bump_report(packages: Seq<ManifestView>, bump: BumpType) -> Result<
    Seq<VersionChangeView>,
    WorkspaceError,
> {
    if packages.len() == 0 {
        Err(WorkspaceError::NoPackagesFound)
    } else {
        match planned_changes(packages, bump) {
            Ok(changes) => Ok(changes),
            Err(e) => Err(WorkspaceError::Version(e)),
        }
    }
}

/// The new version of the package called `name`: that of the last change
/// for a package of this name.
pub open spec fn new_version_of(changes: Seq<VersionChangeView>, name: Seq<char>) -> Option<
    SemVerView,
>
    decreases changes.len(),
{
    if changes.len() == 0 {
        None
    } else if changes.last().package == name {
        Some(changes.last().new_version)
    } else {
        new_version_of(changes.drop_last(), name)
    }
}

/// The package with the new version of its change, in the field and in the
/// document.
pub open spec fn with_new_version(m: ManifestView, change: VersionChangeView) -> ManifestView {
    ManifestView {
        version: change.new_version,
        entries: with_package_version(m.entries, version_text(change.new_version)),
        ..m
    }
}

/// The manifest after each dependency in `deps` that names a bumped package
/// was given that package's new version, one dependency after the other.
pub open spec fn propagated(
    m: ManifestView,
    deps: Seq<DependencyView>,
    changes: Seq<VersionChangeView>,
) -> ManifestView
    decreases deps.len(),
{
    if deps.len() == 0 {
        m
    } else {
        let before = propagated(m, deps.drop_last(), changes);
        match new_version_of(changes, deps.last().name) {
            Some(version) => with_dependency(before, deps.last().name, version),
            None => before,
        }
    }
}

/// The manifest after the new versions were propagated into its
/// dependencies: every dependency that names a bumped package takes that
/// package's new version.
pub open spec fn with_propagation(m: ManifestView, changes: Seq<VersionChangeView>) -> ManifestView {
    propagated(m, m.dependencies, changes)
}

/// The packages after the changes were applied: each carries its new
/// version, and each dependency on a bumped package carries that package's
/// new version.
pub open spec fn applied(packages: Seq<ManifestView>, changes: Seq<VersionChangeView>) -> Seq<
    ManifestView,
> {
    Seq::new(
        packages.len(),
        |i: int| with_propagation(with_new_version(packages[i], changes[i]), changes),
    )
}

/// The change for one package.
pub fn plan_change(m: &CargoManifest, bump: BumpType) -> (r: Result<VersionChange, VersionError>)
    ensures
        match r {
            Ok(change) => change_of(m@, bump) == Ok::<VersionChangeView, VersionError>(change@),
            Err(e) => change_of(m@, bump) == Err::<VersionChangeView, VersionError>(e),
        },
{
    match calculate_new_version(&m.version, bump) {
        Ok(next) => Ok(
            VersionChange {
                package: m.package_name.clone(),
                path: m.path.clone(),
                old_version: m.version.duplicate(),
                new_version: next,
            },
        ),
        Err(e) => Err(e),
    }
}

/// The changes that a bump of kind `bump` makes to `packages`. Nothing is
/// modified.
pub fn plan_changes(packages: &Vec<CargoManifest>, bump: BumpType) -> (r: Result<
    Vec<VersionChange>,
    VersionError,
>)
    ensures
        match r {
            Ok(changes) => planned_changes(manifest_views(packages@), bump) == Ok::<
                Seq<VersionChangeView>,
                VersionError,
            >(change_views(changes@)),
            Err(e) => planned_changes(manifest_views(packages@), bump) == Err::<
                Seq<VersionChangeView>,
                VersionError,
            >(e),
        },
{
    let mut changes: Vec<VersionChange> = Vec::new();
    let ghost all = manifest_views(packages@);
    let mut i: usize = 0;
    assert(all.take(0) == Seq::<ManifestView>::empty());
    assert(change_views(changes@) == Seq::<VersionChangeView>::empty());
    while i < packages.len()
        invariant
            i <= packages.len(),
            all == manifest_views(packages@),
            planned_changes(all.take(i as int), bump) == Ok::<Seq<VersionChangeView>, VersionError>(
                change_views(changes@),
            ),
        decreases packages.len() - i,
    {
        proof {
            assert(all.take(i + 1).drop_last() == all.take(i as int));
            assert(all.take(i + 1).last() == packages@[i as int]@);
        }
        match plan_change(&packages[i], bump) {
            Ok(change) => {
                let ghost previous = changes@;
                changes.push(change);
                assert(change_views(changes@) == change_views(previous).push(change@));
            },
            Err(e) => {
                proof {
                    lemma_planned_error_stays(all, i as int + 1, bump);
                    assert(all.take(all.len() as int) == all);
                }
                return Err(e);
            },
        }
        i += 1;
    }
    assert(all.take(packages.len() as int) == all);
    Ok(changes)
}

/// An error among the first packages is the error of the whole plan.
pub proof fn lemma_planned_error_stays(packages: Seq<ManifestView>, upto: int, bump: BumpType)
    requires
        0 <= upto <= packages.len(),
        planned_changes(packages.take(upto), bump) is Err,
    ensures
        planned_changes(packages.take(packages.len() as int), bump) == planned_changes(
            packages.take(upto),
            bump,
        ),
    decreases packages.len() - upto,
{
    if upto < packages.len() {
        assert(packages.take(upto + 1).drop_last() == packages.take(upto));
        lemma_planned_error_stays(packages, upto + 1, bump);
    }
}

/// The plan has one change per package, each for its package.
pub proof fn lemma_planned_changes_match(packages: Seq<ManifestView>, bump: BumpType)
    requires
        planned_changes(packages, bump) is Ok,
    ensures
        planned_changes(packages, bump)->Ok_0.len() == packages.len(),
        forall|i: int|
            0 <= i < packages.len() ==> change_of(#[trigger] packages[i], bump) == Ok::<
                VersionChangeView,
                VersionError,
            >(planned_changes(packages, bump)->Ok_0[i]),
    decreases packages.len(),
{
    if packages.len() > 0 {
        let front = packages.drop_last();
        lemma_planned_changes_match(front, bump);
        let changes = planned_changes(packages, bump)->Ok_0;
        assert forall|i: int| 0 <= i < packages.len() implies change_of(
            #[trigger] packages[i],
            bump,
        ) == Ok::<VersionChangeView, VersionError>(changes[i]) by {
            if i < front.len() {
                assert(front[i] == packages[i]);
            }
        }
    }
}

/// The new version of the package called `name`, where `changes` bump one.
pub fn find_new_version<'a>(changes: &'a Vec<VersionChange>, name: &str) -> (r: Option<&'a SemVer>)
    ensures
        match r {
            Some(version) => new_version_of(change_views(changes@), name@) == Some(version@),
            None => new_version_of(change_views(changes@), name@) is None,
        },
{
    let ghost all = change_views(changes@);
    let mut i: usize = changes.len();
    assert(all.take(changes.len() as int) == all);
    while i > 0
        invariant
            i <= changes.len(),
            all == change_views(changes@),
            new_version_of(all, name@) == new_version_of(all.take(i as int), name@),
        decreases i,
    {
        proof {
            assert(all.take(i as int).drop_last() == all.take(i - 1));
            assert(all.take(i as int).last() == changes@[i - 1]@);
        }
        if str_eq(changes[i - 1].package.as_str(), name) {
            return Some(&changes[i - 1].new_version);
        }
        i -= 1;
    }
    None
}

/// Gives each dependency of `m` that names a bumped package the new version
/// of that package.
pub fn propagate_versions(m: &mut CargoManifest, changes: &Vec<VersionChange>)
    ensures
        final(m)@ == with_propagation(old(m)@, change_views(changes@)),
{
    let mut names: Vec<String> = Vec::new();
    let ghost deps = m@.dependencies;
    let mut k: usize = 0;
    while k < m.dependencies.len()
        invariant
            k <= m.dependencies.len(),
            *m == *old(m),
            deps == m@.dependencies,
            names@.len() == k,
            forall|j: int| 0 <= j < k ==> (#[trigger] names@[j])@ == deps[j].name,
        decreases m.dependencies.len() - k,
    {
        assert(deps[k as int] == m.dependencies@[k as int]@);
        names.push(m.dependencies[k].name.clone());
        k += 1;
    }
    let mut i: usize = 0;
    assert(deps.take(0) == Seq::<DependencyView>::empty());
    while i < names.len()
        invariant
            i <= names.len(),
            names@.len() == deps.len(),
            forall|j: int| 0 <= j < names@.len() ==> (#[trigger] names@[j])@ == deps[j].name,
            m@ == propagated(old(m)@, deps.take(i as int), change_views(changes@)),
        decreases names.len() - i,
    {
        proof {
            assert(deps.take(i + 1).drop_last() == deps.take(i as int));
            assert(deps.take(i + 1).last() == deps[i as int]);
        }
        match find_new_version(changes, names[i].as_str()) {
            Some(version) => {
                m.update_dependency(names[i].as_str(), version);
            },
            None => {},
        }
        i += 1;
    }
    assert(deps.take(names.len() as int) == deps);
}

/// Propagates the new versions into the dependencies of every manifest.
pub fn update_dependencies(manifests: &mut Vec<CargoManifest>, changes: &Vec<VersionChange>)
    ensures
        manifest_views(final(manifests)@) == Seq::new(
            old(manifests)@.len(),
            |i: int| with_propagation(old(manifests)@[i]@, change_views(changes@)),
        ),
{
    let ghost before = manifest_views(manifests@);
    let mut i: usize = 0;
    while i < manifests.len()
        invariant
            i <= manifests.len(),
            manifests@.len() == before.len(),
            before == manifest_views(old(manifests)@),
            forall|j: int|
                0 <= j < i ==> (#[trigger] manifests@[j])@ == with_propagation(
                    before[j],
                    change_views(changes@),
                ),
            forall|j: int| i <= j < manifests@.len() ==> (#[trigger] manifests@[j])@ == before[j],
        decreases manifests.len() - i,
    {
        let mut m = manifests.remove(i);
        propagate_versions(&mut m, changes);
        manifests.insert(i, m);
        i += 1;
    }
    assert(manifest_views(manifests@) =~= Seq::new(
        old(manifests)@.len(),
        |i: int| with_propagation(old(manifests)@[i]@, change_views(changes@)),
    ));
}

/// Gives every package the new version of its change.
pub fn set_versions(packages: &mut Vec<CargoManifest>, changes: &Vec<VersionChange>)
    requires
        changes@.len() == old(packages)@.len(),
    ensures
        manifest_views(final(packages)@) == Seq::new(
            old(packages)@.len(),
            |i: int| with_new_version(old(packages)@[i]@, changes@[i]@),
        ),
{
    let ghost before = manifest_views(packages@);
    let mut i: usize = 0;
    while i < packages.len()
        invariant
            i <= packages.len(),
            packages@.len() == before.len(),
            changes@.len() == before.len(),
            before == manifest_views(old(packages)@),
            forall|j: int|
                0 <= j < i ==> (#[trigger] packages@[j])@ == with_new_version(
                    before[j],
                    changes@[j]@,
                ),
            forall|j: int| i <= j < packages@.len() ==> (#[trigger] packages@[j])@ == before[j],
        decreases packages.len() - i,
    {
        let mut m = packages.remove(i);
        m.set_version(&changes[i].new_version);
        packages.insert(i, m);
        i += 1;
    }
    assert(manifest_views(packages@) =~= Seq::new(
        old(packages)@.len(),
        |i: int| with_new_version(old(packages)@[i]@, changes@[i]@),
    ));
}

/// The file to write for each package: its path and its document as text.
pub fn pending_writes(packages: &Vec<CargoManifest>) -> (writes: Vec<SourceFile>)
    ensures
        writes@.len() == packages@.len(),
        forall|i: int|
            0 <= i < writes@.len() ==> (#[trigger] writes@[i]).path@ == packages@[i].path@
                && writes@[i].content@ == rendered(packages@[i].document),
{
    let mut writes: Vec<SourceFile> = Vec::new();
    let mut i: usize = 0;
    while i < packages.len()
        invariant
            i <= packages.len(),
            writes@.len() == i,
            forall|j: int|
                0 <= j < i ==> (#[trigger] writes@[j]).path@ == packages@[j].path@
                    && writes@[j].content@ == rendered(packages@[j].document),
        decreases packages.len() - i,
    {
        writes.push(SourceFile { path: packages[i].path.clone(), content: packages[i].save() });
        i += 1;
    }
    writes
}

impl VersionManager {
    /// A manager for the workspace at `workspace_root`.
    pub fn new(workspace_root: &str) -> (r: VersionManager)
        ensures
            r.scanner.root@ == workspace_root@,
    {
        VersionManager { scanner: WorkspaceScanner::new(workspace_root) }
    }

    /// The version that follows `current` under a bump of kind `bump`.
    pub fn calculate_new_version(&self, current: &SemVer, bump: BumpType) -> (r: Result<
        SemVer,
        VersionError,
    >)
        ensures
            match r {
                Ok(next) => bump_outcome(current@, bump) == Ok::<SemVerView, VersionError>(next@),
                Err(e) => bump_outcome(current@, bump) == Err::<SemVerView, VersionError>(e),
            },
    {
        calculate_new_version(current, bump)
    }

    /// Bumps the version of every package of the workspace found among
    /// `files`.
    ///
    /// The changes are computed first, one per package in name order, and
    /// are the same whether or not the run is dry. A dry run stops there:
    /// the packages are returned as loaded and there is nothing to write. A
    /// real run gives each package its new version, gives each dependency on
    /// a bumped package that package's new version, and returns one file to
    /// write per package.
    pub fn bump_versions(&self, files: &Vec<SourceFile>, bump: BumpType, dry_run: bool) -> (r: Result<
        BumpOutcome,
        WorkspaceError,
    >)
        ensures
            match r {
                Ok(outcome) => {
                    let packages = sorted_by_name(workspace_packages(loaded(files@)));
                    let changes = change_views(outcome.changes@);
                    &&& bump_report(packages, bump) == Ok::<
                        Seq<VersionChangeView>,
                        WorkspaceError,
                    >(changes)
                    &&& manifest_views(outcome.packages@) == (if dry_run {
                        packages
                    } else {
                        applied(packages, changes)
                    })
                    &&& outcome.writes@.len() == (if dry_run {
                        0
                    } else {
                        packages.len()
                    })
                    &&& forall|i: int|
                        0 <= i < outcome.writes@.len() ==> (#[trigger] outcome.writes@[i]).path@
                            == outcome.packages@[i].path@ && outcome.writes@[i].content@
                            == rendered(outcome.packages@[i].document)
                    &&& dry_run || all_read_back(changes) ==> all_consistent(
                        manifest_views(outcome.packages@),
                    )
                },
                Err(e) => bump_report(
                    sorted_by_name(workspace_packages(loaded(files@))),
                    bump,
                ) == Err::<Seq<VersionChangeView>, WorkspaceError>(e),
            },
    {
        let mut packages = self.scanner.find_embeddenator_packages(files);
        if packages.len() == 0 {
            return Err(WorkspaceError::NoPackagesFound);
        }
        let ghost loaded_packages = manifest_views(packages@);
        let changes = match plan_changes(&packages, bump) {
            Ok(changes) => changes,
            Err(e) => {
                return Err(WorkspaceError::Version(e));
            },
        };
        proof {
            lemma_planned_changes_match(loaded_packages, bump);
        }
        if dry_run {
            return Ok(BumpOutcome { changes, packages, writes: Vec::new() });
        }
        let ghost loaded_exec = packages@;
        set_versions(&mut packages, &changes);
        let ghost versioned = packages@;
        update_dependencies(&mut packages, &changes);
        proof {
            let wanted = applied(loaded_packages, change_views(changes@));
            assert(manifest_views(loaded_exec).len() == loaded_exec.len());
            assert(manifest_views(versioned).len() == versioned.len());
            assert(versioned.len() == loaded_exec.len());
            assert(manifest_views(packages@).len() == versioned.len());
            assert(manifest_views(packages@).len() == wanted.len());
            assert forall|i: int| 0 <= i < wanted.len() implies manifest_views(packages@)[i]
                == wanted[i] by {
                assert(manifest_views(versioned)[i] == with_new_version(
                    loaded_exec[i]@,
                    changes@[i]@,
                ));
                assert(manifest_views(loaded_exec)[i] == loaded_exec[i]@);
                assert(change_views(changes@)[i] == changes@[i]@);
                assert(manifest_views(packages@)[i] == with_propagation(
                    versioned[i]@,
                    change_views(changes@),
                ));
            }
            assert(manifest_views(packages@) =~= wanted);
            if all_read_back(change_views(changes@)) {
                assert forall|i: int| 0 <= i < wanted.len() implies consistent(
                    #[trigger] wanted[i],
                ) by {
                    lemma_applied_consistent(loaded_packages, change_views(changes@), i);
                }
            }
        }
        let writes = pending_writes(&packages);
        Ok(BumpOutcome { changes, packages, writes })
    }
}

} // verus!
