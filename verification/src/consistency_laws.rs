//! What holds of the consistency report: it lists every dependency that
//! declares another version than the package it names has, and nothing else.

use crate::cargo::{DependencyView, ManifestView};
use crate::consistency::{
    consistency_outcome, consistency_report, current_version, inconsistencies_among,
    inconsistencies_of, inconsistency_of, InconsistencyView,
};
use crate::version::WorkspaceError;
use vstd::prelude::*;

verus! {

/// The dependency `dep` of the package called `package` is out of step: it
/// has no local path, declares the version `found`, names one of the
/// packages, and that package has another version, `expected`.
pub open spec fn out_of_step(
    packages: Seq<ManifestView>,
    package: Seq<char>,
    dep: DependencyView,
    record: InconsistencyView,
) -> bool {
    &&& !dep.has_path
    &&& dep.version == Some(record.found)
    &&& current_version(packages, dep.name) == Some(record.expected)
    &&& record.found != record.expected
    &&& record.package == package
    &&& record.dependency == dep.name
}

/// A record is made for a dependency exactly if the dependency is out of
/// step, and then it names the package, the dependency, the version that
/// the package named has and the version that was declared.
pub proof fn lemma_inconsistency_of(
    packages: Seq<ManifestView>,
    package: Seq<char>,
    dep: DependencyView,
    record: InconsistencyView,
)
    ensures
        inconsistency_of(packages, package, dep) == Some(record) <==> out_of_step(
            packages,
            package,
            dep,
            record,
        ),
{
}

/// The current version of a name is the version of a package of that name,
/// and every name of a package has a current version.
pub proof fn lemma_current_version(packages: Seq<ManifestView>, name: Seq<char>)
    ensures
        current_version(packages, name) matches Some(version) ==> exists|i: int|
            0 <= i < packages.len() && (#[trigger] packages[i]).package_name == name
                && packages[i].version == version,
        (exists|i: int| 0 <= i < packages.len() && (#[trigger] packages[i]).package_name == name)
            ==> current_version(packages, name) is Some,
    decreases packages.len(),
{
    if packages.len() > 0 {
        let front = packages.drop_last();
        lemma_current_version(front, name);
        let last = packages[packages.len() - 1];
        if last.package_name != name {
            if current_version(packages, name) is Some {
                let i = choose|i: int|
                    0 <= i < front.len() && (#[trigger] front[i]).package_name == name
                        && front[i].version == current_version(front, name)->Some_0;
                assert(packages[i] == front[i]);
            }
            if exists|i: int|
                0 <= i < packages.len() && (#[trigger] packages[i]).package_name == name {
                let i = choose|i: int|
                    0 <= i < packages.len() && (#[trigger] packages[i]).package_name == name;
                assert(front[i] == packages[i]);
            }
        }
    }
}

/// Among the dependencies of one package, every one that is out of step has
/// its record, and every record is that of one that is out of step.
pub proof fn lemma_among(packages: Seq<ManifestView>, package: Seq<char>, deps: Seq<DependencyView>)
    ensures
        forall|j: int|
            0 <= j < deps.len() && inconsistency_of(packages, package, #[trigger] deps[j])
                is Some ==> inconsistencies_among(packages, package, deps).contains(
                inconsistency_of(packages, package, deps[j])->Some_0,
            ),
        forall|k: int|
            0 <= k < inconsistencies_among(packages, package, deps).len() ==> exists|j: int|
                0 <= j < deps.len() && inconsistency_of(packages, package, #[trigger] deps[j])
                    == Some(#[trigger] inconsistencies_among(packages, package, deps)[k]),
    decreases deps.len(),
{
    if deps.len() > 0 {
        let front = deps.drop_last();
        let last = deps[deps.len() - 1];
        lemma_among(packages, package, front);
        let inner = inconsistencies_among(packages, package, front);
        let out = inconsistencies_among(packages, package, deps);
        assert forall|j: int|
            0 <= j < deps.len() && inconsistency_of(packages, package, #[trigger] deps[j])
                is Some implies out.contains(
            inconsistency_of(packages, package, deps[j])->Some_0,
        ) by {
            let record = inconsistency_of(packages, package, deps[j])->Some_0;
            if j < front.len() {
                assert(front[j] == deps[j]);
                assert(inner.contains(record));
                let k = choose|k: int| 0 <= k < inner.len() && inner[k] == record;
                assert(out[k] == record);
            } else {
                assert(out[out.len() - 1] == record);
            }
        }
        assert forall|k: int| 0 <= k < out.len() implies exists|j: int|
            0 <= j < deps.len() && inconsistency_of(packages, package, #[trigger] deps[j]) == Some(
                #[trigger] out[k],
            ) by {
            if k < inner.len() {
                assert(out[k] == inner[k]);
                let j = choose|j: int|
                    0 <= j < front.len() && inconsistency_of(packages, package, #[trigger] front[j])
                        == Some(inner[k]);
                assert(deps[j] == front[j]);
            } else {
                assert(inconsistency_of(packages, package, deps[deps.len() - 1]) == Some(out[k]));
            }
        }
    }
}

/// Among the first `n` packages, every dependency that is out of step has
/// its record, and every record is that of one that is out of step.
pub proof fn lemma_reported(packages: Seq<ManifestView>, n: nat)
    requires
        n <= packages.len(),
    ensures
        forall|i: int, j: int|
            0 <= i < n && 0 <= j < packages[i].dependencies.len() && inconsistency_of(
                packages,
                packages[i].package_name,
                #[trigger] packages[i].dependencies[j],
            ) is Some ==> inconsistencies_of(packages, n).contains(
                inconsistency_of(
                    packages,
                    packages[i].package_name,
                    packages[i].dependencies[j],
                )->Some_0,
            ),
        forall|k: int|
            0 <= k < inconsistencies_of(packages, n).len() ==> exists|i: int, j: int|
                0 <= i < n && 0 <= j < packages[i].dependencies.len() && inconsistency_of(
                    packages,
                    packages[i].package_name,
                    #[trigger] packages[i].dependencies[j],
                ) == Some(#[trigger] inconsistencies_of(packages, n)[k]),
    decreases n,
{
    if n > 0 {
        lemma_reported(packages, (n - 1) as nat);
        let m = packages[n - 1];
        lemma_among(packages, m.package_name, m.dependencies);
        let earlier = inconsistencies_of(packages, (n - 1) as nat);
        let own = inconsistencies_among(packages, m.package_name, m.dependencies);
        let out = inconsistencies_of(packages, n);
        assert(out == earlier + own);
        assert forall|i: int, j: int|
            0 <= i < n && 0 <= j < packages[i].dependencies.len() && inconsistency_of(
                packages,
                packages[i].package_name,
                #[trigger] packages[i].dependencies[j],
            ) is Some implies out.contains(
            inconsistency_of(
                packages,
                packages[i].package_name,
                packages[i].dependencies[j],
            )->Some_0,
        ) by {
            let record = inconsistency_of(
                packages,
                packages[i].package_name,
                packages[i].dependencies[j],
            )->Some_0;
            if i < n - 1 {
                assert(earlier.contains(record));
                let k = choose|k: int| 0 <= k < earlier.len() && earlier[k] == record;
                assert(out[k] == record);
            } else {
                assert(own.contains(record));
                let k = choose|k: int| 0 <= k < own.len() && own[k] == record;
                assert(out[earlier.len() + k] == record);
            }
        }
        assert forall|k: int| 0 <= k < out.len() implies exists|i: int, j: int|
            0 <= i < n && 0 <= j < packages[i].dependencies.len() && inconsistency_of(
                packages,
                packages[i].package_name,
                #[trigger] packages[i].dependencies[j],
            ) == Some(#[trigger] out[k]) by {
            if k < earlier.len() {
                assert(out[k] == earlier[k]);
                let (i, j) = choose|i: int, j: int|
                    0 <= i < n - 1 && 0 <= j < packages[i].dependencies.len() && inconsistency_of(
                        packages,
                        packages[i].package_name,
                        #[trigger] packages[i].dependencies[j],
                    ) == Some(earlier[k]);
                assert(inconsistency_of(
                    packages,
                    packages[i].package_name,
                    packages[i].dependencies[j],
                ) == Some(out[k]));
            } else {
                assert(out[k] == own[k - earlier.len()]);
                let j = choose|j: int|
                    0 <= j < m.dependencies.len() && inconsistency_of(
                        packages,
                        m.package_name,
                        #[trigger] m.dependencies[j],
                    ) == Some(own[k - earlier.len()]);
                assert(inconsistency_of(
                    packages,
                    packages[n - 1].package_name,
                    packages[n - 1].dependencies[j],
                ) == Some(out[k]));
            }
        }
    }
}

/// The report lists every offending pair, and nothing else.
///
/// For a workspace with packages the check succeeds and counts them. Take
/// any package and any of its dependencies: if the dependency has no local
/// path, declares a version and names a package that has another version,
/// the report holds the record of that pair, with the version that the
/// package has as expected and the declared version as found. And every
/// record of the report is the record of such a pair.
pub proof fn lemma_report_lists_every_inconsistency(
    packages: Seq<ManifestView>,
    i: int,
    j: int,
    k: int,
)
    requires
        packages.len() > 0,
    ensures
        consistency_outcome(packages) == Ok::<crate::consistency::VersionReportView, WorkspaceError>(
            consistency_report(packages),
        ),
        consistency_report(packages).total_packages == packages.len(),
        0 <= i < packages.len() && 0 <= j < packages[i].dependencies.len() ==> ({
            let m = packages[i];
            let d = m.dependencies[j];
            forall|record: InconsistencyView| #[trigger]
                out_of_step(packages, m.package_name, d, record) ==> consistency_report(
                    packages,
                ).inconsistencies.contains(record)
        }),
        0 <= k < consistency_report(packages).inconsistencies.len() ==> exists|a: int, b: int|
            0 <= a < packages.len() && 0 <= b < packages[a].dependencies.len() && out_of_step(
                packages,
                packages[a].package_name,
                #[trigger] packages[a].dependencies[b],
                consistency_report(packages).inconsistencies[k],
            ),
{
    lemma_reported(packages, packages.len());
    let all = consistency_report(packages).inconsistencies;
    if 0 <= i < packages.len() && 0 <= j < packages[i].dependencies.len() {
        let m = packages[i];
        let d = m.dependencies[j];
        assert forall|record: InconsistencyView| #[trigger]
            out_of_step(packages, m.package_name, d, record) implies all.contains(record) by {
            lemma_inconsistency_of(packages, m.package_name, d, record);
            assert(inconsistency_of(packages, packages[i].package_name, packages[i].dependencies[j])
                == Some(record));
        }
    }
    if 0 <= k < all.len() {
        let (a, b) = choose|a: int, b: int|
            0 <= a < packages.len() && 0 <= b < packages[a].dependencies.len() && inconsistency_of(
                packages,
                packages[a].package_name,
                #[trigger] packages[a].dependencies[b],
            ) == Some(all[k]);
        lemma_inconsistency_of(packages, packages[a].package_name, packages[a].dependencies[b], all[k]);
    }
}

/// A workspace without packages cannot be checked: the check fails, and
/// only then.
pub proof fn lemma_no_packages_no_report(packages: Seq<ManifestView>)
    ensures
        consistency_outcome(packages) is Err <==> packages.len() == 0,
        consistency_outcome(packages) is Err ==> consistency_outcome(packages) == Err::<
            crate::consistency::VersionReportView,
            WorkspaceError,
        >(WorkspaceError::NoPackagesFound),
{
}

} // verus!
