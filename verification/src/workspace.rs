//! Finding the packages of a workspace among the manifests that a walk of
//! its tree turned up.

use crate::cargo::{
    consistent, has_namespace, is_namespaced, load_outcome, CargoManifest, ManifestView,
};
use crate::text::{
    contains, has_substring, lemma_lex_le_total, lemma_lex_le_transitive, lex_le, str_eq,
    str_lex_le,
};
use vstd::prelude::*;
use vstd::string::*;

verus! {

/// A file as it was read: where it lies and what it holds.
#[derive(Debug, Clone, PartialEq, Eq)]
pub struct SourceFile {
    pub path: String,
    pub content: String,
}

/// Scans a workspace for package manifests.
#[derive(Debug)]
pub struct WorkspaceScanner {
    pub root: String,
}

/// The views of a sequence of manifests.
pub open spec fn manifest_views(manifests: Seq<CargoManifest>) -> Seq<ManifestView> {
    manifests.map_values(|m: CargoManifest| m@)
}

/// The directories that a walk of the workspace does not enter: build
/// output, version-control metadata, dependency caches and tool
/// configuration.
pub open spec fn skipped_directory(name: Seq<char>) -> bool {
    name == "target"@ || name == ".git"@ || name == "node_modules"@ || name == ".cargo"@
}

/// The manifests that load, of the given files, in order.
pub open spec fn loaded(files: Seq<SourceFile>) -> Seq<ManifestView>
    decreases files.len(),
{
    if files.len() == 0 {
        Seq::empty()
    } else {
        match load_outcome(files.last().path@, files.last().content@) {
            Ok(m) => loaded(files.drop_last()).push(m),
            Err(_) => loaded(files.drop_last()),
        }
    }
}

/// A package of this workspace: its name carries the workspace prefix, and
/// its manifest lies neither among nested crates nor in build output.
pub open spec fn is_workspace_package(m: ManifestView) -> bool {
    is_namespaced(m.package_name) && !has_substring(m.path, "/crates/"@)
        && !has_substring(m.path, "/target/"@)
}

/// The workspace packages among `manifests`, in order.
pub open spec fn workspace_packages(manifests: Seq<ManifestView>) -> Seq<ManifestView>
    decreases manifests.len(),
{
    if manifests.len() == 0 {
        Seq::empty()
    } else if is_workspace_package(manifests.last()) {
        workspace_packages(manifests.drop_last()).push(manifests.last())
    } else {
        workspace_packages(manifests.drop_last())
    }
}

/// `sorted` with `m` put behind the last manifest whose name does not come
/// after its own.
pub open spec fn inserted_by_name(sorted: Seq<ManifestView>, m: ManifestView) -> Seq<ManifestView>
    decreases sorted.len(),
{
    if sorted.len() == 0 {
        seq![m]
    } else if lex_le(sorted.last().package_name, m.package_name) {
        sorted.push(m)
    } else {
        inserted_by_name(sorted.drop_last(), m).push(sorted.last())
    }
}

/// `manifests` sorted by package name; manifests of one name keep their
/// order.
pub open spec fn sorted_by_name(manifests: Seq<ManifestView>) -> Seq<ManifestView>
    decreases manifests.len(),
{
    if manifests.len() == 0 {
        Seq::empty()
    } else {
        inserted_by_name(sorted_by_name(manifests.drop_last()), manifests.last())
    }
}

/// The package names do not descend.
pub open spec fn ordered_by_name(manifests: Seq<ManifestView>) -> bool {
    forall|i: int, j: int|
        0 <= i < j < manifests.len() ==> lex_le(
            (#[trigger] manifests[i]).package_name,
            (#[trigger] manifests[j]).package_name,
        )
}

/// Where the manifests behind `at` all come after `m` by name, and the one
/// before `at` does not, sorted insertion puts `m` at `at`.
pub proof fn lemma_inserted_at(sorted: Seq<ManifestView>, m: ManifestView, at: int)
    requires
        0 <= at <= sorted.len(),
        forall|j: int|
            at <= j < sorted.len() ==> !lex_le((#[trigger] sorted[j]).package_name, m.package_name),
        at > 0 ==> lex_le(sorted[at - 1].package_name, m.package_name),
    ensures
        inserted_by_name(sorted, m) == sorted.insert(at, m),
    decreases sorted.len(),
{
    if sorted.len() == 0 {
        assert(seq![m] =~= sorted.insert(at, m));
    } else if at == sorted.len() {
        assert(sorted.push(m) =~= sorted.insert(at, m));
    } else {
        let front = sorted.drop_last();
        assert(!lex_le(sorted[sorted.len() - 1].package_name, m.package_name));
        assert forall|j: int| at <= j < front.len() implies !lex_le(
            (#[trigger] front[j]).package_name,
            m.package_name,
        ) by {
            assert(front[j] == sorted[j]);
        }
        lemma_inserted_at(front, m, at);
        assert(front.insert(at, m).push(sorted.last()) =~= sorted.insert(at, m));
    }
}

/// Sorted insertion keeps every manifest, adds the new one, and keeps the
/// names in order.
pub proof fn lemma_inserted_ordered(sorted: Seq<ManifestView>, m: ManifestView)
    requires
        ordered_by_name(sorted),
    ensures
        ordered_by_name(inserted_by_name(sorted, m)),
        inserted_by_name(sorted, m).len() == sorted.len() + 1,
        forall|k: int|
            0 <= k < inserted_by_name(sorted, m).len() ==> (#[trigger] inserted_by_name(
                sorted,
                m,
            )[k]) == m || sorted.contains(inserted_by_name(sorted, m)[k]),
    decreases sorted.len(),
{
    let out = inserted_by_name(sorted, m);
    if sorted.len() == 0 {
    } else if lex_le(sorted.last().package_name, m.package_name) {
        assert forall|i: int, j: int| 0 <= i < j < out.len() implies lex_le(
            (#[trigger] out[i]).package_name,
            (#[trigger] out[j]).package_name,
        ) by {
            if j == sorted.len() {
                if i < sorted.len() - 1 {
                    assert(lex_le(sorted[i].package_name, sorted[sorted.len() - 1].package_name));
                    lemma_lex_le_transitive(
                        sorted[i].package_name,
                        sorted.last().package_name,
                        m.package_name,
                    );
                }
            } else {
                assert(lex_le(sorted[i].package_name, sorted[j].package_name));
            }
        }
        assert forall|k: int| 0 <= k < out.len() implies (#[trigger] out[k]) == m
            || sorted.contains(out[k]) by {
            if k < sorted.len() {
                assert(sorted[k] == out[k]);
            }
        }
    } else {
        let front = sorted.drop_last();
        assert forall|i: int, j: int| 0 <= i < j < front.len() implies lex_le(
            (#[trigger] front[i]).package_name,
            (#[trigger] front[j]).package_name,
        ) by {
            assert(lex_le(sorted[i].package_name, sorted[j].package_name));
        }
        lemma_inserted_ordered(front, m);
        let inner = inserted_by_name(front, m);
        lemma_lex_le_total(sorted.last().package_name, m.package_name);
        assert forall|i: int, j: int| 0 <= i < j < out.len() implies lex_le(
            (#[trigger] out[i]).package_name,
            (#[trigger] out[j]).package_name,
        ) by {
            if j == inner.len() {
                if inner[i] == m {
                } else {
                    assert(front.contains(inner[i]));
                    let w = choose|w: int| 0 <= w < front.len() && front[w] == inner[i];
                    assert(lex_le(sorted[w].package_name, sorted[sorted.len() - 1].package_name));
                }
            } else {
                assert(lex_le(inner[i].package_name, inner[j].package_name));
            }
        }
        assert forall|k: int| 0 <= k < out.len() implies (#[trigger] out[k]) == m
            || sorted.contains(out[k]) by {
            if k < inner.len() {
                if inner[k] != m {
                    assert(front.contains(inner[k]));
                    let w = choose|w: int| 0 <= w < front.len() && front[w] == inner[k];
                    assert(sorted[w] == out[k]);
                }
            } else {
                assert(sorted[sorted.len() - 1] == out[k]);
            }
        }
    }
}

/// Sorting by name gives the names in order and keeps the number of
/// manifests.
pub proof fn lemma_sorted_by_name_ordered(manifests: Seq<ManifestView>)
    ensures
        ordered_by_name(sorted_by_name(manifests)),
        sorted_by_name(manifests).len() == manifests.len(),
        forall|k: int|
            0 <= k < manifests.len() ==> manifests.contains(#[trigger] sorted_by_name(manifests)[k]),
    decreases manifests.len(),
{
    if manifests.len() > 0 {
        let front = manifests.drop_last();
        lemma_sorted_by_name_ordered(front);
        lemma_inserted_ordered(sorted_by_name(front), manifests.last());
        let out = sorted_by_name(manifests);
        assert forall|k: int| 0 <= k < manifests.len() implies manifests.contains(
            #[trigger] out[k],
        ) by {
            if out[k] == manifests.last() {
                assert(manifests[manifests.len() - 1] == out[k]);
            } else {
                assert(sorted_by_name(front).contains(out[k]));
                let w = choose|w: int|
                    0 <= w < sorted_by_name(front).len() && sorted_by_name(front)[w] == out[k];
                assert(front.contains(sorted_by_name(front)[w]));
                let u = choose|u: int| 0 <= u < front.len() && front[u] == out[k];
                assert(manifests[u] == out[k]);
            }
        }
    }
}

/// Sorted insertion adds the manifest and nothing else.
pub proof fn lemma_inserted_holds(sorted: Seq<ManifestView>, m: ManifestView)
    ensures
        inserted_by_name(sorted, m).to_multiset() == sorted.to_multiset().insert(m),
    decreases sorted.len(),
{
    vstd::seq_lib::to_multiset_build(sorted, m);
    if sorted.len() > 0 && !lex_le(sorted.last().package_name, m.package_name) {
        let front = sorted.drop_last();
        lemma_inserted_holds(front, m);
        vstd::seq_lib::to_multiset_build(inserted_by_name(front, m), sorted.last());
        vstd::seq_lib::to_multiset_build(front, sorted.last());
        assert(front.push(sorted.last()) =~= sorted);
        assert(sorted.to_multiset().insert(m) =~= front.to_multiset().insert(m).insert(
            sorted.last(),
        ));
    } else if sorted.len() == 0 {
        assert(seq![m] =~= sorted.push(m));
    }
}

/// Sorting by name rearranges the manifests: it holds each as often as it
/// was given.
pub proof fn lemma_sorted_by_name_rearranges(manifests: Seq<ManifestView>)
    ensures
        sorted_by_name(manifests).to_multiset() == manifests.to_multiset(),
    decreases manifests.len(),
{
    if manifests.len() > 0 {
        let front = manifests.drop_last();
        lemma_sorted_by_name_rearranges(front);
        lemma_inserted_holds(sorted_by_name(front), manifests.last());
        vstd::seq_lib::to_multiset_build(front, manifests.last());
        assert(front.push(manifests.last()) =~= manifests);
    } else {
        assert(sorted_by_name(manifests) =~= manifests);
    }
}

/// Every manifest that the selection keeps is a workspace package that was
/// among the given ones.
pub proof fn lemma_workspace_packages_sound(manifests: Seq<ManifestView>)
    ensures
        forall|k: int|
            0 <= k < workspace_packages(manifests).len() ==> is_workspace_package(
                #[trigger] workspace_packages(manifests)[k],
            ) && manifests.contains(workspace_packages(manifests)[k]),
    decreases manifests.len(),
{
    if manifests.len() > 0 {
        let front = manifests.drop_last();
        lemma_workspace_packages_sound(front);
        let out = workspace_packages(manifests);
        assert forall|k: int| 0 <= k < out.len() implies is_workspace_package(#[trigger] out[k])
            && manifests.contains(out[k]) by {
            if k < workspace_packages(front).len() {
                assert(out[k] == workspace_packages(front)[k]);
                let w = choose|w: int| 0 <= w < front.len() && front[w] == out[k];
                assert(manifests[w] == out[k]);
            } else {
                assert(manifests[manifests.len() - 1] == out[k]);
            }
        }
    }
}

/// Every manifest is consistent with its document.
pub open spec fn all_consistent(manifests: Seq<ManifestView>) -> bool {
    forall|i: int| 0 <= i < manifests.len() ==> consistent(#[trigger] manifests[i])
}

/// The manifests that load are consistent with their documents.
pub proof fn lemma_loaded_all_consistent(files: Seq<SourceFile>)
    ensures
        all_consistent(loaded(files)),
    decreases files.len(),
{
    if files.len() > 0 {
        lemma_loaded_all_consistent(files.drop_last());
        let front = loaded(files.drop_last());
        let out = loaded(files);
        assert forall|i: int| 0 <= i < out.len() implies consistent(#[trigger] out[i]) by {
            if i < front.len() {
                assert(out[i] == front[i]);
            }
        }
    }
}

/// Selecting and sorting the packages keeps them consistent with their
/// documents.
pub proof fn lemma_packages_consistent(manifests: Seq<ManifestView>)
    requires
        all_consistent(manifests),
    ensures
        all_consistent(sorted_by_name(workspace_packages(manifests))),
{
    let selected = workspace_packages(manifests);
    let sorted = sorted_by_name(selected);
    lemma_workspace_packages_sound(manifests);
    lemma_sorted_by_name_ordered(selected);
    assert forall|i: int| 0 <= i < sorted.len() implies consistent(#[trigger] sorted[i]) by {
        assert(selected.contains(sorted[i]));
        let k = choose|k: int| 0 <= k < selected.len() && selected[k] == sorted[i];
        assert(manifests.contains(selected[k]));
        let w = choose|w: int| 0 <= w < manifests.len() && manifests[w] == selected[k];
        assert(consistent(manifests[w]));
    }
}

/// A directory that may hold the workspace, with what was found in it.
#[derive(Debug, Clone, PartialEq, Eq)]
pub struct RootCandidate {
    pub path: String,
    /// Whether the directory holds the script that updates every package.
    pub has_update_script: bool,
    /// Whether the directory holds the directory of the main package.
    pub has_main_package: bool,
}

/// Whether the directory is marked as the root of a workspace.
pub open spec fn marks_root(candidate: RootCandidate) -> bool {
    candidate.has_update_script || candidate.has_main_package
}

/// The root of the workspace among `candidates`, which are a directory and
/// its ancestors from the inside out: the index of the first that is marked
/// as a root.
pub fn find_workspace_root(candidates: &Vec<RootCandidate>) -> (r: Option<usize>)
    ensures
        match r {
            Some(at) => at < candidates@.len() && marks_root(candidates@[at as int]) && forall|
                j: int,
            | 0 <= j < at ==> !marks_root(#[trigger] candidates@[j]),
            None => forall|j: int| 0 <= j < candidates@.len() ==> !marks_root(
                #[trigger] candidates@[j],
            ),
        },
{
    let mut i: usize = 0;
    while i < candidates.len()
        invariant
            i <= candidates.len(),
            forall|j: int| 0 <= j < i ==> !marks_root(#[trigger] candidates@[j]),
        decreases candidates.len() - i,
    {
        if candidates[i].has_update_script || candidates[i].has_main_package {
            return Some(i);
        }
        i += 1;
    }
    None
}

/// Whether a walk of the workspace skips the directory called `name`.
pub fn is_skipped_directory(name: &str) -> (r: bool)
    ensures
        r == skipped_directory(name@),
{
    str_eq(name, "target") || str_eq(name, ".git") || str_eq(name, "node_modules") || str_eq(
        name,
        ".cargo",
    )
}

/// Whether `m` is a package of this workspace.
pub fn is_package(m: &CargoManifest) -> (r: bool)
    ensures
        r == is_workspace_package(m@),
{
    has_namespace(m.package_name.as_str()) && !contains(m.path.as_str(), "/crates/")
        && !contains(m.path.as_str(), "/target/")
}

impl WorkspaceScanner {
    /// A scanner for the workspace at `root`.
    pub fn new(root: &str) -> (r: WorkspaceScanner)
        ensures
            r.root@ == root@,
    {
        WorkspaceScanner { root: String::from_str(root) }
    }

    /// Loads the manifests among `files`, which a walk of the workspace
    /// found. A file that does not load is left out; the others come in the
    /// order of the files.
    pub fn find_manifests(&self, files: &Vec<SourceFile>) -> (r: Vec<CargoManifest>)
        ensures
            manifest_views(r@) == loaded(files@),
    {
        let mut out: Vec<CargoManifest> = Vec::new();
        let mut i: usize = 0;
        assert(files@.take(0) == Seq::<SourceFile>::empty());
        assert(manifest_views(out@) == Seq::<ManifestView>::empty());
        while i < files.len()
            invariant
                i <= files.len(),
                manifest_views(out@) == loaded(files@.take(i as int)),
            decreases files.len() - i,
        {
            proof {
                assert(files@.take(i + 1).drop_last() == files@.take(i as int));
                assert(files@.take(i + 1).last() == files@[i as int]);
            }
            match CargoManifest::load(files[i].path.as_str(), files[i].content.as_str()) {
                Ok(manifest) => {
                    let ghost previous = out@;
                    out.push(manifest);
                    assert(manifest_views(out@) == manifest_views(previous).push(manifest@));
                },
                Err(_) => {},
            }
            i += 1;
        }
        assert(files@.take(files.len() as int) == files@);
        out
    }

    /// The packages of the workspace among `manifests`, sorted by package
    /// name.
    pub fn select_packages(&self, manifests: Vec<CargoManifest>) -> (r: Vec<CargoManifest>)
        ensures
            manifest_views(r@) == sorted_by_name(workspace_packages(manifest_views(manifests@))),
    {
        let mut out: Vec<CargoManifest> = Vec::new();
        let ghost all = manifest_views(manifests@);
        assert(all.take(0) == Seq::<ManifestView>::empty());
        assert(manifest_views(out@) == Seq::<ManifestView>::empty());
        for m in it: manifests.into_iter()
            invariant
                it.seq() == manifests@,
                all == manifest_views(manifests@),
                manifest_views(out@) == sorted_by_name(
                    workspace_packages(all.take(it.index() as int)),
                ),
        {
            let ghost seen = all.take(it.index() as int);
            let ghost kept = workspace_packages(seen);
            proof {
                assert(all.take(it.index() + 1).drop_last() == seen);
                assert(all.take(it.index() + 1).last() == m@);
                if is_workspace_package(m@) {
                    assert(workspace_packages(all.take(it.index() + 1)) == kept.push(m@));
                    assert(kept.push(m@).drop_last() == kept);
                    assert(kept.push(m@).last() == m@);
                } else {
                    assert(workspace_packages(all.take(it.index() + 1)) == kept);
                }
            }
            if is_package(&m) {
                let ghost sorted = manifest_views(out@);
                let mut at: usize = out.len();
                while at > 0 && !str_lex_le(out[at - 1].package_name.as_str(), m.package_name.as_str())
                    invariant
                        at <= out.len(),
                        sorted == manifest_views(out@),
                        forall|j: int|
                            at <= j < sorted.len() ==> !lex_le(
                                (#[trigger] sorted[j]).package_name,
                                m@.package_name,
                            ),
                    decreases at,
                {
                    at -= 1;
                }
                proof {
                    lemma_inserted_at(sorted, m@, at as int);
                }
                let ghost placed = m@;
                out.insert(at, m);
                assert(manifest_views(out@) =~= sorted.insert(at as int, placed));
            }
        }
        assert(all.take(manifests@.len() as int) == all);
        out
    }

    /// The packages of the workspace among `files`, sorted by package name.
    pub fn find_embeddenator_packages(&self, files: &Vec<SourceFile>) -> (r: Vec<CargoManifest>)
        ensures
            manifest_views(r@) == sorted_by_name(workspace_packages(loaded(files@))),
            ordered_by_name(manifest_views(r@)),
            all_consistent(manifest_views(r@)),
    {
        let all = self.find_manifests(files);
        let out = self.select_packages(all);
        proof {
            lemma_sorted_by_name_ordered(workspace_packages(loaded(files@)));
            lemma_loaded_all_consistent(files@);
            lemma_packages_consistent(loaded(files@));
        }
        out
    }
}

} // verus!
