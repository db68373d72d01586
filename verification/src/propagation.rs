//! What holds of a bump across a workspace: the changes that are reported
//! are the changes that are applied, and every dependency on a bumped package
//! follows it.

use crate::cargo::{
    consistent, declared_version, document_dependencies, entries_dependencies,
    entry_with_version, package_field, reads_back, section_dependencies,
    section_name, section_step, section_with_version, with_dependency, with_package_version,
    DependencyType, DependencyView, ManifestView,
};
use crate::document::{
    child, children, index_of, lemma_index_of, lemma_lookup_replaced, lookup, replaced,
    with_children, Node,
};
use crate::manifest_laws::{lemma_set_version_consistent, lemma_with_dependency_consistent};
use crate::semantic_version::{version_text, BumpType, SemVerView};
use crate::version::{
    applied, lemma_planned_changes_match, new_version_of, planned_changes, propagated,
    with_new_version, VersionChangeView,
};
use vstd::prelude::*;

verus! {

/// The entry for the dependency `name` in the section of kind `kind`.
pub open spec fn dependency_entry(
    entries: Seq<(Seq<char>, Node)>,
    kind: DependencyType,
    name: Seq<char>,
) -> Option<Node> {
    match lookup(entries, section_name(kind)) {
        Some(Node::Table(section)) => lookup(section, name),
        _ => None,
    }
}

/// The entry with `text` as its version, where there is an entry.
pub open spec fn rewritten(entry: Option<Node>, text: Seq<char>) -> Option<Node> {
    match entry {
        Some(node) => Some(entry_with_version(node, text)),
        None => None,
    }
}

/// Whether one of `deps` is called `name`.
pub open spec fn lists(deps: Seq<DependencyView>, name: Seq<char>) -> bool {
    exists|j: int| 0 <= j < deps.len() && (#[trigger] deps[j]).name == name
}

/// The three dependency sections and the package section have four
/// different names.
pub proof fn lemma_section_names(a: DependencyType, b: DependencyType)
    ensures
        a != b ==> section_name(a) != section_name(b),
        section_name(a) != "package"@,
{
    reveal_strlit("dependencies");
    reveal_strlit("dev-dependencies");
    reveal_strlit("build-dependencies");
    reveal_strlit("package");
    assert("dependencies"@.len() == 12);
    assert("dev-dependencies"@.len() == 16);
    assert("build-dependencies"@.len() == 18);
    assert("package"@.len() == 7);
}

/// Setting the version of a dependency entry touches its version and
/// nothing else: every other key holds what it held, a table stays a table of
/// its form, and an entry that declared a version declares the new one.
/// Setting it twice is setting it to the second.
pub proof fn lemma_entry_with_version(entry: Node, text: Seq<char>, later: Seq<char>, key: Seq<char>)
    ensures
        key != "version"@ ==> child(entry_with_version(entry, text), key) == child(entry, key),
        entry_with_version(entry, text) is Table <==> entry is Table,
        entry_with_version(entry, text) is Inline <==> entry is Inline,
        entry_with_version(entry, text) is Text <==> entry is Text,
        declared_version(entry) is Some ==> declared_version(entry_with_version(entry, text))
            == Some(text),
        child(entry, "version"@) is Some ==> child(entry_with_version(entry, text), "version"@)
            == Some(Node::Text(text)),
        entry_with_version(entry_with_version(entry, text), later) == entry_with_version(
            entry,
            later,
        ),
{
    match entry {
        Node::Text(_) => {},
        _ => {
            if child(entry, "version"@) is Some {
                let inner = children(entry);
                let once = replaced(inner, "version"@, Node::Text(text));
                lemma_index_of(inner, "version"@);
                lemma_lookup_replaced(inner, "version"@, Node::Text(text), key);
                lemma_lookup_replaced(inner, "version"@, Node::Text(text), "version"@);
                let first = entry_with_version(entry, text);
                assert(children(first) == once);
                assert(replaced(once, "version"@, Node::Text(later)) =~= replaced(
                    inner,
                    "version"@,
                    Node::Text(later),
                ));
            }
        },
    }
}

/// Setting the version of a dependency in one section changes the entry of
/// that dependency in that section, and nothing else in the document.
pub proof fn lemma_section_with_version(
    entries: Seq<(Seq<char>, Node)>,
    section: DependencyType,
    name: Seq<char>,
    text: Seq<char>,
    kind: DependencyType,
    probe: Seq<char>,
)
    ensures
        dependency_entry(
            section_with_version(entries, section_name(section), name, text),
            kind,
            probe,
        ) == (if kind == section && probe == name {
            rewritten(dependency_entry(entries, kind, probe), text)
        } else {
            dependency_entry(entries, kind, probe)
        }),
        lookup(section_with_version(entries, section_name(section), name, text), "package"@)
            == lookup(entries, "package"@),
{
    lemma_section_names(section, kind);
    let key = section_name(section);
    match lookup(entries, key) {
        Some(Node::Table(deps)) => match lookup(deps, name) {
            Some(entry) => {
                let changed = replaced(deps, name, entry_with_version(entry, text));
                lemma_lookup_replaced(entries, key, Node::Table(changed), section_name(kind));
                lemma_lookup_replaced(entries, key, Node::Table(changed), "package"@);
                lemma_lookup_replaced(deps, name, entry_with_version(entry, text), probe);
            },
            None => {},
        },
        _ => {},
    }
}

/// Setting the version of the dependency `name` rewrites its entry in each
/// section that has one, and leaves every other entry, the package section
/// and the identity of the package as they were.
pub proof fn lemma_with_dependency(
    m: ManifestView,
    name: Seq<char>,
    version: SemVerView,
    kind: DependencyType,
    probe: Seq<char>,
)
    ensures
        dependency_entry(with_dependency(m, name, version).entries, kind, probe) == (if probe
            == name {
            rewritten(dependency_entry(m.entries, kind, probe), version_text(version))
        } else {
            dependency_entry(m.entries, kind, probe)
        }),
        lookup(with_dependency(m, name, version).entries, "package"@) == lookup(
            m.entries,
            "package"@,
        ),
        with_dependency(m, name, version).version == m.version,
        with_dependency(m, name, version).package_name == m.package_name,
        with_dependency(m, name, version).path == m.path,
{
    let text = version_text(version);
    let first = section_step(m, DependencyType::Normal, name, version);
    let second = section_step(first, DependencyType::Dev, name, version);
    lemma_section_with_version(m.entries, DependencyType::Normal, name, text, kind, probe);
    lemma_section_with_version(first.entries, DependencyType::Dev, name, text, kind, probe);
    lemma_section_with_version(second.entries, DependencyType::Build, name, text, kind, probe);
}

/// After the new versions were propagated into `deps`, the entry of a
/// dependency that is among them and names a bumped package carries the new
/// version of that package; every other entry, the package section and the
/// identity of the package are as they were.
pub proof fn lemma_propagated(
    m: ManifestView,
    deps: Seq<DependencyView>,
    changes: Seq<VersionChangeView>,
    kind: DependencyType,
    probe: Seq<char>,
)
    ensures
        dependency_entry(propagated(m, deps, changes).entries, kind, probe) == (if lists(
            deps,
            probe,
        ) && new_version_of(changes, probe) is Some {
            rewritten(
                dependency_entry(m.entries, kind, probe),
                version_text(new_version_of(changes, probe)->Some_0),
            )
        } else {
            dependency_entry(m.entries, kind, probe)
        }),
        lookup(propagated(m, deps, changes).entries, "package"@) == lookup(m.entries, "package"@),
        propagated(m, deps, changes).version == m.version,
        propagated(m, deps, changes).package_name == m.package_name,
        propagated(m, deps, changes).path == m.path,
    decreases deps.len(),
{
    if deps.len() > 0 {
        let front = deps.drop_last();
        let last = deps.last();
        let before = propagated(m, front, changes);
        lemma_propagated(m, front, changes, kind, probe);
        assert(deps[deps.len() - 1] == last);
        if lists(front, probe) {
            let j = choose|j: int| 0 <= j < front.len() && (#[trigger] front[j]).name == probe;
            assert(deps[j].name == probe);
        }
        if lists(deps, probe) && !lists(front, probe) {
            let j = choose|j: int| 0 <= j < deps.len() && (#[trigger] deps[j]).name == probe;
            if j < front.len() {
                assert(front[j].name == probe);
            }
            assert(last.name == probe);
        }
        match new_version_of(changes, last.name) {
            Some(version) => {
                lemma_with_dependency(before, last.name, version, kind, probe);
                if probe == last.name {
                    match dependency_entry(m.entries, kind, probe) {
                        Some(entry) => {
                            lemma_entry_with_version(
                                entry,
                                version_text(version),
                                version_text(version),
                                probe,
                            );
                        },
                        None => {},
                    }
                }
            },
            None => {},
        }
    }
}

/// A manifest as it was loaded lists every entry of its three dependency
/// sections among its dependencies.
pub proof fn lemma_loaded_lists_entries(
    entries: Seq<(Seq<char>, Node)>,
    kind: DependencyType,
    name: Seq<char>,
)
    requires
        dependency_entry(entries, kind, name) is Some,
    ensures
        lists(document_dependencies(entries), name),
{
    let section = lookup(entries, section_name(kind))->Some_0->Table_0;
    lemma_index_of(section, name);
    let at = index_of(section, name)->Some_0;
    let listed = entries_dependencies(section, kind);
    assert(listed[at].name == name);
    assert(section_dependencies(entries, kind) == listed);
    let normal = section_dependencies(entries, DependencyType::Normal);
    let dev = section_dependencies(entries, DependencyType::Dev);
    let build = section_dependencies(entries, DependencyType::Build);
    let all = document_dependencies(entries);
    match kind {
        DependencyType::Normal => {
            assert(all[at] == listed[at]);
        },
        DependencyType::Dev => {
            assert(all[normal.len() + at] == listed[at]);
        },
        DependencyType::Build => {
            assert(all[normal.len() + dev.len() + at] == listed[at]);
        },
    }
}

/// The package section with a new version holds that version, and the
/// dependency sections are as they were.
pub proof fn lemma_with_package_version(
    entries: Seq<(Seq<char>, Node)>,
    text: Seq<char>,
    kind: DependencyType,
    probe: Seq<char>,
)
    ensures
        dependency_entry(with_package_version(entries, text), kind, probe) == dependency_entry(
            entries,
            kind,
            probe,
        ),
        package_field(entries, "version"@) is Some ==> package_field(
            with_package_version(entries, text),
            "version"@,
        ) == Some(text),
        package_field(with_package_version(entries, text), "name"@) == package_field(
            entries,
            "name"@,
        ),
{
    reveal_strlit("name");
    reveal_strlit("version");
    assert("name"@.len() == 4 && "version"@.len() == 7);
    lemma_section_names(kind, kind);
    match lookup(entries, "package"@) {
        Some(package) => {
            if child(package, "version"@) is Some {
                let inner = replaced(children(package), "version"@, Node::Text(text));
                let changed = with_children(package, inner);
                lemma_index_of(children(package), "version"@);
                lemma_lookup_replaced(entries, "package"@, changed, section_name(kind));
                lemma_lookup_replaced(entries, "package"@, changed, "package"@);
                lemma_lookup_replaced(children(package), "version"@, Node::Text(text), "version"@);
                lemma_lookup_replaced(children(package), "version"@, Node::Text(text), "name"@);
                assert(children(changed) == inner);
            }
        },
        None => {},
    }
}

/// The changes that a bump reports are the changes that it applies.
///
/// Each change is for the package at its place: it names the package and
/// its manifest, and goes from the version that the package had. After the
/// changes were applied the package has the new version of its change, in
/// the field and, where the document declared a version, in the document;
/// its name and path are as they were.
pub proof fn lemma_changes_are_applied(packages: Seq<ManifestView>, bump: BumpType, i: int)
    requires
        planned_changes(packages, bump) is Ok,
        0 <= i < packages.len(),
    ensures
        ({
            let changes = planned_changes(packages, bump)->Ok_0;
            let after = applied(packages, changes)[i];
            &&& changes.len() == packages.len()
            &&& applied(packages, changes).len() == packages.len()
            &&& changes[i].package == packages[i].package_name
            &&& changes[i].path == packages[i].path
            &&& changes[i].old_version == packages[i].version
            &&& after.version == changes[i].new_version
            &&& after.package_name == packages[i].package_name
            &&& after.path == packages[i].path
            &&& package_field(packages[i].entries, "version"@) is Some ==> package_field(
                after.entries,
                "version"@,
            ) == Some(version_text(changes[i].new_version))
        }),
{
    lemma_planned_changes_match(packages, bump);
    let changes = planned_changes(packages, bump)->Ok_0;
    let versioned = with_new_version(packages[i], changes[i]);
    lemma_propagated(
        versioned,
        versioned.dependencies,
        changes,
        DependencyType::Normal,
        Seq::empty(),
    );
    lemma_with_package_version(
        packages[i].entries,
        version_text(changes[i].new_version),
        DependencyType::Normal,
        Seq::empty(),
    );
}

/// After a bump, every dependency entry that names a bumped package carries
/// that package's new version, and nothing else of the entry has changed.
///
/// Take the package at place `i`, and an entry `name` in its section of kind
/// `kind`. Where the package lists `name` among its dependencies and the
/// changes bump a package of that name, the entry after the bump is the entry
/// before with the new version in place of the declared one: a bare string is
/// the new version, a table has the new version under `version` and every
/// other key as before.
pub proof fn lemma_propagation_complete(
    packages: Seq<ManifestView>,
    changes: Seq<VersionChangeView>,
    i: int,
    kind: DependencyType,
    name: Seq<char>,
    key: Seq<char>,
)
    requires
        changes.len() == packages.len(),
        0 <= i < packages.len(),
        lists(packages[i].dependencies, name),
        new_version_of(changes, name) is Some,
        dependency_entry(packages[i].entries, kind, name) is Some,
    ensures
        ({
            let before = dependency_entry(packages[i].entries, kind, name)->Some_0;
            let after = dependency_entry(applied(packages, changes)[i].entries, kind, name);
            let text = version_text(new_version_of(changes, name)->Some_0);
            &&& after == Some(entry_with_version(before, text))
            &&& declared_version(before) is Some ==> declared_version(after->Some_0) == Some(text)
            &&& key != "version"@ ==> child(after->Some_0, key) == child(before, key)
        }),
{
    let versioned = with_new_version(packages[i], changes[i]);
    let text = version_text(new_version_of(changes, name)->Some_0);
    let before = dependency_entry(packages[i].entries, kind, name)->Some_0;
    lemma_with_package_version(
        packages[i].entries,
        version_text(changes[i].new_version),
        kind,
        name,
    );
    lemma_propagated(
        versioned,
        versioned.dependencies,
        changes,
        kind,
        name,
    );
    lemma_entry_with_version(before, text, text, key);
}

/// After a bump of a workspace whose manifests are consistent with their
/// documents, every dependency entry that names a bumped package carries that
/// package's new version, and nothing else of the entry has changed.
///
/// This is [`lemma_propagation_complete`] for manifests as the library loads
/// them: a consistent manifest lists every entry of its dependency sections.
pub proof fn lemma_bump_reaches_every_entry(
    packages: Seq<ManifestView>,
    changes: Seq<VersionChangeView>,
    i: int,
    kind: DependencyType,
    name: Seq<char>,
    key: Seq<char>,
)
    requires
        changes.len() == packages.len(),
        0 <= i < packages.len(),
        consistent(packages[i]),
        new_version_of(changes, name) is Some,
        dependency_entry(packages[i].entries, kind, name) is Some,
    ensures
        ({
            let before = dependency_entry(packages[i].entries, kind, name)->Some_0;
            let after = dependency_entry(applied(packages, changes)[i].entries, kind, name);
            let text = version_text(new_version_of(changes, name)->Some_0);
            &&& after == Some(entry_with_version(before, text))
            &&& declared_version(before) is Some ==> declared_version(after->Some_0) == Some(text)
            &&& key != "version"@ ==> child(after->Some_0, key) == child(before, key)
        }),
{
    lemma_loaded_lists_entries(packages[i].entries, kind, name);
    lemma_propagation_complete(packages, changes, i, kind, name, key);
}

/// Every package of a change has a new version: that of the change, where
/// no later change is for a package of the same name.
pub proof fn lemma_change_gives_new_version(changes: Seq<VersionChangeView>, k: int)
    requires
        0 <= k < changes.len(),
    ensures
        new_version_of(changes, changes[k].package) is Some,
        (forall|j: int| k < j < changes.len() ==> (#[trigger] changes[j]).package
            != changes[k].package) ==> new_version_of(changes, changes[k].package) == Some(
            changes[k].new_version,
        ),
    decreases changes.len(),
{
    if k < changes.len() - 1 {
        let front = changes.drop_last();
        assert(front[k] == changes[k]);
        lemma_change_gives_new_version(front, k);
        if forall|j: int| k < j < changes.len() ==> (#[trigger] changes[j]).package
            != changes[k].package {
            assert forall|j: int| k < j < front.len() implies (#[trigger] front[j]).package
                != front[k].package by {
                assert(front[j] == changes[j]);
            }
            assert(changes[changes.len() - 1].package != changes[k].package);
        }
    }
}

/// After a bump, a dependency entry that declares a version and names a
/// bumped package declares that package's new version.
///
/// Take the changes that a bump plans for the packages, the change at place
/// `k`, and the package at place `i`, consistent with its document as the
/// library loads it. If a section of that package holds an entry under the
/// name of the changed package, the entry is still there after the bump, and
/// where it declared a version, bare or under `version`, it declares the new
/// version of the change. Where several packages share the name, the last
/// of them is the one that dependencies follow.
pub proof fn lemma_bump_writes_new_version(
    packages: Seq<ManifestView>,
    bump: BumpType,
    i: int,
    k: int,
    kind: DependencyType,
)
    requires
        planned_changes(packages, bump) is Ok,
        0 <= i < packages.len(),
        0 <= k < packages.len(),
        consistent(packages[i]),
        forall|j: int|
            k < j < packages.len() ==> (#[trigger] packages[j]).package_name
                != packages[k].package_name,
        dependency_entry(packages[i].entries, kind, packages[k].package_name) is Some,
    ensures
        ({
            let changes = planned_changes(packages, bump)->Ok_0;
            let before = dependency_entry(packages[i].entries, kind, packages[k].package_name);
            let after = dependency_entry(
                applied(packages, changes)[i].entries,
                kind,
                changes[k].package,
            );
            &&& changes[k].package == packages[k].package_name
            &&& after is Some
            &&& declared_version(before->Some_0) is Some ==> declared_version(after->Some_0)
                == Some(version_text(changes[k].new_version))
        }),
{
    lemma_planned_changes_match(packages, bump);
    let changes = planned_changes(packages, bump)->Ok_0;
    assert(changes[k].package == packages[k].package_name);
    assert forall|j: int| k < j < changes.len() implies (#[trigger] changes[j]).package
        != changes[k].package by {
        assert(changes[j].package == packages[j].package_name);
    }
    lemma_change_gives_new_version(changes, k);
    lemma_bump_reaches_every_entry(packages, changes, i, kind, changes[k].package, Seq::empty());
}

/// Every new version is read back from its text as it was written.
pub open spec fn all_read_back(changes: Seq<VersionChangeView>) -> bool {
    forall|k: int| 0 <= k < changes.len() ==> reads_back((#[trigger] changes[k]).new_version)
}

/// The new version of a package is the new version of one of the changes.
pub proof fn lemma_new_version_reads_back(changes: Seq<VersionChangeView>, name: Seq<char>)
    requires
        all_read_back(changes),
    ensures
        new_version_of(changes, name) matches Some(version) ==> reads_back(version),
    decreases changes.len(),
{
    if changes.len() > 0 {
        let front = changes.drop_last();
        assert forall|k: int| 0 <= k < front.len() implies reads_back(
            (#[trigger] front[k]).new_version,
        ) by {
            assert(front[k] == changes[k]);
        }
        lemma_new_version_reads_back(front, name);
        assert(changes[changes.len() - 1] == changes.last());
    }
}

/// Propagating new versions into a consistent manifest keeps it consistent.
pub proof fn lemma_propagated_consistent(
    m: ManifestView,
    deps: Seq<DependencyView>,
    changes: Seq<VersionChangeView>,
)
    requires
        consistent(m),
        all_read_back(changes),
    ensures
        consistent(propagated(m, deps, changes)),
    decreases deps.len(),
{
    if deps.len() > 0 {
        let before = propagated(m, deps.drop_last(), changes);
        lemma_propagated_consistent(m, deps.drop_last(), changes);
        lemma_new_version_reads_back(changes, deps.last().name);
        match new_version_of(changes, deps.last().name) {
            Some(version) => {
                lemma_with_dependency_consistent(before, deps.last().name, version);
            },
            None => {},
        }
    }
}

/// A bump keeps consistent manifests consistent: after the changes were
/// applied, the fields of each package still say what its document says,
/// where every new version is read back from its text as it was written.
pub proof fn lemma_applied_consistent(
    packages: Seq<ManifestView>,
    changes: Seq<VersionChangeView>,
    i: int,
)
    requires
        changes.len() == packages.len(),
        0 <= i < packages.len(),
        consistent(packages[i]),
        all_read_back(changes),
    ensures
        consistent(applied(packages, changes)[i]),
{
    let versioned = with_new_version(packages[i], changes[i]);
    lemma_set_version_consistent(packages[i], changes[i].new_version);
    lemma_propagated_consistent(
        versioned,
        versioned.dependencies,
        changes,
    );
}

/// A dependency entry that names no bumped package is not touched by a
/// bump.
pub proof fn lemma_propagation_spares_others(
    packages: Seq<ManifestView>,
    changes: Seq<VersionChangeView>,
    i: int,
    kind: DependencyType,
    name: Seq<char>,
)
    requires
        changes.len() == packages.len(),
        0 <= i < packages.len(),
        new_version_of(changes, name) is None,
    ensures
        dependency_entry(applied(packages, changes)[i].entries, kind, name) == dependency_entry(
            packages[i].entries,
            kind,
            name,
        ),
{
    let versioned = with_new_version(packages[i], changes[i]);
    lemma_with_package_version(
        packages[i].entries,
        version_text(changes[i].new_version),
        kind,
        name,
    );
    lemma_propagated(
        versioned,
        versioned.dependencies,
        changes,
        kind,
        name,
    );
}

} // verus!
