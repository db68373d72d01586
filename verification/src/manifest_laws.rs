//! What holds of a manifest and its document: the fields say what the
//! document says, and stay so when a version is set.

use crate::cargo::{
    consistent, declared_version, dependency_of, document_dependencies, entries_dependencies,
    entry_with_version, load_outcome, reads_back, section_declares, section_dependencies,
    section_name, section_step, section_with_version, tracked_index,
    with_dependency, with_package_version, DependencyType, DependencyView, ManifestView,
};
use crate::document::{
    child, index_of, lemma_index_of, lemma_lookup_replaced, lookup, replaced, with_child, Node,
};
use crate::propagation::{
    lemma_entry_with_version, lemma_section_names, lemma_section_with_version,
    lemma_with_package_version,
};
use crate::semantic_version::{version_text, SemVerView};
use vstd::prelude::*;

verus! {

/// A manifest as it was loaded is consistent, and lies where it was found.
pub proof fn lemma_loaded_consistent(path: Seq<char>, content: Seq<char>)
    ensures
        load_outcome(path, content) matches Ok(m) ==> consistent(m) && m.path == path,
{
}

/// Among the dependencies of one section, the first that is called `name`
/// stands where the section has the entry `name`; a section of another kind
/// has none of this kind.
pub proof fn lemma_tracked_in_section(
    section: Seq<(Seq<char>, Node)>,
    kind: DependencyType,
    name: Seq<char>,
    wanted: DependencyType,
)
    ensures
        tracked_index(entries_dependencies(section, kind), name, wanted) == (if wanted == kind {
            index_of(section, name)
        } else {
            None
        }),
    decreases section.len(),
{
    let listed = entries_dependencies(section, kind);
    if section.len() > 0 {
        let rest = section.skip(1);
        lemma_tracked_in_section(rest, kind, name, wanted);
        assert(listed.skip(1) =~= entries_dependencies(rest, kind));
        assert(listed[0].name == section[0].0 && listed[0].dep_type == kind);
    }
}

/// The first dependency of a name and kind in two lists, one behind the
/// other, is the first in the first list, or else the first in the second.
pub proof fn lemma_tracked_in_both(
    a: Seq<DependencyView>,
    b: Seq<DependencyView>,
    name: Seq<char>,
    kind: DependencyType,
)
    ensures
        tracked_index(a + b, name, kind) == (match tracked_index(a, name, kind) {
            Some(i) => Some(i),
            None => match tracked_index(b, name, kind) {
                Some(j) => Some(a.len() + j),
                None => None,
            },
        }),
        tracked_index(a, name, kind) matches Some(i) ==> 0 <= i < a.len(),
    decreases a.len(),
{
    if a.len() == 0 {
        assert(a + b =~= b);
    } else {
        assert((a + b).skip(1) =~= a.skip(1) + b);
        assert((a + b)[0] == a[0]);
        lemma_tracked_in_both(a.skip(1), b, name, kind);
    }
}

/// Setting the package version keeps a manifest consistent, where the
/// version is read back as it was written.
pub proof fn lemma_set_version_consistent(m: ManifestView, version: SemVerView)
    requires
        consistent(m),
        reads_back(version),
    ensures
        consistent(
            ManifestView {
                version,
                entries: with_package_version(m.entries, version_text(version)),
                ..m
            },
        ),
{
    let text = version_text(version);
    let after = with_package_version(m.entries, text);
    lemma_with_package_version(m.entries, text, DependencyType::Normal, Seq::empty());
    lemma_sections_kept(m.entries, after, DependencyType::Normal);
    lemma_sections_kept(m.entries, after, DependencyType::Dev);
    lemma_sections_kept(m.entries, after, DependencyType::Build);
}

/// Setting the package version leaves the dependency sections as they
/// were.
proof fn lemma_sections_kept(
    entries: Seq<(Seq<char>, Node)>,
    after: Seq<(Seq<char>, Node)>,
    kind: DependencyType,
)
    requires
        exists|text: Seq<char>| after == with_package_version(entries, text),
    ensures
        section_dependencies(after, kind) == section_dependencies(entries, kind),
{
    let text = choose|text: Seq<char>| after == with_package_version(entries, text);
    lemma_section_names(kind, kind);
    match lookup(entries, "package"@) {
        Some(package) => {
            if child(package, "version"@) is Some {
                lemma_lookup_replaced(
                    entries,
                    "package"@,
                    with_child(package, "version"@, Node::Text(text)),
                    section_name(kind),
                );
            }
        },
        None => {},
    }
}

/// Setting the version of a dependency in one section keeps the
/// dependencies in step with the document: the entry is rewritten exactly
/// where the dependency that is recorded for it takes the version.
pub proof fn lemma_section_step_consistent(
    m: ManifestView,
    kind: DependencyType,
    name: Seq<char>,
    version: SemVerView,
)
    requires
        consistent(m),
        reads_back(version),
    ensures
        consistent(section_step(m, kind, name, version)),
{
    reveal_strlit("version");
    reveal_strlit("path");
    assert("version"@.len() == 7 && "path"@.len() == 4);
    let text = version_text(version);
    let key = section_name(kind);
    let entries = m.entries;
    let after = section_with_version(entries, key, name, text);
    let normal = section_dependencies(entries, DependencyType::Normal);
    let dev = section_dependencies(entries, DependencyType::Dev);
    let build = section_dependencies(entries, DependencyType::Build);
    lemma_section_with_version(entries, kind, name, text, kind, name);
    lemma_section_names(kind, DependencyType::Normal);
    lemma_section_names(kind, DependencyType::Dev);
    lemma_section_names(kind, DependencyType::Build);
    lemma_tracked_in_both(normal, dev + build, name, kind);
    lemma_tracked_in_both(dev, build, name, kind);
    assert(normal + (dev + build) =~= normal + dev + build);
    match lookup(entries, key) {
        Some(Node::Table(section)) => {
            lemma_tracked_in_section(section, kind, name, kind);
            lemma_index_of(section, name);
            match lookup(section, name) {
                Some(entry) => {
                    let at = index_of(section, name)->Some_0;
                    let rewritten = entry_with_version(entry, text);
                    let changed = replaced(section, name, rewritten);
                    lemma_entry_with_version(entry, text, text, "path"@);
                    lemma_lookup_replaced(
                        entries,
                        key,
                        Node::Table(changed),
                        section_name(DependencyType::Normal),
                    );
                    lemma_lookup_replaced(
                        entries,
                        key,
                        Node::Table(changed),
                        section_name(DependencyType::Dev),
                    );
                    lemma_lookup_replaced(
                        entries,
                        key,
                        Node::Table(changed),
                        section_name(DependencyType::Build),
                    );
                    let listed = entries_dependencies(section, kind);
                    let relisted = entries_dependencies(changed, kind);
                    let declares = section_declares(entries, key, name);
                    assert(declares == (declared_version(entry) is Some || child(
                        entry,
                        "version"@,
                    ) is Some));
                    if !(entry is Text) && child(entry, "version"@) is None {
                        assert(rewritten == entry);
                    }
                    let taken = if declares {
                        DependencyView { version: Some(version), ..listed[at] }
                    } else {
                        listed[at]
                    };
                    assert(dependency_of(name, rewritten, kind) == taken);
                    assert(relisted =~= listed.update(at, taken));
                    let before_all = normal + dev + build;
                    let after_all = document_dependencies(after);
                    match kind {
                        DependencyType::Normal => {
                            lemma_tracked_in_section(section, kind, name, DependencyType::Dev);
                            assert(after_all =~= before_all.update(at, taken));
                        },
                        DependencyType::Dev => {
                            lemma_kind_absent(entries, DependencyType::Normal, name, kind);
                            assert(after_all =~= before_all.update(normal.len() + at, taken));
                        },
                        DependencyType::Build => {
                            lemma_kind_absent(entries, DependencyType::Normal, name, kind);
                            lemma_kind_absent(entries, DependencyType::Dev, name, kind);
                            assert(after_all =~= before_all.update(
                                normal.len() + dev.len() + at,
                                taken,
                            ));
                        },
                    }
                    if !declares {
                        assert(after_all =~= before_all);
                    }
                },
                None => {},
            }
        },
        _ => {},
    }
}

/// The dependencies of one section hold none of another kind.
proof fn lemma_kind_absent(
    entries: Seq<(Seq<char>, Node)>,
    kind: DependencyType,
    name: Seq<char>,
    wanted: DependencyType,
)
    requires
        kind != wanted,
    ensures
        tracked_index(section_dependencies(entries, kind), name, wanted) is None,
{
    match lookup(entries, section_name(kind)) {
        Some(Node::Table(section)) => {
            lemma_tracked_in_section(section, kind, name, wanted);
        },
        _ => {},
    }
}

/// Setting the version of a dependency keeps a manifest consistent, where
/// the version is read back as it was written.
pub proof fn lemma_with_dependency_consistent(m: ManifestView, name: Seq<char>, version: SemVerView)
    requires
        consistent(m),
        reads_back(version),
    ensures
        consistent(with_dependency(m, name, version)),
{
    let first = section_step(m, DependencyType::Normal, name, version);
    let second = section_step(first, DependencyType::Dev, name, version);
    lemma_section_step_consistent(m, DependencyType::Normal, name, version);
    lemma_section_step_consistent(first, DependencyType::Dev, name, version);
    lemma_section_step_consistent(second, DependencyType::Build, name, version);
}

} // verus!
