//! One package manifest: identity, version and dependency entries, read from
//! and written back into the document that holds them.

use crate::document::{
    child, distinct_keys, document_entries, item_as_str, item_as_table, item_get,
    item_node, keys_of, lemma_lookup_at, lemma_replaced_same, lookup, parse_document,
    render_document, rendered, replace_nested_text, replace_text, replaced, root_table,
    table_entries, table_get, toml_parse, with_child, Node,
};
use crate::manifest_laws::{lemma_set_version_consistent, lemma_with_dependency_consistent};
use crate::semantic_version::{semver_parse, version_text, SemVer, SemVerView};
use crate::text::{is_prefix, starts_with, str_eq};
use vstd::prelude::*;
use vstd::string::*;

verus! {

/// The section of a manifest that declares a dependency.
#[derive(Debug, Clone, Copy, PartialEq, Eq, Structural)]
pub enum DependencyType {
    Normal,
    Dev,
    Build,
}

/// A field that a manifest must carry.
#[derive(Debug, Clone, Copy, PartialEq, Eq, Structural)]
pub enum ManifestField {
    Name,
    Version,
}

/// Why a manifest could not be loaded.
#[derive(Debug, Clone, Copy, PartialEq, Eq, Structural)]
pub enum ManifestError {
    /// The text is not a TOML document.
    ParseError,
    /// The package section lacks the field, or holds something other than a
    /// string under it.
    MissingField(ManifestField),
    /// The package version is not a semantic version.
    InvalidVersion,
}

/// What the error says.
pub open spec fn manifest_error_text(e: ManifestError) -> Seq<char> {
    match e {
        ManifestError::ParseError => "Failed to parse the manifest"@,
        ManifestError::MissingField(ManifestField::Name) => "Missing package.name"@,
        ManifestError::MissingField(ManifestField::Version) => "Missing package.version"@,
        ManifestError::InvalidVersion => "Invalid version in package.version"@,
    }
}

impl ManifestError {
    /// What the error says.
    pub fn message(&self) -> (r: String)
        ensures
            r@ == manifest_error_text(*self),
    {
        match self {
            ManifestError::ParseError => String::from_str("Failed to parse the manifest"),
            ManifestError::MissingField(ManifestField::Name) => String::from_str(
                "Missing package.name",
            ),
            ManifestError::MissingField(ManifestField::Version) => String::from_str(
                "Missing package.version",
            ),
            ManifestError::InvalidVersion => String::from_str("Invalid version in package.version"),
        }
    }
}

/// One dependency entry of a manifest.
#[derive(Debug, Clone, PartialEq, Eq)]
pub struct Dependency {
    pub name: String,
    /// The version that the entry declares, where it declares one that reads
    /// as a semantic version.
    pub version: Option<SemVer>,
    pub dep_type: DependencyType,
    /// Whether the entry carries a `path` key, and so resolves locally.
    pub has_path: bool,
}

/// What a [`Dependency`] stands for.
pub struct DependencyView {
    pub name: Seq<char>,
    pub version: Option<SemVerView>,
    pub dep_type: DependencyType,
    pub has_path: bool,
}

impl View for Dependency {
    type V = DependencyView;

    open spec fn view(&self) -> DependencyView {
        DependencyView {
            name: self.name@,
            version: match self.version {
                Some(v) => Some(v@),
                None => None,
            },
            dep_type: self.dep_type,
            has_path: self.has_path,
        }
    }
}

/// A package manifest. The document is the authority on what is written
/// out; the other fields are what was read from it.
#[derive(Debug)]
pub struct CargoManifest {
    pub path: String,
    pub package_name: String,
    pub version: SemVer,
    pub dependencies: Vec<Dependency>,
    pub document: toml_edit::DocumentMut,
}

/// What a [`CargoManifest`] stands for.
pub struct ManifestView {
    pub path: Seq<char>,
    pub package_name: Seq<char>,
    pub version: SemVerView,
    pub dependencies: Seq<DependencyView>,
    /// The root entries of the document.
    pub entries: Seq<(Seq<char>, Node)>,
}

/// The views of a sequence of dependencies.
pub open spec fn dependency_views(deps: Seq<Dependency>) -> Seq<DependencyView> {
    deps.map_values(|d: Dependency| d@)
}

/// The name of the section that declares dependencies of kind `kind`.
pub open spec fn section_name(kind: DependencyType) -> Seq<char> {
    match kind {
        DependencyType::Normal => "dependencies"@,
        DependencyType::Dev => "dev-dependencies"@,
        DependencyType::Build => "build-dependencies"@,
    }
}

/// The string under `field` of the package section.
pub open spec fn package_field(entries: Seq<(Seq<char>, Node)>, field: Seq<char>) -> Option<
    Seq<char>,
> {
    match lookup(entries, "package"@) {
        Some(package) => match child(package, field) {
            Some(Node::Text(text)) => Some(text),
            _ => None,
        },
        None => None,
    }
}

/// The version text of a dependency entry: the entry itself where it is a
/// bare string, the string under its `version` key where it is a table.
pub open spec fn declared_version(entry: Node) -> Option<Seq<char>> {
    match entry {
        Node::Text(text) => Some(text),
        _ => match child(entry, "version"@) {
            Some(Node::Text(text)) => Some(text),
            _ => None,
        },
    }
}

/// The dependency that the entry `name = entry` of a section declares.
pub open spec fn dependency_of(name: Seq<char>, entry: Node, kind: DependencyType) -> DependencyView {
    DependencyView {
        name,
        version: match declared_version(entry) {
            Some(text) => semver_parse(text),
            None => None,
        },
        dep_type: kind,
        has_path: child(entry, "path"@) is Some,
    }
}

/// The dependencies that the entries of one section declare, in order.
pub open spec fn entries_dependencies(
    entries: Seq<(Seq<char>, Node)>,
    kind: DependencyType,
) -> Seq<DependencyView> {
    Seq::new(entries.len(), |i: int| dependency_of(entries[i].0, entries[i].1, kind))
}

/// The dependencies of the section of kind `kind`: those of its entries
/// where the document has the section as a table under a header, none
/// otherwise.
pub open spec fn section_dependencies(
    entries: Seq<(Seq<char>, Node)>,
    kind: DependencyType,
) -> Seq<DependencyView> {
    match lookup(entries, section_name(kind)) {
        Some(Node::Table(section)) => entries_dependencies(section, kind),
        _ => Seq::empty(),
    }
}

/// All dependencies of a document: normal ones first, then those for
/// development, then those for the build.
pub open spec fn document_dependencies(entries: Seq<(Seq<char>, Node)>) -> Seq<DependencyView> {
    section_dependencies(entries, DependencyType::Normal) + section_dependencies(
        entries,
        DependencyType::Dev,
    ) + section_dependencies(entries, DependencyType::Build)
}

/// What loading the text `content` found at `path` gives.
pub open spec fn load_outcome(path: Seq<char>, content: Seq<char>) -> Result<
    ManifestView,
    ManifestError,
> {
    match toml_parse(content) {
        None => Err(ManifestError::ParseError),
        Some(entries) => match package_field(entries, "name"@) {
            None => Err(ManifestError::MissingField(ManifestField::Name)),
            Some(name) => match package_field(entries, "version"@) {
                None => Err(ManifestError::MissingField(ManifestField::Version)),
                Some(text) => match semver_parse(text) {
                    None => Err(ManifestError::InvalidVersion),
                    Some(version) => Ok(
                        ManifestView {
                            path,
                            package_name: name,
                            version,
                            dependencies: document_dependencies(entries),
                            entries,
                        },
                    ),
                },
            },
        },
    }
}

/// The fields of the manifest say what its document says: the package
/// section holds the name and a text that reads as the version, and the
/// dependencies are those that the three sections declare.
pub open spec fn consistent(m: ManifestView) -> bool {
    &&& package_field(m.entries, "name"@) == Some(m.package_name)
    &&& package_field(m.entries, "version"@) matches Some(text) && semver_parse(text) == Some(
        m.version,
    )
    &&& m.dependencies == document_dependencies(m.entries)
}

/// The version is read back from its text as it was written.
pub open spec fn reads_back(version: SemVerView) -> bool {
    semver_parse(version_text(version)) == Some(version)
}

/// The document with `text` as its package version. A document without a
/// package version is left as it is.
pub open spec fn with_package_version(entries: Seq<(Seq<char>, Node)>, text: Seq<char>) -> Seq<
    (Seq<char>, Node),
> {
    match lookup(entries, "package"@) {
        Some(package) => if child(package, "version"@) is Some {
            replaced(entries, "package"@, with_child(package, "version"@, Node::Text(text)))
        } else {
            entries
        },
        None => entries,
    }
}

/// The dependency entry with `text` as its version: a bare string is
/// replaced whole, a table has the item under its `version` key replaced and
/// keeps every other key. An entry that declares no version is left alone.
pub open spec fn entry_with_version(entry: Node, text: Seq<char>) -> Node {
    match entry {
        Node::Text(_) => Node::Text(text),
        _ => if child(entry, "version"@) is Some {
            with_child(entry, "version"@, Node::Text(text))
        } else {
            entry
        },
    }
}

/// Whether the section `section` holds an entry `name` that declares a
/// version.
pub open spec fn section_declares(
    entries: Seq<(Seq<char>, Node)>,
    section: Seq<char>,
    name: Seq<char>,
) -> bool {
    match lookup(entries, section) {
        Some(Node::Table(deps)) => match lookup(deps, name) {
            Some(entry) => entry is Text || child(entry, "version"@) is Some,
            None => false,
        },
        _ => false,
    }
}

/// The document with the version of `name` in the section `section` set to
/// `text`, where the section declares one.
pub open spec fn section_with_version(
    entries: Seq<(Seq<char>, Node)>,
    section: Seq<char>,
    name: Seq<char>,
    text: Seq<char>,
) -> Seq<(Seq<char>, Node)> {
    match lookup(entries, section) {
        Some(Node::Table(deps)) => match lookup(deps, name) {
            Some(entry) => replaced(
                entries,
                section,
                Node::Table(replaced(deps, name, entry_with_version(entry, text))),
            ),
            None => entries,
        },
        _ => entries,
    }
}

/// The index of the first dependency called `name` of kind `kind`.
pub open spec fn tracked_index(deps: Seq<DependencyView>, name: Seq<char>, kind: DependencyType) -> Option<
    int,
>
    decreases deps.len(),
{
    if deps.len() == 0 {
        None
    } else if deps[0].name == name && deps[0].dep_type == kind {
        Some(0)
    } else {
        match tracked_index(deps.skip(1), name, kind) {
            Some(i) => Some(i + 1),
            None => None,
        }
    }
}

/// The dependency list with `version` recorded for the first dependency
/// called `name` of kind `kind`, where `rewritten` says that its entry was
/// rewritten.
pub open spec fn tracked_with_version(
    deps: Seq<DependencyView>,
    name: Seq<char>,
    kind: DependencyType,
    version: SemVerView,
    rewritten: bool,
) -> Seq<DependencyView> {
    match tracked_index(deps, name, kind) {
        Some(i) => if rewritten {
            deps.update(i, DependencyView { version: Some(version), ..deps[i] })
        } else {
            deps
        },
        None => deps,
    }
}

/// Whether the name carries the prefix that the packages of the workspace
/// share.
pub open spec fn is_namespaced(name: Seq<char>) -> bool {
    is_prefix("embeddenator"@, name)
}

/// The dependencies whose name carries the workspace prefix, in order.
pub open spec fn namespaced_dependencies(deps: Seq<DependencyView>) -> Seq<DependencyView>
    decreases deps.len(),
{
    if deps.len() == 0 {
        Seq::empty()
    } else if is_namespaced(deps.last().name) {
        namespaced_dependencies(deps.drop_last()).push(deps.last())
    } else {
        namespaced_dependencies(deps.drop_last())
    }
}

/// The manifest after the section of kind `kind` was asked to carry
/// `version` for the dependency `name`: the entry is rewritten where the
/// section declares a version for it, and the first dependency of that name
/// and kind then records the version.
pub open spec fn section_step(
    m: ManifestView,
    kind: DependencyType,
    name: Seq<char>,
    version: SemVerView,
) -> ManifestView {
    ManifestView {
        entries: section_with_version(m.entries, section_name(kind), name, version_text(version)),
        dependencies: tracked_with_version(
            m.dependencies,
            name,
            kind,
            version,
            section_declares(m.entries, section_name(kind), name),
        ),
        ..m
    }
}

/// The manifest after `version` was set for the dependency `name` in the
/// three sections, one after the other.
pub open spec fn with_dependency(m: ManifestView, name: Seq<char>, version: SemVerView) -> ManifestView {
    section_step(
        section_step(
            section_step(m, DependencyType::Normal, name, version),
            DependencyType::Dev,
            name,
            version,
        ),
        DependencyType::Build,
        name,
        version,
    )
}

/// Whether the name carries the prefix that the packages of the workspace
/// share.
pub fn has_namespace(name: &str) -> (r: bool)
    ensures
        r == is_namespaced(name@),
{
    starts_with(name, "embeddenator")
}

impl Dependency {
    /// A copy of this dependency.
    pub fn duplicate(&self) -> (r: Dependency)
        ensures
            r@ == self@,
    {
        Dependency {
            name: self.name.clone(),
            version: match &self.version {
                Some(v) => Some(v.duplicate()),
                None => None,
            },
            dep_type: self.dep_type,
            has_path: self.has_path,
        }
    }
}

/// The version that a string item declares, where it reads as one.
fn read_version(item: &toml_edit::Item) -> (r: Option<SemVer>)
    ensures
        match r {
            Some(v) => item_node(*item) matches Node::Text(text) && semver_parse(text) == Some(v@),
            None => item_node(*item) matches Node::Text(text) ==> semver_parse(text) is None,
        },
{
    match item_as_str(item) {
        Some(text) => match SemVer::parse(text) {
            Ok(v) => Some(v),
            Err(_) => None,
        },
        None => None,
    }
}

/// The string under `field` of the package section.
fn read_package_field(root: &toml_edit::Table, field: &str) -> (r: Option<String>)
    ensures
        match r {
            Some(text) => package_field(table_entries(*root), field@) == Some(text@),
            None => package_field(table_entries(*root), field@) is None,
        },
{
    match table_get(root, "package") {
        Some(package) => match item_get(package, field) {
            Some(item) => match item_as_str(item) {
                Some(text) => Some(String::from_str(text)),
                None => None,
            },
            None => None,
        },
        None => None,
    }
}

/// The dependencies of the section of kind `kind`, appended to `out`.
fn read_section(root: &toml_edit::Table, kind: DependencyType, out: &mut Vec<Dependency>)
    ensures
        dependency_views(final(out)@) == dependency_views(old(out)@) + section_dependencies(
            table_entries(*root),
            kind,
        ),
{
    let section = match kind {
        DependencyType::Normal => "dependencies",
        DependencyType::Dev => "dev-dependencies",
        DependencyType::Build => "build-dependencies",
    };
    assert(section@ == section_name(kind));
    let table = match table_get(root, section) {
        Some(item) => match item_as_table(item) {
            Some(table) => table,
            None => {
                assert(dependency_views(out@) + Seq::<DependencyView>::empty() == dependency_views(
                    out@,
                ));
                return ;
            },
        },
        None => {
            assert(dependency_views(out@) + Seq::<DependencyView>::empty() == dependency_views(
                out@,
            ));
            return ;
        },
    };
    let keys = keys_of(table);
    let ghost entries = table_entries(*table);
    let ghost before = dependency_views(out@);
    let ghost wanted = entries_dependencies(entries, kind);
    let mut i: usize = 0;
    assert(before + wanted.take(0) == before);
    while i < keys.len()
        invariant
            i <= keys.len(),
            keys@.len() == entries.len(),
            entries == table_entries(*table),
            wanted == entries_dependencies(entries, kind),
            distinct_keys(entries),
            forall|k: int| 0 <= k < keys@.len() ==> (#[trigger] keys@[k])@ == entries[k].0,
            dependency_views(out@) == before + wanted.take(i as int),
        decreases keys.len() - i,
    {
        let name = keys[i].as_str();
        proof {
            lemma_lookup_at(entries, i as int);
        }
        match table_get(table, name) {
            Some(item) => {
                let dep = CargoManifest::parse_dependency(name, item, kind);
                let ghost previous = out@;
                out.push(dep);
                proof {
                    assert(dep@ == wanted[i as int]);
                    assert(dependency_views(out@) == dependency_views(previous).push(dep@));
                    assert(wanted.take(i + 1) == wanted.take(i as int).push(wanted[i as int]));
                    assert(before + wanted.take(i + 1) == (before + wanted.take(i as int)).push(
                        wanted[i as int],
                    ));
                }
            },
            None => {
                assert(false);
            },
        }
        i += 1;
    }
    assert(wanted.take(keys.len() as int) == wanted);
}

impl View for CargoManifest {
    type V = ManifestView;

    open spec fn view(&self) -> ManifestView {
        ManifestView {
            path: self.path@,
            package_name: self.package_name@,
            version: self.version@,
            dependencies: dependency_views(self.dependencies@),
            entries: document_entries(self.document),
        }
    }
}

impl CargoManifest {
    /// Loads the manifest found at `path` from its text.
    ///
    /// The text must be a TOML document whose package section holds a name
    /// and a version as strings, the version a semantic version. The
    /// dependencies are read from the three dependency sections. The
    /// manifest that is returned is consistent with its document.
    pub fn load(path: &str, content: &str) -> (r: Result<CargoManifest, ManifestError>)
        ensures
            match r {
                Ok(manifest) => load_outcome(path@, content@) == Ok::<ManifestView, ManifestError>(
                    manifest@,
                ) && consistent(manifest@),
                Err(e) => load_outcome(path@, content@) == Err::<ManifestView, ManifestError>(e),
            },
    {
        let document = match parse_document(content) {
            Ok(document) => document,
            Err(_) => {
                return Err(ManifestError::ParseError);
            },
        };
        let root = root_table(&document);
        let package_name = match read_package_field(root, "name") {
            Some(name) => name,
            None => {
                return Err(ManifestError::MissingField(ManifestField::Name));
            },
        };
        let version_text = match read_package_field(root, "version") {
            Some(text) => text,
            None => {
                return Err(ManifestError::MissingField(ManifestField::Version));
            },
        };
        let version = match SemVer::parse(version_text.as_str()) {
            Ok(version) => version,
            Err(_) => {
                return Err(ManifestError::InvalidVersion);
            },
        };
        let mut dependencies: Vec<Dependency> = Vec::new();
        assert(dependency_views(dependencies@) == Seq::<DependencyView>::empty());
        read_section(root, DependencyType::Normal, &mut dependencies);
        read_section(root, DependencyType::Dev, &mut dependencies);
        read_section(root, DependencyType::Build, &mut dependencies);
        assert(dependency_views(dependencies@) == document_dependencies(
            document_entries(document),
        ));
        Ok(
            CargoManifest {
                path: String::from_str(path),
                package_name,
                version,
                dependencies,
                document,
            },
        )
    }

    /// The dependency that one entry of a section declares.
    pub(crate) fn parse_dependency(name: &str, item: &toml_edit::Item, kind: DependencyType) -> (r:
        Dependency)
        ensures
            r@ == dependency_of(name@, item_node(*item), kind),
    {
        let version = match item_as_str(item) {
            Some(_) => read_version(item),
            None => match item_get(item, "version") {
                Some(inner) => read_version(inner),
                None => None,
            },
        };
        let has_path = item_get(item, "path").is_some();
        Dependency { name: String::from_str(name), version, dep_type: kind, has_path }
    }

    /// Sets the package version, in the field and in the document. A
    /// consistent manifest stays consistent, where the version is read back
    /// as it is written.
    pub fn set_version(&mut self, new_version: &SemVer)
        ensures
            final(self)@ == (ManifestView {
                version: new_version@,
                entries: with_package_version(old(self)@.entries, version_text(new_version@)),
                ..old(self)@
            }),
            consistent(old(self)@) && reads_back(new_version@) ==> consistent(final(self)@),
    {
        proof {
            if consistent(self@) && reads_back(new_version@) {
                lemma_set_version_consistent(self@, new_version@);
            }
        }
        let text = new_version.to_string();
        let present = match table_get(root_table(&self.document), "package") {
            Some(package) => item_get(package, "version").is_some(),
            None => false,
        };
        if present {
            replace_text(&mut self.document, "package", "version", text.as_str());
        }
        self.version = new_version.duplicate();
    }

    /// The dependencies whose name carries the workspace prefix.
    pub fn embeddenator_dependencies(&self) -> (r: Vec<&Dependency>)
        ensures
            r@.map_values(|d: &Dependency| d@) == namespaced_dependencies(self@.dependencies),
    {
        let mut out: Vec<&Dependency> = Vec::new();
        let ghost all = dependency_views(self.dependencies@);
        let mut i: usize = 0;
        assert(all.take(0) == Seq::<DependencyView>::empty());
        while i < self.dependencies.len()
            invariant
                i <= self.dependencies.len(),
                all == dependency_views(self.dependencies@),
                out@.map_values(|d: &Dependency| d@) == namespaced_dependencies(all.take(i as int)),
            decreases self.dependencies.len() - i,
        {
            let dep = &self.dependencies[i];
            proof {
                assert(all.take(i + 1).drop_last() == all.take(i as int));
                assert(all.take(i + 1).last() == dep@);
            }
            if has_namespace(dep.name.as_str()) {
                let ghost previous = out@;
                out.push(dep);
                assert(out@.map_values(|d: &Dependency| d@) == previous.map_values(
                    |d: &Dependency| d@,
                ).push(dep@));
            }
            i += 1;
        }
        assert(all.take(self.dependencies.len() as int) == all);
        out
    }

    /// Records `version` for the first dependency called `name` of kind
    /// `kind`, where there is one.
    fn track_version(&mut self, name: &str, kind: DependencyType, version: &SemVer)
        ensures
            final(self)@ == (ManifestView {
                dependencies: tracked_with_version(
                    old(self)@.dependencies,
                    name@,
                    kind,
                    version@,
                    true,
                ),
                ..old(self)@
            }),
    {
        let ghost all = dependency_views(self.dependencies@);
        let mut i: usize = 0;
        assert(all.skip(0) == all);
        while i < self.dependencies.len()
            invariant
                i <= self.dependencies.len(),
                all == dependency_views(self.dependencies@),
                *self == *old(self),
                tracked_index(all, name@, kind) == match tracked_index(
                    all.skip(i as int),
                    name@,
                    kind,
                ) {
                    Some(k) => Some(k + i),
                    None => None,
                },
            decreases self.dependencies.len() - i,
        {
            let found = str_eq(self.dependencies[i].name.as_str(), name)
                && self.dependencies[i].dep_type == kind;
            proof {
                assert(all.skip(i as int)[0] == self.dependencies@[i as int]@);
                assert(all.skip(i as int).skip(1) == all.skip(i + 1));
            }
            if found {
                let mut dep = self.dependencies[i].duplicate();
                dep.version = Some(version.duplicate());
                self.dependencies.set(i, dep);
                assert(dependency_views(self.dependencies@) == all.update(
                    i as int,
                    DependencyView { version: Some(version@), ..all[i as int] },
                ));
                return ;
            }
            i += 1;
        }
    }

    /// Sets the version of the dependency `name` in the section of kind
    /// `kind`.
    fn update_section(&mut self, kind: DependencyType, name: &str, version: &SemVer, text: &str)
        requires
            text@ == version_text(version@),
        ensures
            final(self)@ == section_step(old(self)@, kind, name@, version@),
    {
        let section = match kind {
            DependencyType::Normal => "dependencies",
            DependencyType::Dev => "dev-dependencies",
            DependencyType::Build => "build-dependencies",
        };
        assert(section@ == section_name(kind));
        let ghost before = document_entries(self.document);
        // 0: nothing to rewrite, 1: a bare string, 2: a table with a version
        let form: u8 = match table_get(root_table(&self.document), section) {
            Some(item) => match item_as_table(item) {
                Some(table) => match table_get(table, name) {
                    Some(entry) => {
                        proof {
                            lemma_replaced_same(table_entries(*table), name@);
                            lemma_replaced_same(before, section@);
                        }
                        if item_as_str(entry).is_some() {
                            1
                        } else if item_get(entry, "version").is_some() {
                            2
                        } else {
                            0
                        }
                    },
                    None => 0,
                },
                None => 0,
            },
            None => 0,
        };
        if form == 1 {
            replace_text(&mut self.document, section, name, text);
            self.track_version(name, kind, version);
        } else if form == 2 {
            replace_nested_text(&mut self.document, section, name, "version", text);
            self.track_version(name, kind, version);
        }
    }

    /// Sets the version that this manifest declares for the dependency
    /// `dep_name`, wherever one of the three sections declares one.
    ///
    /// A bare version string is replaced whole. A table has only the item
    /// under its `version` key replaced: its other keys stay as they are. An
    /// entry that declares no version is not touched. A consistent manifest
    /// stays consistent, where the version is read back as it is written.
    pub fn update_dependency(&mut self, dep_name: &str, new_version: &SemVer)
        ensures
            final(self)@ == with_dependency(old(self)@, dep_name@, new_version@),
            consistent(old(self)@) && reads_back(new_version@) ==> consistent(final(self)@),
    {
        proof {
            if consistent(self@) && reads_back(new_version@) {
                lemma_with_dependency_consistent(self@, dep_name@, new_version@);
            }
        }
        let text = new_version.to_string();
        self.update_section(DependencyType::Normal, dep_name, new_version, text.as_str());
        self.update_section(DependencyType::Dev, dep_name, new_version, text.as_str());
        self.update_section(DependencyType::Build, dep_name, new_version, text.as_str());
    }

    /// The text to write back to `path`: the document as edited, with
    /// everything that was not edited as it was read.
    pub fn save(&self) -> (text: String)
        ensures
            text@ == rendered(self.document),
    {
        render_document(&self.document)
    }
}

} // verus!
