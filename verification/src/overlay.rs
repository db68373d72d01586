//! The overlay document: the side file in which override sections redirect
//! remote dependencies to local paths, one section per remote source.

use crate::document::{
    binds, children, distinct_keys, document_entries, index_of, insert_empty_table,
    insert_text_table, item_as_table, keys_of, lemma_binds, lemma_index_of,
    lemma_lookup_at, lookup, new_document, parse_document, remove_key, render_document, rendered,
    replaced, root_table, table_entries, table_get, toml_parse, without, Node,
};
use crate::patch::{
    git_views, joined_path, GitDependency, GitDependencyView, PatchManager, PatchReport,
    ResetReport,
};
use crate::text::{is_prefix, starts_with, str_eq};
use vstd::prelude::*;
use vstd::string::*;

verus! {

/// An overlay document, as read or as new.
#[derive(Debug)]
pub struct PatchConfig {
    pub document: toml_edit::DocumentMut,
}

/// Why an overlay operation failed.
#[derive(Debug, Clone, Copy, PartialEq, Eq, Structural)]
pub enum PatchError {
    /// The overlay document is not TOML.
    ParseError,
}

impl PatchError {
    /// What the error says.
    pub fn message(&self) -> (r: String)
        ensures
            r@ == "Failed to parse the overlay document"@,
    {
        String::from_str("Failed to parse the overlay document")
    }
}

/// The key of the override section for the remote source `url`: the word
/// `patch`, a dot, and the URL between double quotes.
pub open spec fn patch_key(url: Seq<char>) -> Seq<char> {
    "patch.\""@ + url + "\""@
}

/// The override entry for a package at `path`: a table whose one key,
/// `path`, holds the local path.
pub open spec fn path_entry(path: Seq<char>) -> Node {
    Node::Table(seq![("path"@, Node::Text(path))])
}

/// Whether the document can take an override for `dep`: it has no item
/// under the key of the section, or a table.
pub open spec fn takes_override(entries: Seq<(Seq<char>, Node)>, dep: GitDependencyView) -> bool {
    match lookup(entries, patch_key(dep.git_url)) {
        None => true,
        Some(node) => node is Table,
    }
}

/// `after` is `before` with the override for `dep` written: the section of
/// its remote source exists, created where it was missing, and holds the
/// entry for the package under its name. A document that holds something
/// other than a table under the key of the section stays as it is.
pub open spec fn patched(
    before: Seq<(Seq<char>, Node)>,
    dep: GitDependencyView,
    after: Seq<(Seq<char>, Node)>,
) -> bool {
    let key = patch_key(dep.git_url);
    match lookup(before, key) {
        None => exists|created: Seq<(Seq<char>, Node)>| #[trigger]
            binds(before, created, key, Node::Table(Seq::empty())) && after == replaced(
                created,
                key,
                Node::Table(seq![(dep.name, path_entry(dep.local_path))]),
            ),
        Some(Node::Table(section)) => exists|updated: Seq<(Seq<char>, Node)>| #[trigger]
            binds(section, updated, dep.name, path_entry(dep.local_path)) && after == replaced(
                before,
                key,
                Node::Table(updated),
            ),
        Some(_) => after == before,
    }
}

/// `after` is `before` with the overrides for `deps` written one after the
/// other.
pub open spec fn patched_all(
    before: Seq<(Seq<char>, Node)>,
    deps: Seq<GitDependencyView>,
    after: Seq<(Seq<char>, Node)>,
) -> bool
    decreases deps.len(),
{
    if deps.len() == 0 {
        after == before
    } else {
        exists|mid: Seq<(Seq<char>, Node)>| #[trigger]
            patched(mid, deps.last(), after) && patched_all(before, deps.drop_last(), mid)
    }
}

/// The number of dependencies among `deps` for which the document can take
/// an override.
pub open spec fn written_count(entries: Seq<(Seq<char>, Node)>, deps: Seq<GitDependencyView>) -> nat
    decreases deps.len(),
{
    if deps.len() == 0 {
        0
    } else {
        written_count(entries, deps.drop_last()) + (if takes_override(entries, deps.last()) {
            1nat
        } else {
            0nat
        })
    }
}

/// Writing an override changes for no key whether the document can take
/// overrides under it: a section stays a table, a missing section is created
/// as one, and anything else stays what it is.
pub proof fn lemma_patched_keeps_takers(
    before: Seq<(Seq<char>, Node)>,
    dep: GitDependencyView,
    after: Seq<(Seq<char>, Node)>,
    other: GitDependencyView,
)
    requires
        patched(before, dep, after),
    ensures
        takes_override(after, other) == takes_override(before, other),
{
    let key = patch_key(dep.git_url);
    let probe = patch_key(other.git_url);
    match lookup(before, key) {
        None => {
            let created = choose|created: Seq<(Seq<char>, Node)>| #[trigger]
                binds(before, created, key, Node::Table(Seq::empty())) && after == replaced(
                    created,
                    key,
                    Node::Table(seq![(dep.name, path_entry(dep.local_path))]),
                );
            lemma_binds(before, created, key, Node::Table(Seq::empty()));
            crate::document::lemma_lookup_replaced(
                created,
                key,
                Node::Table(seq![(dep.name, path_entry(dep.local_path))]),
                probe,
            );
        },
        Some(Node::Table(section)) => {
            let updated = choose|updated: Seq<(Seq<char>, Node)>| #[trigger]
                binds(section, updated, dep.name, path_entry(dep.local_path)) && after == replaced(
                    before,
                    key,
                    Node::Table(updated),
                );
            crate::document::lemma_lookup_replaced(before, key, Node::Table(updated), probe);
        },
        Some(_) => {},
    }
}

/// A run of overrides changes for no key whether the document can take
/// overrides under it.
pub proof fn lemma_patched_all_keeps_takers(
    before: Seq<(Seq<char>, Node)>,
    deps: Seq<GitDependencyView>,
    after: Seq<(Seq<char>, Node)>,
    other: GitDependencyView,
)
    requires
        patched_all(before, deps, after),
    ensures
        takes_override(after, other) == takes_override(before, other),
    decreases deps.len(),
{
    if deps.len() > 0 {
        let mid = choose|mid: Seq<(Seq<char>, Node)>| #[trigger]
            patched(mid, deps.last(), after) && patched_all(before, deps.drop_last(), mid);
        lemma_patched_all_keeps_takers(before, deps.drop_last(), mid, other);
        lemma_patched_keeps_takers(mid, deps.last(), after, other);
    }
}

/// Whether `key` is the key of an override section: `patch` itself, under
/// which sections nest, or a key that begins with `patch.`.
pub open spec fn is_override_key(key: Seq<char>) -> bool {
    key == "patch"@ || is_prefix("patch."@, key)
}

/// The number of entries of a table; none for any other item.
pub open spec fn table_size(node: Node) -> nat {
    match node {
        Node::Table(entries) => entries.len(),
        _ => 0,
    }
}

/// The number of override entries in the sections nested under `patch`.
pub open spec fn nested_entries(sources: Seq<(Seq<char>, Node)>) -> nat
    decreases sources.len(),
{
    if sources.len() == 0 {
        0
    } else {
        nested_entries(sources.drop_last()) + table_size(sources.last().1)
    }
}

/// The number of override entries that the item `node` under `key` holds.
pub open spec fn entry_count(key: Seq<char>, node: Node) -> nat {
    if key == "patch"@ {
        match node {
            Node::Table(sources) => nested_entries(sources),
            _ => 0,
        }
    } else if is_prefix("patch."@, key) {
        table_size(node)
    } else {
        0
    }
}

/// The number of override entries in a document.
pub open spec fn override_entries(entries: Seq<(Seq<char>, Node)>) -> nat
    decreases entries.len(),
{
    if entries.len() == 0 {
        0
    } else {
        override_entries(entries.drop_last()) + entry_count(entries.last().0, entries.last().1)
    }
}

/// The entries that are no override sections, in order.
pub open spec fn kept(entries: Seq<(Seq<char>, Node)>) -> Seq<(Seq<char>, Node)>
    decreases entries.len(),
{
    if entries.len() == 0 {
        Seq::empty()
    } else if is_override_key(entries.last().0) {
        kept(entries.drop_last())
    } else {
        kept(entries.drop_last()).push(entries.last())
    }
}

/// `n` as a machine count: itself where it fits, the largest count where it
/// does not.
pub open spec fn capped(n: nat) -> usize {
    if n > usize::MAX {
        usize::MAX
    } else {
        n as usize
    }
}

/// The sum of two counts, capped.
fn add_capped(a: usize, b: usize) -> (r: usize)
    ensures
        r == capped((a + b) as nat),
{
    if b > usize::MAX - a {
        usize::MAX
    } else {
        a + b
    }
}

/// The key of the override section for the remote source `url`.
pub fn patch_key_for(url: &str) -> (r: String)
    ensures
        r@ == patch_key(url@),
{
    let mut key = String::from_str("patch.\"");
    key.append(url);
    key.append("\"");
    key
}

/// Whether `key` is the key of an override section.
pub fn is_override(key: &str) -> (r: bool)
    ensures
        r == is_override_key(key@),
{
    str_eq(key, "patch") || starts_with(key, "patch.")
}

/// The number of entries in the sections of `sources`.
fn count_nested(sources: &toml_edit::Table) -> (r: usize)
    ensures
        r == capped(nested_entries(table_entries(*sources))),
{
    let keys = keys_of(sources);
    let ghost entries = table_entries(*sources);
    let mut total: usize = 0;
    let mut i: usize = 0;
    assert(entries.take(0) == Seq::<(Seq<char>, Node)>::empty());
    while i < keys.len()
        invariant
            i <= keys.len(),
            keys@.len() == entries.len(),
            entries == table_entries(*sources),
            distinct_keys(entries),
            forall|k: int| 0 <= k < keys@.len() ==> (#[trigger] keys@[k])@ == entries[k].0,
            total == capped(nested_entries(entries.take(i as int))),
        decreases keys.len() - i,
    {
        proof {
            lemma_lookup_at(entries, i as int);
            assert(entries.take(i + 1).drop_last() == entries.take(i as int));
            assert(entries.take(i + 1).last() == entries[i as int]);
        }
        let size = match table_get(sources, keys[i].as_str()) {
            Some(item) => match item_as_table(item) {
                Some(section) => keys_of(section).len(),
                None => 0,
            },
            None => 0,
        };
        assert(size == table_size(entries[i as int].1));
        total = add_capped(total, size);
        i += 1;
    }
    assert(entries.take(keys.len() as int) == entries);
    total
}

/// The number of override entries that the item under `key` holds.
fn count_entry(root: &toml_edit::Table, key: &str) -> (r: usize)
    requires
        lookup(table_entries(*root), key@) is Some,
    ensures
        r == capped(entry_count(key@, lookup(table_entries(*root), key@)->Some_0)),
{
    if str_eq(key, "patch") {
        match table_get(root, key) {
            Some(item) => match item_as_table(item) {
                Some(sources) => count_nested(sources),
                None => 0,
            },
            None => 0,
        }
    } else if starts_with(key, "patch.") {
        match table_get(root, key) {
            Some(item) => match item_as_table(item) {
                Some(section) => keys_of(section).len(),
                None => 0,
            },
            None => 0,
        }
    } else {
        0
    }
}

/// Removing the entry at the seam between what was kept and what is still
/// to be looked at moves the seam on.
proof fn lemma_remove_at_seam(entries: Seq<(Seq<char>, Node)>, i: int)
    requires
        distinct_keys(entries),
        0 <= i < entries.len(),
    ensures
        kept(entries.take(i)).len() <= i,
        without(kept(entries.take(i)) + entries.skip(i), entries[i].0) == kept(entries.take(i))
            + entries.skip(i + 1),
{
    let front = kept(entries.take(i));
    let current = front + entries.skip(i);
    let key = entries[i].0;
    lemma_kept_from(entries.take(i));
    lemma_index_of(current, key);
    assert(current[front.len() as int] == entries[i]);
    match index_of(current, key) {
        Some(j) => {
            if j < front.len() {
                assert(current[j] == front[j]);
                let w = choose|w: int|
                    0 <= w < entries.take(i).len() && entries.take(i)[w] == front[j];
                assert(entries[w].0 == key);
            }
            assert(j == front.len());
            assert(current.remove(j) =~= front + entries.skip(i + 1));
        },
        None => {},
    }
}

/// What is kept is taken from the entries, and is no longer than they are.
pub proof fn lemma_kept_from(entries: Seq<(Seq<char>, Node)>)
    ensures
        kept(entries).len() <= entries.len(),
        forall|k: int|
            0 <= k < kept(entries).len() ==> !is_override_key((#[trigger] kept(entries)[k]).0)
                && entries.contains(kept(entries)[k]),
    decreases entries.len(),
{
    if entries.len() > 0 {
        let front = entries.drop_last();
        lemma_kept_from(front);
        let out = kept(entries);
        assert forall|k: int| 0 <= k < out.len() implies !is_override_key((#[trigger] out[k]).0)
            && entries.contains(out[k]) by {
            if k < kept(front).len() {
                assert(out[k] == kept(front)[k]);
                let w = choose|w: int| 0 <= w < front.len() && front[w] == out[k];
                assert(entries[w] == out[k]);
            } else {
                assert(entries[entries.len() - 1] == out[k]);
            }
        }
    }
}

impl PatchConfig {
    /// The root entries of the overlay document.
    pub open spec fn entries(&self) -> Seq<(Seq<char>, Node)> {
        document_entries(self.document)
    }

    /// Opens the overlay document from its text, or a new one where there
    /// is no text.
    pub fn open(existing: Option<&str>) -> (r: Result<PatchConfig, PatchError>)
        ensures
            match existing {
                None => r matches Ok(config) && config.entries() == Seq::<
                    (Seq<char>, Node),
                >::empty(),
                Some(text) => match r {
                    Ok(config) => toml_parse(text@) == Some(config.entries()),
                    Err(e) => e == PatchError::ParseError && toml_parse(text@) is None,
                },
            },
    {
        match existing {
            None => Ok(PatchConfig { document: new_document() }),
            Some(text) => match parse_document(text) {
                Ok(document) => Ok(PatchConfig { document }),
                Err(_) => Err(PatchError::ParseError),
            },
        }
    }

    /// The document as text.
    pub fn render(&self) -> (text: String)
        ensures
            text@ == rendered(self.document),
    {
        render_document(&self.document)
    }

    /// Writes the override for one dependency. Says whether the document
    /// could take it.
    pub fn apply_one(&mut self, dep: &GitDependency) -> (written: bool)
        ensures
            patched(old(self).entries(), dep@, final(self).entries()),
            written == takes_override(old(self).entries(), dep@),
    {
        let key = patch_key_for(dep.git_url.as_str());
        let ghost before = self.entries();
        // 0: no section yet, 1: a section, 2: something else under the key
        let state: u8 = match table_get(root_table(&self.document), key.as_str()) {
            None => 0,
            Some(item) => if item_as_table(item).is_some() {
                1
            } else {
                2
            },
        };
        if state == 2 {
            return false;
        }
        if state == 0 {
            insert_empty_table(&mut self.document, key.as_str());
            proof {
                lemma_binds(before, self.entries(), key@, Node::Table(Seq::empty()));
            }
        }
        let ghost created = self.entries();
        insert_text_table(
            &mut self.document,
            key.as_str(),
            dep.name.as_str(),
            "path",
            dep.local_path.as_str(),
        );
        proof {
            let entry = path_entry(dep@.local_path);
            let section = children(lookup(created, key@)->Some_0);
            let updated = choose|updated: Seq<(Seq<char>, Node)>|
                binds(section, updated, dep@.name, entry) && self.entries() == replaced(
                    created,
                    key@,
                    Node::Table(updated),
                );
            if state == 0 {
                assert(section =~= Seq::<(Seq<char>, Node)>::empty());
                assert(index_of(section, dep@.name) is None);
                let at = choose|at: int|
                    0 <= at <= section.len() && updated == section.insert(at, (dep@.name, entry));
                assert(updated =~= seq![(dep@.name, entry)]);
                assert(binds(before, created, key@, Node::Table(Seq::empty())));
            } else {
                assert(binds(section, updated, dep@.name, entry));
            }
        }
        true
    }

    /// Writes the overrides for `deps`, one after the other. Returns the
    /// number of overrides written.
    pub fn apply(&mut self, deps: &Vec<GitDependency>) -> (count: usize)
        ensures
            patched_all(old(self).entries(), git_views(deps@), final(self).entries()),
            count == written_count(old(self).entries(), git_views(deps@)),
    {
        let ghost before = self.entries();
        let ghost all = git_views(deps@);
        let mut count: usize = 0;
        let mut i: usize = 0;
        assert(all.take(0) == Seq::<GitDependencyView>::empty());
        while i < deps.len()
            invariant
                i <= deps.len(),
                count <= i,
                all == git_views(deps@),
                patched_all(before, all.take(i as int), self.entries()),
                count == written_count(before, all.take(i as int)),
            decreases deps.len() - i,
        {
            let ghost mid = self.entries();
            let written = self.apply_one(&deps[i]);
            if written {
                count += 1;
            }
            proof {
                let now = all.take(i + 1);
                assert(now.drop_last() == all.take(i as int));
                assert(now.last() == deps@[i as int]@);
                lemma_patched_all_keeps_takers(before, now.drop_last(), mid, now.last());
                assert(patched(mid, now.last(), self.entries()));
            }
            i += 1;
        }
        assert(all.take(deps.len() as int) == all);
        count
    }

    /// Removes every override section. Returns the number of override
    /// entries that the sections held, and whether nothing is left.
    pub fn remove_overrides(&mut self) -> (r: (usize, bool))
        ensures
            final(self).entries() == kept(old(self).entries()),
            r.0 == capped(override_entries(old(self).entries())),
            r.1 == (kept(old(self).entries()).len() == 0),
    {
        let ghost entries = self.entries();
        let keys = keys_of(root_table(&self.document));
        let mut removed: usize = 0;
        let mut i: usize = 0;
        assert(entries.take(0) == Seq::<(Seq<char>, Node)>::empty());
        while i < keys.len()
            invariant
                i <= keys.len(),
                keys@.len() == entries.len(),
                entries == self.entries(),
                distinct_keys(entries),
                forall|k: int| 0 <= k < keys@.len() ==> (#[trigger] keys@[k])@ == entries[k].0,
                removed == capped(override_entries(entries.take(i as int))),
            decreases keys.len() - i,
        {
            proof {
                lemma_lookup_at(entries, i as int);
                assert(entries.take(i + 1).drop_last() == entries.take(i as int));
                assert(entries.take(i + 1).last() == entries[i as int]);
            }
            let size = count_entry(root_table(&self.document), keys[i].as_str());
            removed = add_capped(removed, size);
            i += 1;
        }
        assert(entries.take(keys.len() as int) == entries);
        let mut j: usize = 0;
        assert(kept(entries.take(0)) + entries.skip(0) == entries);
        while j < keys.len()
            invariant
                j <= keys.len(),
                keys@.len() == entries.len(),
                distinct_keys(entries),
                forall|k: int| 0 <= k < keys@.len() ==> (#[trigger] keys@[k])@ == entries[k].0,
                self.entries() == kept(entries.take(j as int)) + entries.skip(j as int),
            decreases keys.len() - j,
        {
            proof {
                assert(entries.take(j + 1).drop_last() == entries.take(j as int));
                assert(entries.take(j + 1).last() == entries[j as int]);
                lemma_remove_at_seam(entries, j as int);
            }
            if is_override(keys[j].as_str()) {
                remove_key(&mut self.document, keys[j].as_str());
            } else {
                assert(kept(entries.take(j as int)).push(entries[j as int]) + entries.skip(j + 1)
                    =~= kept(entries.take(j as int)) + entries.skip(j as int));
            }
            j += 1;
        }
        proof {
            assert(entries.take(keys.len() as int) == entries);
            assert(kept(entries) + entries.skip(keys.len() as int) =~= kept(entries));
        }
        let left = keys_of(root_table(&self.document)).len();
        (removed, left == 0)
    }
}

impl PatchManager {
    /// Writes the overrides for `deps` into the overlay document, of which
    /// `existing` is the text where there is one.
    ///
    /// The dependencies are taken in order. Each goes into the section of
    /// its remote source, which is created where the document lacks it, so
    /// that packages of one remote source share a section. The report counts
    /// the overrides written; the probe that verifies them has not run.
    pub fn apply_patches(&self, existing: Option<&str>, deps: &Vec<GitDependency>) -> (r: Result<
        (PatchReport, PatchConfig),
        PatchError,
    >)
        ensures
            match r {
                Ok((report, config)) => {
                    let before = match existing {
                        Some(text) => toml_parse(text@),
                        None => Some(Seq::<(Seq<char>, Node)>::empty()),
                    };
                    &&& before is Some
                    &&& patched_all(before->Some_0, git_views(deps@), config.entries())
                    &&& report.patched_count == written_count(before->Some_0, git_views(deps@))
                    &&& report.config_path@ == joined_path(
                        joined_path(self.workspace_root@, ".cargo"@),
                        "config.toml"@,
                    )
                    &&& !report.verified
                    &&& report.verification_error is None
                },
                Err(e) => e == PatchError::ParseError && (existing matches Some(text)
                    && toml_parse(text@) is None),
            },
    {
        let mut config = match PatchConfig::open(existing) {
            Ok(config) => config,
            Err(e) => {
                return Err(e);
            },
        };
        let patched_count = config.apply(deps);
        let report = PatchReport {
            patched_count,
            config_path: self.config_path(),
            verified: false,
            verification_error: None,
        };
        Ok((report, config))
    }

    /// Removes every override section from the overlay document, of which
    /// `existing` is the text where there is one.
    ///
    /// Without a document nothing is removed. Otherwise the report counts
    /// the override entries that the sections held, and says whether the
    /// document is to be deleted: it is where nothing but override sections
    /// stood in it. What is no override section stays, in its order.
    pub fn remove_patches(&self, existing: Option<&str>) -> (r: Result<
        (ResetReport, PatchConfig),
        PatchError,
    >)
        ensures
            match r {
                Ok((report, config)) => {
                    &&& report.config_path@ == joined_path(
                        joined_path(self.workspace_root@, ".cargo"@),
                        "config.toml"@,
                    )
                    &&& match existing {
                        None => report.removed_count == 0 && !report.config_deleted
                            && config.entries() == Seq::<(Seq<char>, Node)>::empty(),
                        Some(text) => toml_parse(text@) matches Some(before) && config.entries()
                            == kept(before) && report.removed_count == capped(
                            override_entries(before),
                        ) && report.config_deleted == (kept(before).len() == 0),
                    }
                },
                Err(e) => e == PatchError::ParseError && (existing matches Some(text)
                    && toml_parse(text@) is None),
            },
    {
        let mut config = match PatchConfig::open(existing) {
            Ok(config) => config,
            Err(e) => {
                return Err(e);
            },
        };
        if existing.is_none() {
            return Ok(
                (
                    ResetReport {
                        removed_count: 0,
                        config_path: self.config_path(),
                        config_deleted: false,
                    },
                    config,
                ),
            );
        }
        let (removed_count, config_deleted) = config.remove_overrides();
        Ok(
            (
                ResetReport { removed_count, config_path: self.config_path(), config_deleted },
                config,
            ),
        )
    }
}

} // verus!
