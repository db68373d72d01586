//! What holds of writing overrides into an overlay document and of taking
//! them out again.

use crate::document::{
    binds, distinct_keys, index_of, lemma_binds, lemma_index_of, lemma_lookup_at,
    lemma_lookup_insert, lemma_lookup_replaced, lookup, replaced, Node,
};
use crate::overlay::{
    entry_count, is_override_key, kept, lemma_kept_from, lemma_patched_all_keeps_takers,
    override_entries, patch_key, patched, patched_all, path_entry, table_size, takes_override,
    written_count,
};
use crate::patch::GitDependencyView;
use crate::text::is_prefix;
use vstd::prelude::*;

verus! {

/// The override entry under `name` in the section under `key`.
pub open spec fn override_at(entries: Seq<(Seq<char>, Node)>, key: Seq<char>, name: Seq<char>) -> Option<
    Node,
> {
    match lookup(entries, key) {
        Some(Node::Table(section)) => lookup(section, name),
        _ => None,
    }
}

/// The local path that the last of `deps` to write under `name` in the
/// section under `key` wrote there. Only dependencies for which the document
/// can take an override write.
pub open spec fn last_override(
    deps: Seq<GitDependencyView>,
    before: Seq<(Seq<char>, Node)>,
    key: Seq<char>,
    name: Seq<char>,
) -> Option<Seq<char>>
    decreases deps.len(),
{
    if deps.len() == 0 {
        None
    } else if takes_override(before, deps.last()) && patch_key(deps.last().git_url) == key
        && deps.last().name == name {
        Some(deps.last().local_path)
    } else {
        last_override(deps.drop_last(), before, key, name)
    }
}

/// The number of `deps` that write an entry where none stood: the document
/// can take the override, and neither the document nor an earlier dependency
/// has an entry for the package under that remote source.
pub open spec fn new_entries(before: Seq<(Seq<char>, Node)>, deps: Seq<GitDependencyView>) -> nat
    decreases deps.len(),
{
    if deps.len() == 0 {
        0
    } else {
        let d = deps.last();
        new_entries(before, deps.drop_last()) + (if takes_override(before, d) && override_at(
            before,
            patch_key(d.git_url),
            d.name,
        ) is None && last_override(deps.drop_last(), before, patch_key(d.git_url), d.name)
            is None {
            1nat
        } else {
            0nat
        })
    }
}

/// No two of `deps` name the same package under the same remote source.
pub open spec fn distinct_overrides(deps: Seq<GitDependencyView>) -> bool {
    forall|i: int, j: int|
        0 <= i < j < deps.len() ==> !((#[trigger] deps[i]).git_url == (#[trigger] deps[j]).git_url
            && deps[i].name == deps[j].name)
}

/// No entry of the document is an override section.
pub open spec fn no_overrides(entries: Seq<(Seq<char>, Node)>) -> bool {
    forall|i: int| 0 <= i < entries.len() ==> !is_override_key((#[trigger] entries[i]).0)
}

/// The key of an override section begins with `patch.`, so it is the key
/// of an override section, and it is not the bare key `patch`.
pub proof fn lemma_patch_key(url: Seq<char>)
    ensures
        is_prefix("patch."@, patch_key(url)),
        is_override_key(patch_key(url)),
        patch_key(url) != "patch"@,
        forall|node: Node| #[trigger] entry_count(patch_key(url), node) == table_size(node),
{
    reveal_strlit("patch.\"");
    reveal_strlit("patch.");
    reveal_strlit("patch");
    reveal_strlit("\"");
    let key = patch_key(url);
    assert(key.len() == url.len() + 8);
    assert(key.subrange(0, 6) =~= "patch."@);
}

/// Two remote sources with the same section key are the same: each remote
/// source has a section of its own.
pub proof fn lemma_patch_key_injective(a: Seq<char>, b: Seq<char>)
    requires
        patch_key(a) == patch_key(b),
    ensures
        a == b,
{
    reveal_strlit("patch.\"");
    reveal_strlit("\"");
    let ka = patch_key(a);
    let kb = patch_key(b);
    assert(ka.len() == a.len() + 8);
    assert(kb.len() == b.len() + 8);
    assert forall|i: int| 0 <= i < a.len() implies a[i] == b[i] by {
        assert(ka[7 + i] == a[i]);
        assert(kb[7 + i] == b[i]);
    }
    assert(a =~= b);
}

/// An override section more leaves what is kept as it was.
pub proof fn lemma_kept_insert(entries: Seq<(Seq<char>, Node)>, at: int, entry: (Seq<char>, Node))
    requires
        0 <= at <= entries.len(),
        is_override_key(entry.0),
    ensures
        kept(entries.insert(at, entry)) == kept(entries),
    decreases entries.len(),
{
    let after = entries.insert(at, entry);
    if at == entries.len() {
        assert(after.drop_last() =~= entries);
    } else {
        assert(after.drop_last() =~= entries.drop_last().insert(at, entry));
        assert(after.last() == entries.last());
        lemma_kept_insert(entries.drop_last(), at, entry);
    }
}

/// An override section in place of another leaves what is kept as it was.
pub proof fn lemma_kept_update(entries: Seq<(Seq<char>, Node)>, at: int, entry: (Seq<char>, Node))
    requires
        0 <= at < entries.len(),
        is_override_key(entries[at].0),
        is_override_key(entry.0),
    ensures
        kept(entries.update(at, entry)) == kept(entries),
    decreases entries.len(),
{
    let after = entries.update(at, entry);
    if at == entries.len() - 1 {
        assert(after.drop_last() =~= entries.drop_last());
    } else {
        assert(after.drop_last() =~= entries.drop_last().update(at, entry));
        assert(after.last() == entries.last());
        lemma_kept_update(entries.drop_last(), at, entry);
    }
}

/// One entry more adds what it holds to the number of override entries.
pub proof fn lemma_count_insert(entries: Seq<(Seq<char>, Node)>, at: int, entry: (Seq<char>, Node))
    requires
        0 <= at <= entries.len(),
    ensures
        override_entries(entries.insert(at, entry)) == override_entries(entries) + entry_count(
            entry.0,
            entry.1,
        ),
    decreases entries.len(),
{
    let after = entries.insert(at, entry);
    if at == entries.len() {
        assert(after.drop_last() =~= entries);
    } else {
        assert(after.drop_last() =~= entries.drop_last().insert(at, entry));
        assert(after.last() == entries.last());
        lemma_count_insert(entries.drop_last(), at, entry);
    }
}

/// An entry in place of another changes the number of override entries by
/// the difference between what the two hold.
pub proof fn lemma_count_update(entries: Seq<(Seq<char>, Node)>, at: int, entry: (Seq<char>, Node))
    requires
        0 <= at < entries.len(),
    ensures
        override_entries(entries.update(at, entry)) + entry_count(entries[at].0, entries[at].1)
            == override_entries(entries) + entry_count(entry.0, entry.1),
    decreases entries.len(),
{
    let after = entries.update(at, entry);
    if at == entries.len() - 1 {
        assert(after.drop_last() =~= entries.drop_last());
    } else {
        assert(after.drop_last() =~= entries.drop_last().update(at, entry));
        assert(after.last() == entries.last());
        lemma_count_update(entries.drop_last(), at, entry);
    }
}

/// A document without override sections is kept whole and holds no
/// override entry.
pub proof fn lemma_no_overrides(entries: Seq<(Seq<char>, Node)>)
    requires
        no_overrides(entries),
    ensures
        kept(entries) == entries,
        override_entries(entries) == 0,
    decreases entries.len(),
{
    reveal_strlit("patch.");
    reveal_strlit("patch");
    if entries.len() > 0 {
        let front = entries.drop_last();
        assert forall|i: int| 0 <= i < front.len() implies !is_override_key(
            (#[trigger] front[i]).0,
        ) by {
            assert(front[i] == entries[i]);
        }
        lemma_no_overrides(front);
        assert(!is_override_key(entries[entries.len() - 1].0));
        assert(front.push(entries.last()) =~= entries);
    }
}

/// Nothing is kept exactly if every entry is an override section.
pub proof fn lemma_kept_empty(entries: Seq<(Seq<char>, Node)>)
    ensures
        kept(entries).len() == 0 <==> forall|i: int|
            0 <= i < entries.len() ==> is_override_key((#[trigger] entries[i]).0),
    decreases entries.len(),
{
    if entries.len() > 0 {
        let front = entries.drop_last();
        lemma_kept_empty(front);
        if kept(entries).len() == 0 {
            assert forall|i: int| 0 <= i < entries.len() implies is_override_key(
                (#[trigger] entries[i]).0,
            ) by {
                if i < front.len() {
                    assert(front[i] == entries[i]);
                }
            }
        }
        if forall|i: int| 0 <= i < entries.len() ==> is_override_key((#[trigger] entries[i]).0) {
            assert forall|i: int| 0 <= i < front.len() implies is_override_key(
                (#[trigger] front[i]).0,
            ) by {
                assert(front[i] == entries[i]);
            }
            assert(is_override_key(entries[entries.len() - 1].0));
        }
    }
}

/// What is kept of a table without repeated keys has no repeated keys.
pub proof fn lemma_kept_distinct(entries: Seq<(Seq<char>, Node)>)
    requires
        distinct_keys(entries),
    ensures
        distinct_keys(kept(entries)),
    decreases entries.len(),
{
    if entries.len() > 0 {
        let front = entries.drop_last();
        assert forall|a: int, b: int|
            0 <= a < front.len() && 0 <= b < front.len() && a != b implies (#[trigger] front[a]).0
            != (#[trigger] front[b]).0 by {
            assert(front[a] == entries[a] && front[b] == entries[b]);
        }
        lemma_kept_distinct(front);
        lemma_kept_from(front);
        let inner = kept(front);
        let out = kept(entries);
        if !is_override_key(entries.last().0) {
            assert forall|a: int, b: int|
                0 <= a < out.len() && 0 <= b < out.len() && a != b implies (#[trigger] out[a]).0
                != (#[trigger] out[b]).0 by {
                if a < inner.len() && b < inner.len() {
                    assert(out[a] == inner[a] && out[b] == inner[b]);
                } else {
                    let low = if a < inner.len() {
                        a
                    } else {
                        b
                    };
                    assert(out[low] == inner[low]);
                    assert(front.contains(inner[low]));
                    let w = choose|w: int| 0 <= w < front.len() && front[w] == inner[low];
                    assert(entries[w] == inner[low]);
                    assert(out[out.len() - 1] == entries[entries.len() - 1]);
                }
            }
        }
    }
}

/// Removing the override sections removes exactly them: of a document
/// without repeated keys, no override section is left, and every other key
/// holds what it held.
pub proof fn lemma_kept_lookup(entries: Seq<(Seq<char>, Node)>, key: Seq<char>)
    requires
        distinct_keys(entries),
    ensures
        lookup(kept(entries), key) == (if is_override_key(key) {
            None
        } else {
            lookup(entries, key)
        }),
{
    let left = kept(entries);
    lemma_kept_distinct(entries);
    lemma_kept_from(entries);
    lemma_index_of(left, key);
    lemma_index_of(entries, key);
    match index_of(left, key) {
        Some(k) => {
            assert(!is_override_key(left[k].0) && entries.contains(left[k]));
            let w = choose|w: int| 0 <= w < entries.len() && entries[w] == left[k];
            lemma_lookup_at(entries, w);
        },
        None => {
            if !is_override_key(key) {
                match index_of(entries, key) {
                    Some(i) => {
                        lemma_deleted_when_only_overrides(entries, i);
                        let k = choose|k: int| 0 <= k < left.len() && left[k] == entries[i];
                        assert(left[k].0 == key);
                    },
                    None => {},
                }
            }
        },
    }
}

/// Writing one override touches the section of its remote source and
/// nothing else: every other key holds what it held, and in the section the
/// entry of the package is the new one and every other entry is as it was.
pub proof fn lemma_patched_lookup(
    before: Seq<(Seq<char>, Node)>,
    dep: GitDependencyView,
    after: Seq<(Seq<char>, Node)>,
    key: Seq<char>,
    name: Seq<char>,
)
    requires
        patched(before, dep, after),
    ensures
        key != patch_key(dep.git_url) ==> lookup(after, key) == lookup(before, key),
        override_at(after, key, name) == (if takes_override(before, dep) && key == patch_key(
            dep.git_url,
        ) && name == dep.name {
            Some(path_entry(dep.local_path))
        } else {
            override_at(before, key, name)
        }),
{
    let own = patch_key(dep.git_url);
    let entry = path_entry(dep.local_path);
    match lookup(before, own) {
        None => {
            let created = choose|created: Seq<(Seq<char>, Node)>| #[trigger]
                binds(before, created, own, Node::Table(Seq::empty())) && after == replaced(
                    created,
                    own,
                    Node::Table(seq![(dep.name, entry)]),
                );
            lemma_binds(before, created, own, Node::Table(Seq::empty()));
            lemma_lookup_replaced(created, own, Node::Table(seq![(dep.name, entry)]), key);
            let section = seq![(dep.name, entry)];
            lemma_index_of(section, name);
            assert(section[0].0 == dep.name);
        },
        Some(Node::Table(section)) => {
            let updated = choose|updated: Seq<(Seq<char>, Node)>| #[trigger]
                binds(section, updated, dep.name, entry) && after == replaced(
                    before,
                    own,
                    Node::Table(updated),
                );
            lemma_binds(section, updated, dep.name, entry);
            lemma_lookup_replaced(before, own, Node::Table(updated), key);
        },
        Some(_) => {},
    }
}

/// Writing one override keeps what is no override section, in its order.
pub proof fn lemma_patched_kept(
    before: Seq<(Seq<char>, Node)>,
    dep: GitDependencyView,
    after: Seq<(Seq<char>, Node)>,
)
    requires
        patched(before, dep, after),
    ensures
        kept(after) == kept(before),
        override_entries(after) == override_entries(before) + (if takes_override(before, dep)
            && override_at(before, patch_key(dep.git_url), dep.name) is None {
            1nat
        } else {
            0nat
        }),
{
    let own = patch_key(dep.git_url);
    let entry = path_entry(dep.local_path);
    lemma_patch_key(dep.git_url);
    lemma_index_of(before, own);
    match lookup(before, own) {
        None => {
            let empty = Node::Table(Seq::empty());
            let filled = Node::Table(seq![(dep.name, entry)]);
            let created = choose|created: Seq<(Seq<char>, Node)>| #[trigger]
                binds(before, created, own, empty) && after == replaced(created, own, filled);
            let at = choose|at: int|
                0 <= at <= before.len() && created == before.insert(at, (own, empty));
            lemma_kept_insert(before, at, (own, empty));
            lemma_count_insert(before, at, (own, empty));
            lemma_lookup_insert(before, at, own, empty, own);
            assert(after == created.update(at, (own, filled)));
            lemma_kept_update(created, at, (own, filled));
            lemma_count_update(created, at, (own, filled));
            assert(entry_count(own, empty) == table_size(empty));
            assert(entry_count(own, filled) == table_size(filled));
        },
        Some(Node::Table(section)) => {
            let updated = choose|updated: Seq<(Seq<char>, Node)>| #[trigger]
                binds(section, updated, dep.name, entry) && after == replaced(
                    before,
                    own,
                    Node::Table(updated),
                );
            let at = index_of(before, own)->Some_0;
            lemma_binds(section, updated, dep.name, entry);
            lemma_kept_update(before, at, (own, Node::Table(updated)));
            lemma_count_update(before, at, (own, Node::Table(updated)));
            assert(entry_count(own, Node::Table(section)) == table_size(Node::Table(section)));
            assert(entry_count(own, Node::Table(updated)) == table_size(Node::Table(updated)));
        },
        Some(_) => {},
    }
}

/// After a run of overrides, every key that is the section of none of the
/// dependencies holds what it held; and in every section, an entry that one
/// of the dependencies wrote is the one written last, and every other entry
/// is as it was.
pub proof fn lemma_patched_all_lookup(
    before: Seq<(Seq<char>, Node)>,
    deps: Seq<GitDependencyView>,
    after: Seq<(Seq<char>, Node)>,
    key: Seq<char>,
    name: Seq<char>,
)
    requires
        patched_all(before, deps, after),
    ensures
        (forall|i: int| 0 <= i < deps.len() ==> patch_key((#[trigger] deps[i]).git_url) != key)
            ==> lookup(after, key) == lookup(before, key),
        override_at(after, key, name) == (match last_override(deps, before, key, name) {
            Some(path) => Some(path_entry(path)),
            None => override_at(before, key, name),
        }),
    decreases deps.len(),
{
    if deps.len() > 0 {
        let front = deps.drop_last();
        let mid = choose|mid: Seq<(Seq<char>, Node)>| #[trigger]
            patched(mid, deps.last(), after) && patched_all(before, front, mid);
        lemma_patched_all_lookup(before, front, mid, key, name);
        lemma_patched_all_keeps_takers(before, front, mid, deps.last());
        lemma_patched_lookup(mid, deps.last(), after, key, name);
        if forall|i: int| 0 <= i < deps.len() ==> patch_key((#[trigger] deps[i]).git_url) != key {
            assert forall|i: int| 0 <= i < front.len() implies patch_key(
                (#[trigger] front[i]).git_url,
            ) != key by {
                assert(front[i] == deps[i]);
            }
            assert(patch_key(deps[deps.len() - 1].git_url) != key);
        }
    }
}

/// A run of overrides keeps what is no override section, in its order, and
/// adds one override entry for each dependency that wrote where no entry
/// stood.
pub proof fn lemma_patched_all_kept(
    before: Seq<(Seq<char>, Node)>,
    deps: Seq<GitDependencyView>,
    after: Seq<(Seq<char>, Node)>,
)
    requires
        patched_all(before, deps, after),
    ensures
        kept(after) == kept(before),
        override_entries(after) == override_entries(before) + new_entries(before, deps),
    decreases deps.len(),
{
    if deps.len() > 0 {
        let front = deps.drop_last();
        let d = deps.last();
        let mid = choose|mid: Seq<(Seq<char>, Node)>| #[trigger]
            patched(mid, d, after) && patched_all(before, front, mid);
        lemma_patched_all_kept(before, front, mid);
        lemma_patched_all_keeps_takers(before, front, mid, d);
        lemma_patched_all_lookup(before, front, mid, patch_key(d.git_url), d.name);
        lemma_patched_kept(mid, d, after);
    }
}

/// Among dependencies that name no package twice under one remote source,
/// none has written where a later one writes.
proof fn lemma_distinct_never_written(
    before: Seq<(Seq<char>, Node)>,
    deps: Seq<GitDependencyView>,
    d: GitDependencyView,
)
    requires
        forall|i: int|
            0 <= i < deps.len() ==> !((#[trigger] deps[i]).git_url == d.git_url && deps[i].name
                == d.name),
    ensures
        last_override(deps, before, patch_key(d.git_url), d.name) is None,
    decreases deps.len(),
{
    if deps.len() > 0 {
        let front = deps.drop_last();
        assert forall|i: int| 0 <= i < front.len() implies !((#[trigger] front[i]).git_url
            == d.git_url && front[i].name == d.name) by {
            assert(front[i] == deps[i]);
        }
        lemma_distinct_never_written(before, front, d);
        let last = deps[deps.len() - 1];
        if patch_key(last.git_url) == patch_key(d.git_url) {
            lemma_patch_key_injective(last.git_url, d.git_url);
        }
    }
}

/// Into a document without override sections, dependencies that name no
/// package twice under one remote source each write a new entry.
proof fn lemma_all_new(before: Seq<(Seq<char>, Node)>, deps: Seq<GitDependencyView>)
    requires
        no_overrides(before),
        distinct_overrides(deps),
    ensures
        new_entries(before, deps) == deps.len(),
        written_count(before, deps) == deps.len(),
    decreases deps.len(),
{
    if deps.len() > 0 {
        let front = deps.drop_last();
        let d = deps.last();
        assert forall|i: int, j: int| 0 <= i < j < front.len() implies !((#[trigger] front[i]).git_url
            == (#[trigger] front[j]).git_url && front[i].name == front[j].name) by {
            assert(front[i] == deps[i] && front[j] == deps[j]);
        }
        lemma_all_new(before, front);
        assert forall|i: int| 0 <= i < front.len() implies !((#[trigger] front[i]).git_url
            == d.git_url && front[i].name == d.name) by {
            assert(front[i] == deps[i]);
            assert(d == deps[deps.len() - 1]);
        }
        lemma_distinct_never_written(before, front, d);
        lemma_patch_key(d.git_url);
        lemma_index_of(before, patch_key(d.git_url));
    }
}

/// Packages of one remote source share one override section, and each
/// remote source has a section of its own.
///
/// After the overrides for `deps` were written, the override of each
/// dependency that the document could take stands in the section under the
/// key of its remote source, under the name of its package; two remote
/// sources have the same key only if they are the same.
pub proof fn lemma_overrides_grouped(
    before: Seq<(Seq<char>, Node)>,
    deps: Seq<GitDependencyView>,
    after: Seq<(Seq<char>, Node)>,
    i: int,
    j: int,
)
    requires
        patched_all(before, deps, after),
        0 <= i < deps.len(),
        0 <= j < deps.len(),
        takes_override(before, deps[i]),
    ensures
        lookup(after, patch_key(deps[i].git_url)) matches Some(node) && node is Table,
        override_at(after, patch_key(deps[i].git_url), deps[i].name) is Some,
        deps[i].git_url == deps[j].git_url <==> patch_key(deps[i].git_url) == patch_key(
            deps[j].git_url,
        ),
{
    let key = patch_key(deps[i].git_url);
    lemma_patched_all_lookup(before, deps, after, key, deps[i].name);
    lemma_written(before, deps, i);
    if patch_key(deps[i].git_url) == patch_key(deps[j].git_url) {
        lemma_patch_key_injective(deps[i].git_url, deps[j].git_url);
    }
}

/// A dependency for which the document can take an override has written
/// under its name, or a later one has.
proof fn lemma_written(before: Seq<(Seq<char>, Node)>, deps: Seq<GitDependencyView>, i: int)
    requires
        0 <= i < deps.len(),
        takes_override(before, deps[i]),
    ensures
        last_override(deps, before, patch_key(deps[i].git_url), deps[i].name) is Some,
    decreases deps.len(),
{
    if i < deps.len() - 1 {
        let front = deps.drop_last();
        assert(front[i] == deps[i]);
        lemma_written(before, front, i);
    }
}

/// Writing overrides and removing them again gives back what was there.
///
/// Where the document held only other settings and the dependencies name no
/// package twice under one remote source, the document after the overrides
/// were written keeps exactly the original entries when its override
/// sections are removed, and the number of override entries to remove is the
/// number of overrides written.
pub proof fn lemma_apply_then_remove(
    before: Seq<(Seq<char>, Node)>,
    deps: Seq<GitDependencyView>,
    after: Seq<(Seq<char>, Node)>,
)
    requires
        patched_all(before, deps, after),
        no_overrides(before),
        distinct_overrides(deps),
    ensures
        kept(after) == before,
        override_entries(after) == deps.len(),
        written_count(before, deps) == deps.len(),
{
    lemma_patched_all_kept(before, deps, after);
    lemma_no_overrides(before);
    lemma_all_new(before, deps);
}

/// Removing the override sections deletes the document exactly if it held
/// nothing else: nothing is kept if and only if every entry is an override
/// section, and a document with another setting keeps that setting.
pub proof fn lemma_deleted_when_only_overrides(entries: Seq<(Seq<char>, Node)>, i: int)
    ensures
        kept(entries).len() == 0 <==> forall|k: int|
            0 <= k < entries.len() ==> is_override_key((#[trigger] entries[k]).0),
        0 <= i < entries.len() && !is_override_key(entries[i].0) ==> kept(entries).contains(
            entries[i],
        ),
    decreases entries.len(),
{
    lemma_kept_empty(entries);
    if 0 <= i < entries.len() && !is_override_key(entries[i].0) {
        let front = entries.drop_last();
        if i == entries.len() - 1 {
            let out = kept(entries);
            assert(out[out.len() - 1] == entries[i]);
        } else {
            lemma_deleted_when_only_overrides(front, i);
            assert(front[i] == entries[i]);
            let k = choose|k: int| 0 <= k < kept(front).len() && kept(front)[k] == front[i];
            if is_override_key(entries.last().0) {
                assert(kept(entries)[k] == entries[i]);
            } else {
                assert(kept(entries)[k] == entries[i]);
            }
        }
    }
}

} // verus!
