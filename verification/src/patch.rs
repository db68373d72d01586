//! Remote dependencies that have a local counterpart in the workspace, and
//! the reports on overriding them.

use crate::cargo::{
    has_namespace, is_namespaced, section_name, CargoManifest, DependencyType, ManifestView,
};
use crate::document::{
    child, distinct_keys, item_as_str, item_as_table, item_get, item_node, keys_of,
    lemma_lookup_at, lookup, root_table, table_entries, table_get, Node,
};
use crate::text::{
    chars_of, lemma_lex_le_antisymmetric, lemma_lex_le_total, lemma_lex_le_transitive, lex_le,
    str_eq, str_lex_le, views,
};
use crate::workspace::manifest_views;
use vstd::prelude::*;
use vstd::string::*;

verus! {

/// A remote dependency for which the workspace holds a package of the same
/// name.
#[derive(Debug, Clone, PartialEq, Eq)]
pub struct GitDependency {
    pub name: String,
    pub git_url: String,
    pub branch_or_tag: Option<String>,
    pub local_path: String,
}

/// What a [`GitDependency`] stands for.
pub struct GitDependencyView {
    pub name: Seq<char>,
    pub git_url: Seq<char>,
    pub branch_or_tag: Option<Seq<char>>,
    pub local_path: Seq<char>,
}

impl View for GitDependency {
    type V = GitDependencyView;

    open spec fn view(&self) -> GitDependencyView {
        GitDependencyView {
            name: self.name@,
            git_url: self.git_url@,
            branch_or_tag: match self.branch_or_tag {
                Some(reference) => Some(reference@),
                None => None,
            },
            local_path: self.local_path@,
        }
    }
}

/// Overrides remote dependencies by local paths, and takes the overrides
/// back.
#[derive(Debug)]
pub struct PatchManager {
    pub workspace_root: String,
}

/// The outcome of writing overrides.
#[derive(Debug, Clone, PartialEq, Eq)]
pub struct PatchReport {
    pub patched_count: usize,
    pub config_path: String,
    pub verified: bool,
    pub verification_error: Option<String>,
}

/// The outcome of removing overrides.
#[derive(Debug, Clone, PartialEq, Eq)]
pub struct ResetReport {
    pub removed_count: usize,
    pub config_path: String,
    pub config_deleted: bool,
}

/// The views of a sequence of dependencies.
pub open spec fn git_views(deps: Seq<GitDependency>) -> Seq<GitDependencyView> {
    deps.map_values(|d: GitDependency| d@)
}

/// The path of `name` below `base`.
pub open spec fn joined_path(base: Seq<char>, name: Seq<char>) -> Seq<char> {
    if base.len() == 0 {
        name
    } else if base.last() == '/' {
        base + name
    } else {
        base + seq!['/'] + name
    }
}

/// The text of a string item.
pub open spec fn text_of(node: Node) -> Option<Seq<char>> {
    match node {
        Node::Text(text) => Some(text),
        _ => None,
    }
}

/// The branch or tag that a dependency entry names: what stands under
/// `branch` where the entry has that key, else what stands under `tag`.
pub open spec fn git_reference(entry: Node) -> Option<Seq<char>> {
    match child(entry, "branch"@) {
        Some(branch) => text_of(branch),
        None => match child(entry, "tag"@) {
            Some(tag) => text_of(tag),
            None => None,
        },
    }
}

/// The remote source of a dependency entry: its URL and its branch or tag,
/// where the entry carries a URL under `git`.
pub open spec fn git_source(entry: Node) -> Option<(Seq<char>, Option<Seq<char>>)> {
    match child(entry, "git"@) {
        Some(Node::Text(url)) => Some((url, git_reference(entry))),
        _ => None,
    }
}

/// Whether the manifests hold a namespaced package called `name`.
pub open spec fn is_local_repo(manifests: Seq<ManifestView>, name: Seq<char>) -> bool {
    is_namespaced(name) && exists|i: int|
        0 <= i < manifests.len() && (#[trigger] manifests[i]).package_name == name
}

/// The names of the namespaced packages among `manifests`, in order.
pub open spec fn local_repo_names(manifests: Seq<ManifestView>) -> Seq<Seq<char>>
    decreases manifests.len(),
{
    if manifests.len() == 0 {
        Seq::empty()
    } else if is_namespaced(manifests.last().package_name) {
        local_repo_names(manifests.drop_last()).push(manifests.last().package_name)
    } else {
        local_repo_names(manifests.drop_last())
    }
}

/// The patchable dependency that the entry `name = entry` declares: the
/// entry has a remote source, a namespaced package of this name is among the
/// manifests, and a manifest was found at its place below the root.
pub open spec fn candidate(
    root: Seq<char>,
    manifests: Seq<ManifestView>,
    present: Seq<Seq<char>>,
    name: Seq<char>,
    entry: Node,
) -> Option<GitDependencyView> {
    match git_source(entry) {
        Some((url, reference)) => if is_local_repo(manifests, name) && present.contains(name) {
            Some(
                GitDependencyView {
                    name,
                    git_url: url,
                    branch_or_tag: reference,
                    local_path: joined_path(root, name),
                },
            )
        } else {
            None
        },
        None => None,
    }
}

/// `sorted` with `d` at its place by name. A dependency of the same name
/// gives way to it.
pub open spec fn placed(sorted: Seq<GitDependencyView>, d: GitDependencyView) -> Seq<
    GitDependencyView,
>
    decreases sorted.len(),
{
    if sorted.len() == 0 {
        seq![d]
    } else if sorted.last().name == d.name {
        sorted.drop_last().push(d)
    } else if lex_le(sorted.last().name, d.name) {
        sorted.push(d)
    } else {
        placed(sorted.drop_last(), d).push(sorted.last())
    }
}

/// `found` after the first `n` entries of a section were scanned.
pub open spec fn scan_entries(
    found: Seq<GitDependencyView>,
    root: Seq<char>,
    manifests: Seq<ManifestView>,
    present: Seq<Seq<char>>,
    entries: Seq<(Seq<char>, Node)>,
    n: nat,
) -> Seq<GitDependencyView>
    decreases n,
{
    if n == 0 || n > entries.len() {
        found
    } else {
        let before = scan_entries(found, root, manifests, present, entries, (n - 1) as nat);
        match candidate(root, manifests, present, entries[n - 1].0, entries[n - 1].1) {
            Some(d) => placed(before, d),
            None => before,
        }
    }
}

/// `found` after the section of kind `kind` of a document was scanned.
pub open spec fn scan_section(
    found: Seq<GitDependencyView>,
    root: Seq<char>,
    manifests: Seq<ManifestView>,
    present: Seq<Seq<char>>,
    document: Seq<(Seq<char>, Node)>,
    kind: DependencyType,
) -> Seq<GitDependencyView> {
    match lookup(document, section_name(kind)) {
        Some(Node::Table(entries)) => scan_entries(
            found,
            root,
            manifests,
            present,
            entries,
            entries.len(),
        ),
        _ => found,
    }
}

/// `found` after the three dependency sections of a document were scanned.
pub open spec fn scan_document(
    found: Seq<GitDependencyView>,
    root: Seq<char>,
    manifests: Seq<ManifestView>,
    present: Seq<Seq<char>>,
    document: Seq<(Seq<char>, Node)>,
) -> Seq<GitDependencyView> {
    scan_section(
        scan_section(
            scan_section(found, root, manifests, present, document, DependencyType::Normal),
            root,
            manifests,
            present,
            document,
            DependencyType::Dev,
        ),
        root,
        manifests,
        present,
        document,
        DependencyType::Build,
    )
}

/// What scanning the first `n` manifests finds.
pub open spec fn scan_manifests(
    root: Seq<char>,
    manifests: Seq<ManifestView>,
    present: Seq<Seq<char>>,
    n: nat,
) -> Seq<GitDependencyView>
    decreases n,
{
    if n == 0 || n > manifests.len() {
        Seq::empty()
    } else {
        scan_document(
            scan_manifests(root, manifests, present, (n - 1) as nat),
            root,
            manifests,
            present,
            manifests[n - 1].entries,
        )
    }
}

/// The names ascend strictly: they are in order and no name occurs twice.
pub open spec fn strictly_ordered(deps: Seq<GitDependencyView>) -> bool {
    forall|i: int, j: int|
        0 <= i < j < deps.len() ==> lex_le((#[trigger] deps[i]).name, (#[trigger] deps[j]).name)
            && deps[i].name != deps[j].name
}

/// Where `sorted[at]` has the name of `d` and the dependencies behind it
/// come after `d`, placing `d` replaces `sorted[at]`.
pub proof fn lemma_placed_over(sorted: Seq<GitDependencyView>, d: GitDependencyView, at: int)
    requires
        0 <= at < sorted.len(),
        sorted[at].name == d.name,
        forall|j: int|
            at < j < sorted.len() ==> !lex_le((#[trigger] sorted[j]).name, d.name),
    ensures
        placed(sorted, d) == sorted.update(at, d),
    decreases sorted.len(),
{
    if at == sorted.len() - 1 {
        assert(sorted.drop_last().push(d) =~= sorted.update(at, d));
    } else {
        let front = sorted.drop_last();
        assert(!lex_le(sorted[sorted.len() - 1].name, d.name));
        assert(sorted.last().name != d.name) by {
            lemma_lex_le_total(d.name, d.name);
        }
        assert forall|j: int| at < j < front.len() implies !lex_le(
            (#[trigger] front[j]).name,
            d.name,
        ) by {
            assert(front[j] == sorted[j]);
        }
        lemma_placed_over(front, d, at);
        assert(front.update(at, d).push(sorted.last()) =~= sorted.update(at, d));
    }
}

/// Where the dependencies from `at` on come after `d` and the one before
/// `at` comes before it, placing `d` inserts it at `at`.
pub proof fn lemma_placed_at(sorted: Seq<GitDependencyView>, d: GitDependencyView, at: int)
    requires
        0 <= at <= sorted.len(),
        forall|j: int|
            at <= j < sorted.len() ==> !lex_le((#[trigger] sorted[j]).name, d.name),
        at > 0 ==> lex_le(sorted[at - 1].name, d.name) && sorted[at - 1].name != d.name,
    ensures
        placed(sorted, d) == sorted.insert(at, d),
    decreases sorted.len(),
{
    if sorted.len() == 0 {
        assert(seq![d] =~= sorted.insert(at, d));
    } else if at == sorted.len() {
        assert(sorted.push(d) =~= sorted.insert(at, d));
    } else {
        let front = sorted.drop_last();
        assert(!lex_le(sorted[sorted.len() - 1].name, d.name));
        assert(sorted.last().name != d.name) by {
            lemma_lex_le_total(d.name, d.name);
        }
        assert forall|j: int| at <= j < front.len() implies !lex_le(
            (#[trigger] front[j]).name,
            d.name,
        ) by {
            assert(front[j] == sorted[j]);
        }
        lemma_placed_at(front, d, at);
        assert(front.insert(at, d).push(sorted.last()) =~= sorted.insert(at, d));
    }
}

/// Placing a dependency keeps the names in strict order: the result is
/// sorted by name and holds each name once. It holds the new dependency and
/// otherwise only what was there.
pub proof fn lemma_placed_ordered(sorted: Seq<GitDependencyView>, d: GitDependencyView)
    requires
        strictly_ordered(sorted),
    ensures
        strictly_ordered(placed(sorted, d)),
        placed(sorted, d).contains(d),
        forall|k: int|
            0 <= k < placed(sorted, d).len() ==> (#[trigger] placed(sorted, d)[k]) == d
                || sorted.contains(placed(sorted, d)[k]),
    decreases sorted.len(),
{
    let out = placed(sorted, d);
    if sorted.len() == 0 {
        assert(out[0] == d);
    } else {
        let front = sorted.drop_last();
        let last = sorted.last();
        assert(sorted[sorted.len() - 1] == last);
        assert forall|i: int, j: int| 0 <= i < j < front.len() implies lex_le(
            (#[trigger] front[i]).name,
            (#[trigger] front[j]).name,
        ) && front[i].name != front[j].name by {
            assert(front[i] == sorted[i] && front[j] == sorted[j]);
        }
        if last.name == d.name {
            assert(out[out.len() - 1] == d);
            assert forall|i: int, j: int| 0 <= i < j < out.len() implies lex_le(
                (#[trigger] out[i]).name,
                (#[trigger] out[j]).name,
            ) && out[i].name != out[j].name by {
                assert(out[i] == sorted[i]);
                if j < front.len() {
                    assert(out[j] == sorted[j]);
                } else {
                    assert(lex_le(sorted[i].name, sorted[sorted.len() - 1].name));
                }
            }
            assert forall|k: int| 0 <= k < out.len() implies (#[trigger] out[k]) == d
                || sorted.contains(out[k]) by {
                if k < front.len() {
                    assert(out[k] == sorted[k]);
                }
            }
        } else if lex_le(last.name, d.name) {
            assert(out[out.len() - 1] == d);
            assert forall|i: int, j: int| 0 <= i < j < out.len() implies lex_le(
                (#[trigger] out[i]).name,
                (#[trigger] out[j]).name,
            ) && out[i].name != out[j].name by {
                assert(out[i] == sorted[i]);
                if j < sorted.len() {
                    assert(out[j] == sorted[j]);
                } else if i < sorted.len() - 1 {
                    assert(lex_le(sorted[i].name, sorted[sorted.len() - 1].name));
                    lemma_lex_le_transitive(sorted[i].name, last.name, d.name);
                    if sorted[i].name == d.name {
                        lemma_lex_le_antisymmetric(last.name, d.name);
                    }
                }
            }
            assert forall|k: int| 0 <= k < out.len() implies (#[trigger] out[k]) == d
                || sorted.contains(out[k]) by {
                if k < sorted.len() {
                    assert(out[k] == sorted[k]);
                }
            }
        } else {
            lemma_placed_ordered(front, d);
            let inner = placed(front, d);
            lemma_lex_le_total(last.name, d.name);
            assert forall|i: int, j: int| 0 <= i < j < out.len() implies lex_le(
                (#[trigger] out[i]).name,
                (#[trigger] out[j]).name,
            ) && out[i].name != out[j].name by {
                assert(out[i] == inner[i]);
                if j < inner.len() {
                    assert(out[j] == inner[j]);
                } else if inner[i] != d {
                    assert(front.contains(inner[i]));
                    let w = choose|w: int| 0 <= w < front.len() && front[w] == inner[i];
                    assert(sorted[w] == inner[i]);
                    assert(lex_le(sorted[w].name, sorted[sorted.len() - 1].name));
                }
            }
            let at = choose|at: int| 0 <= at < inner.len() && inner[at] == d;
            assert(out[at] == d);
            assert forall|k: int| 0 <= k < out.len() implies (#[trigger] out[k]) == d
                || sorted.contains(out[k]) by {
                if k < inner.len() {
                    assert(out[k] == inner[k]);
                    if inner[k] != d {
                        assert(front.contains(inner[k]));
                        let w = choose|w: int| 0 <= w < front.len() && front[w] == inner[k];
                        assert(sorted[w] == out[k]);
                    }
                } else {
                    assert(out[k] == sorted[sorted.len() - 1]);
                }
            }
        }
    }
}

/// Scanning entries keeps the names in strict order.
pub proof fn lemma_scan_entries_ordered(
    found: Seq<GitDependencyView>,
    root: Seq<char>,
    manifests: Seq<ManifestView>,
    present: Seq<Seq<char>>,
    entries: Seq<(Seq<char>, Node)>,
    n: nat,
)
    requires
        strictly_ordered(found),
    ensures
        strictly_ordered(scan_entries(found, root, manifests, present, entries, n)),
    decreases n,
{
    if !(n == 0 || n > entries.len()) {
        lemma_scan_entries_ordered(found, root, manifests, present, entries, (n - 1) as nat);
        let before = scan_entries(found, root, manifests, present, entries, (n - 1) as nat);
        match candidate(root, manifests, present, entries[n - 1].0, entries[n - 1].1) {
            Some(d) => {
                lemma_placed_ordered(before, d);
            },
            None => {},
        }
    }
}

/// What a scan of the manifests finds is sorted by name and holds each
/// name once.
pub proof fn lemma_scan_manifests_ordered(
    root: Seq<char>,
    manifests: Seq<ManifestView>,
    present: Seq<Seq<char>>,
    n: nat,
)
    ensures
        strictly_ordered(scan_manifests(root, manifests, present, n)),
    decreases n,
{
    if !(n == 0 || n > manifests.len()) {
        lemma_scan_manifests_ordered(root, manifests, present, (n - 1) as nat);
        let found = scan_manifests(root, manifests, present, (n - 1) as nat);
        let document = manifests[n - 1].entries;
        let first = scan_section(found, root, manifests, present, document, DependencyType::Normal);
        let second = scan_section(first, root, manifests, present, document, DependencyType::Dev);
        lemma_scan_section_ordered(found, root, manifests, present, document, DependencyType::Normal);
        lemma_scan_section_ordered(first, root, manifests, present, document, DependencyType::Dev);
        lemma_scan_section_ordered(second, root, manifests, present, document, DependencyType::Build);
    }
}

/// Scanning a section keeps the names in strict order.
pub proof fn lemma_scan_section_ordered(
    found: Seq<GitDependencyView>,
    root: Seq<char>,
    manifests: Seq<ManifestView>,
    present: Seq<Seq<char>>,
    document: Seq<(Seq<char>, Node)>,
    kind: DependencyType,
)
    requires
        strictly_ordered(found),
    ensures
        strictly_ordered(scan_section(found, root, manifests, present, document, kind)),
{
    match lookup(document, section_name(kind)) {
        Some(Node::Table(entries)) => {
            lemma_scan_entries_ordered(found, root, manifests, present, entries, entries.len());
        },
        _ => {},
    }
}

/// The path of `name` below `base`.
pub fn join_path(base: &str, name: &str) -> (r: String)
    ensures
        r@ == joined_path(base@, name@),
{
    let chars = chars_of(base);
    if chars.len() == 0 {
        return String::from_str(name);
    }
    let mut out = String::from_str(base);
    if chars[chars.len() - 1] != '/' {
        proof {
            reveal_strlit("/");
        }
        out.append("/");
        assert("/"@ == seq!['/']);
    }
    out.append(name);
    out
}

/// Whether `name` is among `names`.
pub fn has_name(names: &Vec<String>, name: &str) -> (r: bool)
    ensures
        r == views(names@).contains(name@),
{
    let mut i: usize = 0;
    while i < names.len()
        invariant
            i <= names.len(),
            forall|k: int| 0 <= k < i ==> views(names@)[k] != name@,
        decreases names.len() - i,
    {
        if str_eq(names[i].as_str(), name) {
            assert(views(names@)[i as int] == name@);
            return true;
        }
        i += 1;
    }
    false
}

/// Whether the manifests hold a namespaced package called `name`.
pub fn has_local_repo(manifests: &Vec<CargoManifest>, name: &str) -> (r: bool)
    ensures
        r == is_local_repo(manifest_views(manifests@), name@),
{
    if !has_namespace(name) {
        return false;
    }
    let ghost all = manifest_views(manifests@);
    let mut i: usize = 0;
    while i < manifests.len()
        invariant
            i <= manifests.len(),
            all == manifest_views(manifests@),
            is_namespaced(name@),
            forall|k: int| 0 <= k < i ==> (#[trigger] all[k]).package_name != name@,
        decreases manifests.len() - i,
    {
        if str_eq(manifests[i].package_name.as_str(), name) {
            assert(0 <= i < all.len() && all[i as int].package_name == name@);
            return true;
        }
        i += 1;
    }
    false
}

/// Puts `d` at its place by name in `out`.
pub fn place(out: &mut Vec<GitDependency>, d: GitDependency)
    ensures
        git_views(final(out)@) == placed(git_views(old(out)@), d@),
{
    let ghost sorted = git_views(out@);
    let mut at: usize = out.len();
    while at > 0
        invariant
            at <= out.len(),
            out@ == old(out)@,
            sorted == git_views(out@),
            forall|j: int| at <= j < sorted.len() ==> !lex_le((#[trigger] sorted[j]).name, d@.name),
        decreases at,
    {
        if str_eq(out[at - 1].name.as_str(), d.name.as_str()) {
            proof {
                lemma_placed_over(sorted, d@, at - 1);
            }
            let ghost put = d@;
            out.set(at - 1, d);
            assert(git_views(out@) =~= sorted.update(at - 1, put));
            return ;
        }
        if str_lex_le(out[at - 1].name.as_str(), d.name.as_str()) {
            proof {
                lemma_placed_at(sorted, d@, at as int);
            }
            let ghost put = d@;
            out.insert(at, d);
            assert(git_views(out@) =~= sorted.insert(at as int, put));
            return ;
        }
        at -= 1;
    }
    proof {
        lemma_placed_at(sorted, d@, 0);
    }
    let ghost put = d@;
    out.insert(0, d);
    assert(git_views(out@) =~= sorted.insert(0, put));
}

impl PatchManager {
    /// A manager for the workspace at `workspace_root`.
    pub fn new(workspace_root: &str) -> (r: PatchManager)
        ensures
            r.workspace_root@ == workspace_root@,
    {
        PatchManager { workspace_root: String::from_str(workspace_root) }
    }

    /// The path of the overlay document: `.cargo/config.toml` below the
    /// root.
    pub fn config_path(&self) -> (r: String)
        ensures
            r@ == joined_path(joined_path(self.workspace_root@, ".cargo"@), "config.toml"@),
    {
        let dir = join_path(self.workspace_root.as_str(), ".cargo");
        join_path(dir.as_str(), "config.toml")
    }

    /// Where the manifest of the local package called `repo_name` is
    /// expected.
    pub fn expected_manifest_path(&self, repo_name: &str) -> (r: String)
        ensures
            r@ == joined_path(joined_path(self.workspace_root@, repo_name@), "Cargo.toml"@),
    {
        let dir = join_path(self.workspace_root.as_str(), repo_name);
        join_path(dir.as_str(), "Cargo.toml")
    }

    /// The remote source of a dependency entry: its URL, and its branch or
    /// tag where it names one.
    pub fn parse_git_dependency(_name: &str, item: &toml_edit::Item) -> (r: Option<
        (String, Option<String>),
    >)
        ensures
            match r {
                Some((url, reference)) => git_source(item_node(*item)) == Some(
                    (
                        url@,
                        match reference {
                            Some(text) => Some(text@),
                            None => None,
                        },
                    ),
                ),
                None => git_source(item_node(*item)) is None,
            },
    {
        let url = match item_get(item, "git") {
            Some(git) => match item_as_str(git) {
                Some(text) => String::from_str(text),
                None => {
                    return None;
                },
            },
            None => {
                return None;
            },
        };
        let found = match item_get(item, "branch") {
            Some(branch) => Some(branch),
            None => item_get(item, "tag"),
        };
        let reference = match found {
            Some(value) => match item_as_str(value) {
                Some(text) => Some(String::from_str(text)),
                None => None,
            },
            None => None,
        };
        Some((url, reference))
    }

    /// The local path of the package called `repo_name`, where `present`
    /// lists it among the names below the root that hold a manifest.
    pub fn find_local_repo_path(&self, repo_name: &str, present: &Vec<String>) -> (r: Option<
        String,
    >)
        ensures
            match r {
                Some(path) => views(present@).contains(repo_name@) && path@ == joined_path(
                    self.workspace_root@,
                    repo_name@,
                ),
                None => !views(present@).contains(repo_name@),
            },
    {
        if has_name(present, repo_name) {
            Some(join_path(self.workspace_root.as_str(), repo_name))
        } else {
            None
        }
    }

    /// The names of the namespaced packages among `manifests`, in order:
    /// the local packages that a remote dependency may stand for.
    pub fn available_repos(&self, manifests: &Vec<CargoManifest>) -> (r: Vec<String>)
        ensures
            views(r@) == local_repo_names(manifest_views(manifests@)),
    {
        let ghost all = manifest_views(manifests@);
        let mut out: Vec<String> = Vec::new();
        let mut i: usize = 0;
        assert(all.take(0) == Seq::<ManifestView>::empty());
        assert(views(out@) == Seq::<Seq<char>>::empty());
        while i < manifests.len()
            invariant
                i <= manifests.len(),
                all == manifest_views(manifests@),
                views(out@) == local_repo_names(all.take(i as int)),
            decreases manifests.len() - i,
        {
            proof {
                assert(all.take(i + 1).drop_last() == all.take(i as int));
                assert(all.take(i + 1).last() == manifests@[i as int]@);
            }
            if has_namespace(manifests[i].package_name.as_str()) {
                let ghost previous = out@;
                let name = manifests[i].package_name.clone();
                out.push(name);
                assert(views(out@) == views(previous).push(name@));
            }
            i += 1;
        }
        assert(all.take(manifests.len() as int) == all);
        out
    }

    /// Scans one dependency section of a manifest.
    fn discover_in_section(
        &self,
        manifests: &Vec<CargoManifest>,
        present: &Vec<String>,
        m: &CargoManifest,
        kind: DependencyType,
        out: &mut Vec<GitDependency>,
    )
        ensures
            git_views(final(out)@) == scan_section(
                git_views(old(out)@),
                self.workspace_root@,
                manifest_views(manifests@),
                views(present@),
                m@.entries,
                kind,
            ),
    {
        let section = match kind {
            DependencyType::Normal => "dependencies",
            DependencyType::Dev => "dev-dependencies",
            DependencyType::Build => "build-dependencies",
        };
        assert(section@ == section_name(kind));
        let table = match table_get(root_table(&m.document), section) {
            Some(item) => match item_as_table(item) {
                Some(table) => table,
                None => {
                    return ;
                },
            },
            None => {
                return ;
            },
        };
        let keys = keys_of(table);
        let ghost entries = table_entries(*table);
        let ghost before = git_views(out@);
        let ghost all = manifest_views(manifests@);
        let mut i: usize = 0;
        while i < keys.len()
            invariant
                i <= keys.len(),
                keys@.len() == entries.len(),
                entries == table_entries(*table),
                all == manifest_views(manifests@),
                distinct_keys(entries),
                forall|k: int| 0 <= k < keys@.len() ==> (#[trigger] keys@[k])@ == entries[k].0,
                git_views(out@) == scan_entries(
                    before,
                    self.workspace_root@,
                    all,
                    views(present@),
                    entries,
                    i as nat,
                ),
            decreases keys.len() - i,
        {
            let name = keys[i].as_str();
            proof {
                lemma_lookup_at(entries, i as int);
            }
            match table_get(table, name) {
                Some(item) => {
                    match Self::parse_git_dependency(name, item) {
                        Some((url, reference)) => {
                            if has_local_repo(manifests, name) {
                                match self.find_local_repo_path(name, present) {
                                    Some(local_path) => {
                                        place(
                                            out,
                                            GitDependency {
                                                name: String::from_str(name),
                                                git_url: url,
                                                branch_or_tag: reference,
                                                local_path,
                                            },
                                        );
                                    },
                                    None => {},
                                }
                            }
                        },
                        None => {},
                    }
                },
                None => {
                    assert(false);
                },
            }
            i += 1;
        }
    }

    /// The remote dependencies of `manifests` that a local package can stand
    /// for, one per name, sorted by name.
    ///
    /// An entry of a dependency section qualifies where it carries a remote
    /// URL, a namespaced package of its name is among the manifests, and
    /// `present` lists the name: the caller found a manifest at the place
    /// that [`PatchManager::expected_manifest_path`] gives. Where several
    /// entries share a name, the one scanned last stands.
    pub fn discover_patchable_dependencies(
        &self,
        manifests: &Vec<CargoManifest>,
        present: &Vec<String>,
    ) -> (r: Vec<GitDependency>)
        ensures
            git_views(r@) == scan_manifests(
                self.workspace_root@,
                manifest_views(manifests@),
                views(present@),
                manifests@.len() as nat,
            ),
            strictly_ordered(git_views(r@)),
    {
        proof {
            lemma_scan_manifests_ordered(
                self.workspace_root@,
                manifest_views(manifests@),
                views(present@),
                manifests@.len() as nat,
            );
        }
        let ghost all = manifest_views(manifests@);
        let mut out: Vec<GitDependency> = Vec::new();
        let mut i: usize = 0;
        assert(git_views(out@) == Seq::<GitDependencyView>::empty());
        while i < manifests.len()
            invariant
                i <= manifests.len(),
                all == manifest_views(manifests@),
                git_views(out@) == scan_manifests(
                    self.workspace_root@,
                    all,
                    views(present@),
                    i as nat,
                ),
            decreases manifests.len() - i,
        {
            assert(all[i as int] == manifests@[i as int]@);
            self.discover_in_section(
                manifests,
                present,
                &manifests[i],
                DependencyType::Normal,
                &mut out,
            );
            self.discover_in_section(manifests, present, &manifests[i], DependencyType::Dev, &mut out);
            self.discover_in_section(
                manifests,
                present,
                &manifests[i],
                DependencyType::Build,
                &mut out,
            );
            i += 1;
        }
        out
    }
}

impl PatchReport {
    /// The report with the outcome of the consistency probe recorded: a
    /// success marks the overrides verified, a failure keeps its message.
    /// The overrides stay written either way.
    pub fn record_verification(self, outcome: Result<(), String>) -> (r: PatchReport)
        ensures
            r.patched_count == self.patched_count,
            r.config_path == self.config_path,
            r.verified == outcome is Ok,
            outcome is Ok ==> r.verification_error == self.verification_error,
            outcome matches Err(message) ==> r.verification_error == Some(message),
    {
        match outcome {
            Ok(_) => PatchReport {
                patched_count: self.patched_count,
                config_path: self.config_path,
                verified: true,
                verification_error: self.verification_error,
            },
            Err(message) => PatchReport {
                patched_count: self.patched_count,
                config_path: self.config_path,
                verified: false,
                verification_error: Some(message),
            },
        }
    }
}

} // verus!
