//! TOML documents, edited in place by `toml_edit` so that comments, layout and
//! unknown keys survive, and described to the verifier by their logical
//! content.

use vstd::prelude::*;

verus! {

/// `toml_edit::DocumentMut`: a document that can be edited. The verifier
/// does not look inside.
#[verifier::external_type_specification]
#[verifier::external_body]
pub struct ExDocumentMut(toml_edit::DocumentMut);

/// `toml_edit::Item`: a value, a table or an array of tables. The verifier
/// does not look inside.
#[verifier::external_type_specification]
#[verifier::external_body]
pub struct ExItem(toml_edit::Item);

/// `toml_edit::Table`: a table with its keys in order. The verifier does
/// not look inside.
#[verifier::external_type_specification]
#[verifier::external_body]
pub struct ExTable(toml_edit::Table);

/// `toml_edit::TomlError`: why a text is not TOML.
#[verifier::external_type_specification]
#[verifier::external_body]
pub struct ExTomlError(toml_edit::TomlError);

/// The logical content of one item of a document.
///
/// A table is given by its entries: the keys under which it holds an item,
/// each with the content of that item, in the order in which `toml_edit`
/// walks the table. Comments and layout are no part of the content.
pub enum Node {
    /// A string value.
    Text(Seq<char>),
    /// A table written under a header or through dotted keys.
    Table(Seq<(Seq<char>, Node)>),
    /// A table written inline, between braces.
    Inline(Seq<(Seq<char>, Node)>),
    /// Anything else: a number, a boolean, a date, an array, an array of
    /// tables. The payload tells such items apart and is otherwise left open.
    Other(Seq<char>),
}

/// What `toml_edit` makes of a document text: the entries of the root table,
/// or nothing where the text is not TOML.
pub uninterp spec fn toml_parse(text: Seq<char>) -> Option<Seq<(Seq<char>, Node)>>;

/// The entries of the root table of a document.
pub uninterp spec fn document_entries(doc: toml_edit::DocumentMut) -> Seq<(Seq<char>, Node)>;

/// The entries of a table.
pub uninterp spec fn table_entries(table: toml_edit::Table) -> Seq<(Seq<char>, Node)>;

/// The logical content of an item.
pub uninterp spec fn item_node(item: toml_edit::Item) -> Node;

/// The text that `toml_edit` writes for a document.
pub uninterp spec fn rendered(doc: toml_edit::DocumentMut) -> Seq<char>;

/// The index of the first entry under `key`.
pub open spec fn index_of(entries: Seq<(Seq<char>, Node)>, key: Seq<char>) -> Option<int>
    decreases entries.len(),
{
    if entries.len() == 0 {
        None
    } else if entries[0].0 == key {
        Some(0)
    } else {
        match index_of(entries.skip(1), key) {
            Some(i) => Some(i + 1),
            None => None,
        }
    }
}

/// The item under `key`.
pub open spec fn lookup(entries: Seq<(Seq<char>, Node)>, key: Seq<char>) -> Option<Node> {
    match index_of(entries, key) {
        Some(i) => Some(entries[i].1),
        None => None,
    }
}

/// No key occurs twice.
pub open spec fn distinct_keys(entries: Seq<(Seq<char>, Node)>) -> bool {
    forall|i: int, j: int|
        0 <= i < entries.len() && 0 <= j < entries.len() && i != j ==> (#[trigger] entries[i]).0
            != (#[trigger] entries[j]).0
}

/// The node is a table of either form.
pub open spec fn is_table_like(node: Node) -> bool {
    node is Table || node is Inline
}

/// The entries of a table of either form; none for any other item.
pub open spec fn children(node: Node) -> Seq<(Seq<char>, Node)> {
    match node {
        Node::Table(entries) => entries,
        Node::Inline(entries) => entries,
        _ => Seq::empty(),
    }
}

/// The table `node` with `entries` in place of its own.
pub open spec fn with_children(node: Node, entries: Seq<(Seq<char>, Node)>) -> Node {
    match node {
        Node::Inline(_) => Node::Inline(entries),
        _ => Node::Table(entries),
    }
}

/// The item under `key` in a table of either form.
pub open spec fn child(node: Node, key: Seq<char>) -> Option<Node> {
    lookup(children(node), key)
}

/// `entries` with the item under `key` replaced by `node`, in place.
pub open spec fn replaced(entries: Seq<(Seq<char>, Node)>, key: Seq<char>, node: Node) -> Seq<
    (Seq<char>, Node),
> {
    match index_of(entries, key) {
        Some(i) => entries.update(i, (key, node)),
        None => entries,
    }
}

/// The table `node` with `item` in place of the item under `key`.
pub open spec fn with_child(node: Node, key: Seq<char>, item: Node) -> Node {
    with_children(node, replaced(children(node), key, item))
}

/// `after` is `before` with `node` under `key`: in place where `before` has
/// the key, as one more entry at some position where it has not.
pub open spec fn binds(
    before: Seq<(Seq<char>, Node)>,
    after: Seq<(Seq<char>, Node)>,
    key: Seq<char>,
    node: Node,
) -> bool {
    match index_of(before, key) {
        Some(i) => after == before.update(i, (key, node)),
        None => exists|at: int| 0 <= at <= before.len() && after == before.insert(at, (key, node)),
    }
}

/// `entries` without the entry under `key`.
pub open spec fn without(entries: Seq<(Seq<char>, Node)>, key: Seq<char>) -> Seq<
    (Seq<char>, Node),
> {
    match index_of(entries, key) {
        Some(i) => entries.remove(i),
        None => entries,
    }
}

/// What `index_of` finds is the first entry under the key.
pub proof fn lemma_index_of(entries: Seq<(Seq<char>, Node)>, key: Seq<char>)
    ensures
        match index_of(entries, key) {
            Some(i) => 0 <= i < entries.len() && entries[i].0 == key && forall|j: int|
                0 <= j < i ==> (#[trigger] entries[j]).0 != key,
            None => forall|j: int| 0 <= j < entries.len() ==> (#[trigger] entries[j]).0 != key,
        },
    decreases entries.len(),
{
    if entries.len() > 0 && entries[0].0 != key {
        let rest = entries.skip(1);
        lemma_index_of(rest, key);
        match index_of(rest, key) {
            Some(i) => {
                assert forall|j: int| 0 <= j < i + 1 implies (#[trigger] entries[j]).0 != key by {
                    if j > 0 {
                        assert(rest[j - 1] == entries[j]);
                    }
                }
            },
            None => {
                assert forall|j: int| 0 <= j < entries.len() implies (#[trigger] entries[j]).0
                    != key by {
                    if j > 0 {
                        assert(rest[j - 1] == entries[j]);
                    }
                }
            },
        }
    }
}

/// In a table without repeated keys, looking up the key of an entry finds
/// that entry.
pub proof fn lemma_lookup_at(entries: Seq<(Seq<char>, Node)>, i: int)
    requires
        distinct_keys(entries),
        0 <= i < entries.len(),
    ensures
        index_of(entries, entries[i].0) == Some(i),
        lookup(entries, entries[i].0) == Some(entries[i].1),
{
    lemma_index_of(entries, entries[i].0);
}

/// Replacing an item by itself changes nothing.
pub proof fn lemma_replaced_same(entries: Seq<(Seq<char>, Node)>, key: Seq<char>)
    ensures
        lookup(entries, key) matches Some(node) ==> replaced(entries, key, node) == entries,
{
    lemma_index_of(entries, key);
    match index_of(entries, key) {
        Some(i) => {
            assert(entries.update(i, (key, entries[i].1)) =~= entries);
        },
        None => {},
    }
}

/// The keys of a table, in the order of its entries. No key occurs twice.
pub fn keys_of(table: &toml_edit::Table) -> (keys: Vec<String>)
    ensures
        keys@.len() == table_entries(*table).len(),
        forall|i: int| 0 <= i < keys@.len() ==> (#[trigger] keys@[i])@ == table_entries(*table)[i].0,
        distinct_keys(table_entries(*table)),
{
    let keys = table_keys(table);
    let ghost entries = table_entries(*table);
    assert forall|a: int, b: int|
        0 <= a < entries.len() && 0 <= b < entries.len() && a != b implies (#[trigger] entries[a]).0
        != (#[trigger] entries[b]).0 by {
        assert(keys@[a]@ == entries[a].0 && keys@[b]@ == entries[b].0);
    }
    keys
}

/// Putting an item under a key that the table lacks binds the key to the
/// item and leaves every other key as it was.
pub proof fn lemma_lookup_insert(
    entries: Seq<(Seq<char>, Node)>,
    at: int,
    key: Seq<char>,
    node: Node,
    other: Seq<char>,
)
    requires
        0 <= at <= entries.len(),
        index_of(entries, key) is None,
    ensures
        index_of(entries.insert(at, (key, node)), key) == Some(at),
        lookup(entries.insert(at, (key, node)), other) == (if other == key {
            Some(node)
        } else {
            lookup(entries, other)
        }),
    decreases entries.len(),
{
    let after = entries.insert(at, (key, node));
    lemma_index_of(entries, key);
    if at == 0 {
        assert(after.skip(1) =~= entries);
        if other != key {
            lemma_index_of(entries, other);
        }
    } else {
        assert(after[0] == entries[0]);
        assert(after.skip(1) =~= entries.skip(1).insert(at - 1, (key, node)));
        assert(index_of(entries.skip(1), key) is None);
        lemma_lookup_insert(entries.skip(1), at - 1, key, node, other);
        lemma_index_of(entries.skip(1), other);
        lemma_index_of(after.skip(1), other);
    }
}

/// Replacing the item under a key binds the key to the new item and leaves
/// every other key as it was.
pub proof fn lemma_lookup_replaced(
    entries: Seq<(Seq<char>, Node)>,
    key: Seq<char>,
    node: Node,
    other: Seq<char>,
)
    ensures
        index_of(replaced(entries, key, node), other) == index_of(entries, other),
        lookup(replaced(entries, key, node), other) == (if other == key && lookup(entries, key)
            is Some {
            Some(node)
        } else {
            lookup(entries, other)
        }),
        replaced(entries, key, node).len() == entries.len(),
    decreases entries.len(),
{
    lemma_index_of(entries, key);
    lemma_index_of(entries, other);
    let after = replaced(entries, key, node);
    if entries.len() > 0 {
        if entries[0].0 == key {
            assert(after.skip(1) =~= entries.skip(1));
        } else {
            lemma_lookup_replaced(entries.skip(1), key, node, other);
            assert(after.skip(1) =~= replaced(entries.skip(1), key, node));
        }
    }
    assert(index_of(after, other) == index_of(entries, other));
    match index_of(entries, other) {
        Some(j) => {
            match index_of(entries, key) {
                Some(i) => {
                    if other != key {
                        assert(after[j] == entries[j]);
                    }
                },
                None => {},
            }
        },
        None => {},
    }
}

/// Where `after` is `before` with `node` under `key`, the key is bound to
/// the item, every other key is as it was, and no key is repeated if none
/// was.
pub proof fn lemma_binds(
    before: Seq<(Seq<char>, Node)>,
    after: Seq<(Seq<char>, Node)>,
    key: Seq<char>,
    node: Node,
)
    requires
        binds(before, after, key, node),
    ensures
        lookup(after, key) == Some(node),
        forall|other: Seq<char>| other != key ==> lookup(after, other) == lookup(before, other),
        after.len() == before.len() + (if lookup(before, key) is Some {
            0int
        } else {
            1int
        }),
        distinct_keys(before) ==> distinct_keys(after),
{
    lemma_index_of(before, key);
    match index_of(before, key) {
        Some(i) => {
            assert(after == replaced(before, key, node));
            lemma_lookup_replaced(before, key, node, key);
            assert forall|other: Seq<char>| other != key implies lookup(after, other) == lookup(
                before,
                other,
            ) by {
                lemma_lookup_replaced(before, key, node, other);
            }
        },
        None => {
            let at = choose|at: int|
                0 <= at <= before.len() && after == before.insert(at, (key, node));
            lemma_lookup_insert(before, at, key, node, key);
            assert forall|other: Seq<char>| other != key implies lookup(after, other) == lookup(
                before,
                other,
            ) by {
                lemma_lookup_insert(before, at, key, node, other);
            }
            if distinct_keys(before) {
                assert forall|a: int, b: int|
                    0 <= a < after.len() && 0 <= b < after.len() && a != b implies (
                #[trigger] after[a]).0 != (#[trigger] after[b]).0 by {
                    let x = if a < at { a } else { a - 1 };
                    let y = if b < at { b } else { b - 1 };
                    if a != at {
                        assert(after[a] == before[x]);
                    }
                    if b != at {
                        assert(after[b] == before[y]);
                    }
                }
            }
        },
    }
}

/// Calls `str::parse::<toml_edit::DocumentMut>`. The contract names the
/// outcome `toml_parse` of the text: the root entries of the document on
/// success, nothing on an error.
#[verifier::external_body]
pub(crate) fn parse_document(text: &str) -> (r: Result<
    toml_edit::DocumentMut,
    toml_edit::TomlError,
>)
    ensures
        match r {
            Ok(doc) => toml_parse(text@) == Some(document_entries(doc)),
            Err(_) => toml_parse(text@) is None,
        },
{
    text.parse::<toml_edit::DocumentMut>()
}

/// Calls `toml_edit::DocumentMut::new`, which makes a document whose root
/// table has no entry.
#[verifier::external_body]
pub(crate) fn new_document() -> (doc: toml_edit::DocumentMut)
    ensures
        document_entries(doc) == Seq::<(Seq<char>, Node)>::empty(),
{
    toml_edit::DocumentMut::new()
}

/// Calls `toml_edit::DocumentMut::as_table`: the root table, which holds the
/// entries of the document.
#[verifier::external_body]
pub(crate) fn root_table(doc: &toml_edit::DocumentMut) -> (table: &toml_edit::Table)
    ensures
        table_entries(*table) == document_entries(*doc),
{
    doc.as_table()
}

/// Calls `toml_edit::Table::iter` and collects the keys. They come in the
/// order of the entries, and a table holds each key once.
#[verifier::external_body]
pub(crate) fn table_keys(table: &toml_edit::Table) -> (keys: Vec<String>)
    ensures
        keys@.len() == table_entries(*table).len(),
        forall|i: int| 0 <= i < keys@.len() ==> (#[trigger] keys@[i])@ == table_entries(*table)[i].0,
        forall|i: int, j: int|
            0 <= i < keys@.len() && 0 <= j < keys@.len() && i != j ==> (#[trigger] keys@[i])@ != (
            #[trigger] keys@[j])@,
{
    table.iter().map(|(key, _)| key.to_string()).collect()
}

/// Calls `toml_edit::Table::get`: the item under the key, if the table has
/// one.
#[verifier::external_body]
pub(crate) fn table_get<'a>(table: &'a toml_edit::Table, key: &str) -> (r: Option<
    &'a toml_edit::Item,
>)
    ensures
        match r {
            Some(item) => lookup(table_entries(*table), key@) == Some(item_node(*item)),
            None => lookup(table_entries(*table), key@) is None,
        },
{
    table.get(key)
}

/// Calls `toml_edit::Item::as_table`: the table, where the item is one
/// written under a header or through dotted keys.
#[verifier::external_body]
pub(crate) fn item_as_table<'a>(item: &'a toml_edit::Item) -> (r: Option<&'a toml_edit::Table>)
    ensures
        match r {
            Some(table) => item_node(*item) == Node::Table(table_entries(*table)),
            None => !(item_node(*item) is Table),
        },
{
    item.as_table()
}

/// Calls `toml_edit::Item::as_str`: the text, where the item is a string
/// value.
#[verifier::external_body]
pub(crate) fn item_as_str<'a>(item: &'a toml_edit::Item) -> (r: Option<&'a str>)
    ensures
        match r {
            Some(text) => item_node(*item) == Node::Text(text@),
            None => !(item_node(*item) is Text),
        },
{
    item.as_str()
}

/// Calls `toml_edit::Item::get` with a string key: the item under the key,
/// where this item is a table of either form and has one.
#[verifier::external_body]
pub(crate) fn item_get<'a>(item: &'a toml_edit::Item, key: &str) -> (r: Option<
    &'a toml_edit::Item,
>)
    ensures
        match r {
            Some(found) => child(item_node(*item), key@) == Some(item_node(*found)),
            None => child(item_node(*item), key@) is None,
        },
{
    item.get(key)
}

/// Calls `to_string` on a document, which `toml_edit` renders with the
/// layout it has kept. The contract names the text.
#[verifier::external_body]
pub(crate) fn render_document(doc: &toml_edit::DocumentMut) -> (text: String)
    ensures
        text@ == rendered(*doc),
{
    doc.to_string()
}

/// Assigns `toml_edit::value(text)` to `doc[table][key]`. Where the root
/// holds a table of either form under `table`, and that table an item under
/// `key`, the assignment replaces that item by a string value and touches
/// nothing else.
#[verifier::external_body]
pub(crate) fn replace_text(doc: &mut toml_edit::DocumentMut, table: &str, key: &str, text: &str)
    requires
        lookup(document_entries(*old(doc)), table@) matches Some(node) && is_table_like(node)
            && child(node, key@) is Some,
    ensures
        document_entries(*final(doc)) == ({
            let before = document_entries(*old(doc));
            let node = lookup(before, table@)->Some_0;
            replaced(before, table@, with_child(node, key@, Node::Text(text@)))
        }),
{
    doc[table][key] = toml_edit::value(text);
}

/// Assigns `toml_edit::value(text)` to `doc[table][entry][key]`. Where the
/// three keys lead through tables of either form to an item, the assignment
/// replaces that item by a string value and touches nothing else.
#[verifier::external_body]
pub(crate) fn replace_nested_text(
    doc: &mut toml_edit::DocumentMut,
    table: &str,
    entry: &str,
    key: &str,
    text: &str,
)
    requires
        lookup(document_entries(*old(doc)), table@) matches Some(node) && is_table_like(node) && (
        child(node, entry@) matches Some(inner) && is_table_like(inner) && child(inner, key@)
            is Some),
    ensures
        document_entries(*final(doc)) == ({
            let before = document_entries(*old(doc));
            let node = lookup(before, table@)->Some_0;
            let inner = child(node, entry@)->Some_0;
            replaced(
                before,
                table@,
                with_child(node, entry@, with_child(inner, key@, Node::Text(text@))),
            )
        }),
{
    doc[table][entry][key] = toml_edit::value(text);
}

/// Assigns an empty `toml_edit::Table` to `doc[key]`. Where the root has no
/// item under `key`, it gains one entry, an empty table, and keeps the others
/// as they are.
#[verifier::external_body]
pub(crate) fn insert_empty_table(doc: &mut toml_edit::DocumentMut, key: &str)
    requires
        lookup(document_entries(*old(doc)), key@) is None,
    ensures
        binds(
            document_entries(*old(doc)),
            document_entries(*final(doc)),
            key@,
            Node::Table(Seq::empty()),
        ),
{
    doc[key] = toml_edit::Item::Table(toml_edit::Table::new());
}

/// Calls `toml_edit::Table::insert` on the table that the root holds under
/// `section`, with `name` and a new table whose one entry is the string
/// `text` under `field`. The insert replaces the item under `name` or adds
/// an entry, and touches nothing else.
#[verifier::external_body]
pub(crate) fn insert_text_table(
    doc: &mut toml_edit::DocumentMut,
    section: &str,
    name: &str,
    field: &str,
    text: &str,
)
    requires
        lookup(document_entries(*old(doc)), section@) matches Some(node) && node is Table,
    ensures
        ({
            let before = document_entries(*old(doc));
            let entries = children(lookup(before, section@)->Some_0);
            exists|updated: Seq<(Seq<char>, Node)>|
                binds(
                    entries,
                    updated,
                    name@,
                    Node::Table(seq![(field@, Node::Text(text@))]),
                ) && document_entries(*final(doc)) == replaced(
                    before,
                    section@,
                    Node::Table(updated),
                )
        }),
{
    let mut entry = toml_edit::Table::new();
    entry.insert(field, toml_edit::value(text));
    if let Some(toml_edit::Item::Table(table)) = doc.get_mut(section) {
        table.insert(name, toml_edit::Item::Table(entry));
    }
}

/// Calls `toml_edit::Table::remove` on the root table: the entry under `key`
/// leaves, the others keep their order.
#[verifier::external_body]
pub(crate) fn remove_key(doc: &mut toml_edit::DocumentMut, key: &str)
    ensures
        document_entries(*final(doc)) == without(document_entries(*old(doc)), key@),
{
    doc.remove(key);
}

} // verus!
