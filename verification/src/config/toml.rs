//! TOML documents that are edited in place, so that comments and layout survive.
//!
//! A table is written under a header or with dotted keys, or inline as a value. What a document
//! holds is the same either way; where the difference matters, it is asked for.

use vstd::prelude::*;
use crate::codec::{toml_reading, value_view};
use crate::template::trim_end_spec;
use crate::value::{map_get, map_insert, map_remove, JsonView};

verus! {

/// `toml_edit::DocumentMut`, a TOML document with its layout.
#[verifier::external_type_specification]
#[verifier::external_body]
pub struct ExDocumentMut(toml_edit::DocumentMut);

/// What a document holds.
pub uninterp spec fn toml_tree(document: toml_edit::DocumentMut) -> JsonView;

/// The keys at the root of a document that stand for tables which are not written inline.
pub uninterp spec fn toml_sections(document: toml_edit::DocumentMut) -> Set<Seq<char>>;

/// Where a document has tables of either kind: at the root, and in the tables there.
pub uninterp spec fn toml_tables(document: toml_edit::DocumentMut) -> Set<Seq<Seq<char>>>;

/// Where a document has values in the tables of the tables at the root: what is no table under a
/// header, and no list of such tables.
pub uninterp spec fn toml_values(document: toml_edit::DocumentMut) -> Set<Seq<Seq<char>>>;

/// The spacing and the comments of a document, by the keys that lead to the item they belong to; no
/// keys lead to the document itself. First come those around the item, in front of its key and behind
/// it, around its value or its header; then those inside it that belong to none of its keys, as those
/// in a list do.
pub uninterp spec fn toml_layout(document: toml_edit::DocumentMut) -> Map<
    Seq<Seq<char>>,
    (Seq<char>, Seq<char>),
>;

/// The spacing and the comments of a document are such as TOML has where they stand. It is so where
/// a document was read, and where it was made from values alone.
pub uninterp spec fn toml_sound(document: toml_edit::DocumentMut) -> bool;

/// How a document is printed.
pub uninterp spec fn toml_printed(document: toml_edit::DocumentMut) -> Seq<char>;

/// What is wrong with a text that should be a TOML document to edit, if anything.
pub uninterp spec fn toml_refusal(text: Seq<char>) -> Option<Seq<char>>;

/// What encoding a value as a TOML document gives: what the document holds, or what is wrong.
pub uninterp spec fn toml_encoding(value: JsonView) -> Result<JsonView, Seq<char>>;

/// A TOML document, as a mathematical value.
#[verifier::ext_equal]
pub ghost struct TomlView {
    pub tree: JsonView,
    pub sections: Set<Seq<char>>,
    pub tables: Set<Seq<Seq<char>>>,
    pub values: Set<Seq<Seq<char>>>,
    pub layout: Map<Seq<Seq<char>>, (Seq<char>, Seq<char>)>,
}

/// A TOML document, as a mathematical value.
pub open spec fn toml_view(document: toml_edit::DocumentMut) -> TomlView {
    TomlView {
        tree: toml_tree(document),
        sections: toml_sections(document),
        tables: toml_tables(document),
        values: toml_values(document),
        layout: toml_layout(document),
    }
}

/// The entries of a table, none where a value is no table.
pub open spec fn entries_of(value: Option<JsonView>) -> Seq<(Seq<char>, JsonView)> {
    match value {
        Some(JsonView::Table(map)) => map,
        _ => Seq::empty(),
    }
}

/// What goes by a name at the root of a document.
pub open spec fn at_root(tree: JsonView, table: Seq<char>) -> Option<JsonView> {
    map_get(entries_of(Some(tree)), table)
}

/// What goes by a name in a table at the root of a document.
pub open spec fn in_table(tree: JsonView, table: Seq<char>, entry: Seq<char>) -> Option<JsonView> {
    map_get(entries_of(at_root(tree, table)), entry)
}

/// A document with an entry of a table at the root set.
pub open spec fn with_entry(
    tree: JsonView,
    table: Seq<char>,
    entry: Seq<char>,
    value: JsonView,
) -> JsonView {
    JsonView::Table(
        map_insert(
            entries_of(Some(tree)),
            table,
            JsonView::Table(map_insert(entries_of(at_root(tree, table)), entry, value)),
        ),
    )
}

/// A document with a key of an entry of a table at the root set to text.
pub open spec fn with_value(
    tree: JsonView,
    table: Seq<char>,
    entry: Seq<char>,
    key: Seq<char>,
    value: Seq<char>,
) -> JsonView {
    with_entry(
        tree,
        table,
        entry,
        JsonView::Table(
            map_insert(entries_of(in_table(tree, table, entry)), key, JsonView::Text(value)),
        ),
    )
}

/// A document without an entry of a table at the root.
pub open spec fn without_entry(tree: JsonView, table: Seq<char>, entry: Seq<char>) -> JsonView {
    JsonView::Table(
        map_insert(
            entries_of(Some(tree)),
            table,
            JsonView::Table(map_remove(entries_of(at_root(tree, table)), entry)),
        ),
    )
}

/// The spacing and the comments of `a` are those of `b` too, but for those of the item that `at`
/// leads to and of what is in it.
pub open spec fn kept_beside(
    a: Map<Seq<Seq<char>>, (Seq<char>, Seq<char>)>,
    b: Map<Seq<Seq<char>>, (Seq<char>, Seq<char>)>,
    at: Seq<Seq<char>>,
) -> bool {
    forall|path: Seq<Seq<char>>| #[trigger]
        a.contains_key(path) && !at.is_prefix_of(path) ==> b.contains_key(path) && b[path] == a[path]
}

/// The spacing and the comments of `a` are all those of `b` too.
pub open spec fn kept(
    a: Map<Seq<Seq<char>>, (Seq<char>, Seq<char>)>,
    b: Map<Seq<Seq<char>>, (Seq<char>, Seq<char>)>,
) -> bool {
    forall|path: Seq<Seq<char>>| #[trigger]
        a.contains_key(path) ==> b.contains_key(path) && b[path] == a[path]
}

/// What stands around the item that `at` leads to is the same.
pub open spec fn same_around(
    a: Map<Seq<Seq<char>>, (Seq<char>, Seq<char>)>,
    b: Map<Seq<Seq<char>>, (Seq<char>, Seq<char>)>,
    at: Seq<Seq<char>>,
) -> bool {
    a.contains_key(at) ==> b.contains_key(at) && b[at].0 == a[at].0
}

/// There are the same values, but for those that `at` leads to.
pub open spec fn same_values(
    a: Set<Seq<Seq<char>>>,
    b: Set<Seq<Seq<char>>>,
    at: Seq<Seq<char>>,
) -> bool {
    forall|path: Seq<Seq<char>>|
        !at.is_prefix_of(path) ==> #[trigger] a.contains(path) == b.contains(path)
}

/// A table with nothing in it but such tables. One that has no header of its own is not printed.
pub open spec fn hollow(value: JsonView) -> bool
    decreases value,
{
    match value {
        JsonView::Table(map) => forall|i: int| 0 <= i < map.len() ==> hollow((#[trigger] map[i]).1),
        _ => false,
    }
}

/// A document that was read holds what another does, tables in whatever order, hollow tables left
/// out at will.
pub open spec fn reads_like(read: JsonView, tree: JsonView) -> bool
    decreases tree,
{
    match (read, tree) {
        (JsonView::Table(held), JsonView::Table(map)) => {
            &&& forall|i: int|
                0 <= i < map.len() ==> match map_get(held, (#[trigger] map[i]).0) {
                    Some(value) => reads_like(value, map[i].1),
                    None => hollow(map[i].1),
                }
            &&& forall|j: int| 0 <= j < held.len() ==> map_get(map, (#[trigger] held[j]).0) is Some
        },
        (JsonView::List(held), JsonView::List(items)) => {
            &&& held.len() == items.len()
            &&& forall|i: int| 0 <= i < items.len() ==> reads_like(held[i], #[trigger] items[i])
        },
        _ => read == tree,
    }
}

/// A document whose texts hold no carriage return, nested at most `depth` deep.
pub open spec fn settled(value: JsonView, depth: nat) -> bool
    decreases depth,
{
    match value {
        JsonView::Text(s) => !s.contains('\r'),
        JsonView::List(items) => depth > 0 && forall|i: int|
            0 <= i < items.len() ==> settled(#[trigger] items[i], (depth - 1) as nat),
        JsonView::Table(map) => depth > 0 && forall|i: int|
            0 <= i < map.len() ==> settled((#[trigger] map[i]).1, (depth - 1) as nat),
        _ => true,
    }
}

/// A text reads as a document does.
pub open spec fn reads_as(text: Seq<char>, tree: JsonView) -> bool {
    toml_reading(text) matches Ok(read) && reads_like(read, tree)
}

/// A printed document reads as what it holds, whatever newlines stand at its end. A carriage return
/// in a text of several lines is not printed, and a document that is nested too deeply is not read.
pub open spec fn prints_as(printed: Seq<char>, tree: JsonView) -> bool {
    settled(tree, 40) ==> {
        let body = trim_end_spec(printed, "\n"@);
        &&& reads_as(body + "\n"@, tree)
        &&& reads_as(body + "\n"@ + "\n"@, tree)
        &&& reads_as(body + "\n"@ + "\r\n"@, tree)
    }
}

/// `toml_edit::DocumentMut::from_str` reads a document to edit, which holds what
/// `toml_edit::de::from_str` reads. The grammar and the wording of a refusal are not stated.
#[verifier::external_body]
fn parse_document(text: &str) -> (r: Result<toml_edit::DocumentMut, String>)
    ensures
        match r {
            Ok(document) => toml_sound(document) && toml_refusal(text@) is None && (toml_reading(
                text@,
            ) is Ok ==> toml_tree(document) == toml_reading(text@)->Ok_0),
            Err(message) => toml_refusal(text@) == Some(message@),
        },
{
    text.parse::<toml_edit::DocumentMut>().map_err(|e| e.to_string())
}

/// `toml_edit::DocumentMut::to_string` prints a document so that `toml_edit::de::from_str` reads what
/// it holds, as long as no spacing or comment was put where TOML has none. How the layout is printed
/// is not stated.
#[verifier::external_body]
fn print_document(document: &toml_edit::DocumentMut) -> (r: String)
    requires
        toml_sound(*document),
    ensures
        r@ == toml_printed(*document),
        prints_as(r@, toml_tree(*document)),
{
    document.to_string()
}

/// `toml_edit::DocumentMut::new` makes a document with nothing in it.
#[verifier::external_body]
fn empty_document() -> (r: toml_edit::DocumentMut)
    ensures
        toml_sound(r),
        toml_tree(r) == JsonView::Table(Seq::empty()),
{
    toml_edit::DocumentMut::new()
}

/// `toml_edit::Item::is_table` of what goes by a name at the root, if anything does.
#[verifier::external_body]
fn is_section(document: &toml_edit::DocumentMut, table: &str) -> (r: Option<bool>)
    ensures
        r is None == (at_root(toml_tree(*document), table@) is None),
        r is Some ==> r->0 == toml_sections(*document).contains(table@),
        r == Some(true) ==> toml_tables(*document).contains(seq![table@]),
{
    document.get(table).map(|item| item.is_table())
}

/// `toml_edit::Item::is_table_like` of what goes by a name at the root, if anything does.
#[verifier::external_body]
fn is_table(document: &toml_edit::DocumentMut, table: &str) -> (r: Option<bool>)
    ensures
        r is None == (at_root(toml_tree(*document), table@) is None),
        (r == Some(true)) == toml_tables(*document).contains(seq![table@]),
        r == Some(true) ==> at_root(toml_tree(*document), table@)->0 is Table,
{
    document.get(table).map(|item| item.is_table_like())
}

/// `toml_edit::Item::is_table_like` of what goes by a name in a table, if anything does.
#[verifier::external_body]
fn is_entry(document: &toml_edit::DocumentMut, table: &str, entry: &str) -> (r: Option<bool>)
    requires
        toml_tables(*document).contains(seq![table@]),
    ensures
        r is None == (in_table(toml_tree(*document), table@, entry@) is None),
        (r == Some(true)) == toml_tables(*document).contains(seq![table@, entry@]),
{
    document.get(table).and_then(|held| held.get(entry)).map(|item| item.is_table_like())
}

/// `toml_edit::Item::is_value` of what goes by a name in a table of a table, if anything does.
#[verifier::external_body]
fn is_value(document: &toml_edit::DocumentMut, table: &str, entry: &str, key: &str) -> (r: bool)
    ensures
        r == toml_values(*document).contains(seq![table@, entry@, key@]),
        r ==> toml_tables(*document).contains(seq![table@]) && toml_tables(*document).contains(
            seq![table@, entry@],
        ),
{
    let held = document.get(table).and_then(|held| held.get(entry));
    held.and_then(|held| held.get(key)).is_some_and(|item| item.is_value())
}

/// `toml_edit::Item` by index, set to text: what is missing on the way there is made, inline.
#[verifier::external_body]
fn set_value(
    document: &mut toml_edit::DocumentMut,
    table: &str,
    entry: &str,
    key: &str,
    value: &str,
)
    requires
        takes_value(toml_view(*old(document)), table@, entry@),
    ensures
        toml_sound(*old(document)) ==> toml_sound(*final(document)),
        toml_tree(*final(document)) == with_value(
            toml_tree(*old(document)),
            table@,
            entry@,
            key@,
            value@,
        ),
        toml_sections(*final(document)) == toml_sections(*old(document)),
        toml_tables(*final(document)) == toml_tables(*old(document)).insert(seq![table@]).insert(
            seq![table@, entry@],
        ),
        toml_values(*final(document)) == toml_values(*old(document)).insert(
            seq![table@, entry@, key@],
        ),
        kept_beside(
            toml_layout(*old(document)),
            toml_layout(*final(document)),
            seq![table@, entry@, key@],
        ),
{
    document[table][entry][key] = toml_edit::value(value);
}

/// `toml_edit::Item` by index, its value exchanged for text. The new value is given the old one's
/// `toml_edit::Value::decor`, and its key is not touched, so that what stands around it stays.
#[verifier::external_body]
fn change_value(
    document: &mut toml_edit::DocumentMut,
    table: &str,
    entry: &str,
    key: &str,
    value: &str,
)
    requires
        takes_value(toml_view(*old(document)), table@, entry@),
        toml_values(*old(document)).contains(seq![table@, entry@, key@]),
    ensures
        toml_sound(*old(document)) ==> toml_sound(*final(document)),
        toml_tree(*final(document)) == with_value(
            toml_tree(*old(document)),
            table@,
            entry@,
            key@,
            value@,
        ),
        toml_sections(*final(document)) == toml_sections(*old(document)),
        toml_tables(*final(document)) == toml_tables(*old(document)),
        toml_values(*final(document)) == toml_values(*old(document)),
        kept_beside(
            toml_layout(*old(document)),
            toml_layout(*final(document)),
            seq![table@, entry@, key@],
        ),
        same_around(
            toml_layout(*old(document)),
            toml_layout(*final(document)),
            seq![table@, entry@, key@],
        ),
{
    if let Some(held) = document[table][entry][key].as_value_mut() {
        let decor = held.decor().clone();
        *held = toml_edit::Value::from(value);
        *held.decor_mut() = decor;
    }
}

/// `toml_edit::Table::insert` of a new table at the root, under a name that nothing goes by.
#[verifier::external_body]
fn add_section(document: &mut toml_edit::DocumentMut, table: &str, implicit: bool)
    requires
        at_root(toml_tree(*old(document)), table@) is None,
    ensures
        toml_sound(*old(document)) ==> toml_sound(*final(document)),
        toml_tree(*final(document)) == JsonView::Table(
            map_insert(
                entries_of(Some(toml_tree(*old(document)))),
                table@,
                JsonView::Table(Seq::empty()),
            ),
        ),
        toml_sections(*final(document)) == toml_sections(*old(document)).insert(table@),
        toml_tables(*final(document)) == toml_tables(*old(document)).insert(seq![table@]),
        toml_values(*final(document)) == toml_values(*old(document)),
        kept(toml_layout(*old(document)), toml_layout(*final(document))),
{
    let mut made = toml_edit::Table::new();
    made.set_implicit(implicit);
    document.insert(table, toml_edit::Item::Table(made));
}

/// A value without nulls and numbers, its lists and maps nested at most `depth` deep.
pub open spec fn worded(value: JsonView, depth: nat) -> bool
    decreases depth,
{
    match value {
        JsonView::Null => false,
        JsonView::Bool(_) => true,
        JsonView::Number(_) => false,
        JsonView::Text(_) => true,
        JsonView::List(items) => depth > 0 && forall|i: int|
            0 <= i < items.len() ==> worded(#[trigger] items[i], (depth - 1) as nat),
        JsonView::Table(map) => depth > 0 && forall|i: int|
            0 <= i < map.len() ==> worded((#[trigger] map[i]).1, (depth - 1) as nat),
    }
}

/// A map of plain words is encoded, and the document holds just that.
pub open spec fn encodes(r: Result<toml_edit::DocumentMut, String>, value: JsonView) -> bool {
    value is Table && worded(value, 20) ==> (r matches Ok(document) && toml_tree(document) == value)
}

/// `toml_edit::ser::to_document` encodes a value as a document. A map without nulls and numbers that
/// is not nested deeply is always encoded, and the document holds just that. What else can be
/// encoded, and the wording of a refusal, are not stated.
#[verifier::external_body]
fn encode(value: &serde_json::Value) -> (r: Result<toml_edit::DocumentMut, String>)
    ensures
        match r {
            Ok(document) => toml_sound(document) && toml_encoding(value_view(*value)) == Ok::<
                JsonView,
                Seq<char>,
            >(toml_tree(document)),
            Err(message) => toml_encoding(value_view(*value)) == Err::<JsonView, Seq<char>>(
                message@,
            ),
        },
        encodes(r, value_view(*value)),
{
    toml_edit::ser::to_document(value).map_err(|e| e.to_string())
}

/// `toml_edit::Table::insert` of what a document holds, as an entry of a table at the root.
#[verifier::external_body]
fn insert_entry(
    document: &mut toml_edit::DocumentMut,
    table: &str,
    entry: &str,
    new: &toml_edit::DocumentMut,
)
    requires
        toml_sections(*old(document)).contains(table@),
        toml_sound(*new),
    ensures
        toml_sound(*old(document)) ==> toml_sound(*final(document)),
        toml_tree(*final(document)) == with_entry(
            toml_tree(*old(document)),
            table@,
            entry@,
            toml_tree(*new),
        ),
        toml_sections(*final(document)) == toml_sections(*old(document)),
        toml_tables(*final(document)) == toml_tables(*old(document)).insert(seq![table@, entry@]),
        same_values(
            toml_values(*old(document)),
            toml_values(*final(document)),
            seq![table@, entry@],
        ),
        kept_beside(
            toml_layout(*old(document)),
            toml_layout(*final(document)),
            seq![table@, entry@],
        ),
{
    if let Some(held) = document.get_mut(table).and_then(|held| held.as_table_mut()) {
        held.insert(entry, toml_edit::Item::Table(new.as_table().clone()));
    }
}

/// `toml_edit::TableLike::remove` of an entry of a table at the root.
#[verifier::external_body]
fn remove_entry(document: &mut toml_edit::DocumentMut, table: &str, entry: &str)
    requires
        toml_tables(*old(document)).contains(seq![table@]),
    ensures
        toml_sound(*old(document)) ==> toml_sound(*final(document)),
        toml_tree(*final(document)) == without_entry(toml_tree(*old(document)), table@, entry@),
        toml_sections(*final(document)) == toml_sections(*old(document)),
        toml_tables(*final(document)) == toml_tables(*old(document)).remove(seq![table@, entry@]),
        same_values(
            toml_values(*old(document)),
            toml_values(*final(document)),
            seq![table@, entry@],
        ),
        kept_beside(
            toml_layout(*old(document)),
            toml_layout(*final(document)),
            seq![table@, entry@],
        ),
{
    if let Some(held) = document.get_mut(table).and_then(|held| held.as_table_like_mut()) {
        held.remove(entry);
    }
}

/// A value can be put into an entry of a table: each of the two is a table, or is not there.
pub open spec fn takes_value(view: TomlView, table: Seq<char>, entry: Seq<char>) -> bool {
    &&& at_root(view.tree, table) is None || view.tables.contains(seq![table])
    &&& in_table(view.tree, table, entry) is None || view.tables.contains(seq![table, entry])
}

/// A document has a key of an entry of a table set to text, where that can be had, else it is as it
/// was. What is missing on the way there is made, and what stood around an older value stands around
/// the new one. No other spacing and no other comment is lost.
pub open spec fn value_put(
    before: TomlView,
    after: TomlView,
    table: Seq<char>,
    entry: Seq<char>,
    key: Seq<char>,
    value: Seq<char>,
) -> bool {
    let path = seq![table, entry, key];
    if !takes_value(before, table, entry) {
        after == before
    } else {
        &&& after.tree == with_value(before.tree, table, entry, key, value)
        &&& after.sections == before.sections
        &&& after.tables == before.tables.insert(seq![table]).insert(seq![table, entry])
        &&& after.values == before.values.insert(path)
        &&& kept_beside(before.layout, after.layout, path)
        &&& before.values.contains(path) ==> same_around(before.layout, after.layout, path)
    }
}

/// A document has taken an entry, and lost no spacing and no comment of the others.
pub open spec fn entry_put(
    before: TomlView,
    after: TomlView,
    table: Seq<char>,
    entry: Seq<char>,
    value: JsonView,
) -> bool {
    &&& after.tree == with_entry(before.tree, table, entry, value)
    &&& after.sections == before.sections.insert(table)
    &&& after.tables == before.tables.insert(seq![table]).insert(seq![table, entry])
    &&& same_values(before.values, after.values, seq![table, entry])
    &&& kept_beside(before.layout, after.layout, seq![table, entry])
}

/// A table at the root takes an entry under a header: it is not there, or it is not written inline.
pub open spec fn takes_entry(view: TomlView, table: Seq<char>) -> bool {
    at_root(view.tree, table) is None || view.sections.contains(table)
}

/// A document has lost an entry of a table, where it has that table, and no spacing and no comment of
/// the others.
pub open spec fn entry_dropped(
    before: TomlView,
    after: TomlView,
    table: Seq<char>,
    entry: Seq<char>,
) -> bool {
    if before.tables.contains(seq![table]) {
        &&& after.tree == without_entry(before.tree, table, entry)
        &&& after.sections == before.sections
        &&& after.tables == before.tables.remove(seq![table, entry])
        &&& same_values(before.values, after.values, seq![table, entry])
        &&& kept_beside(before.layout, after.layout, seq![table, entry])
    } else {
        after == before
    }
}

/// Why an entry could not be put.
pub enum Unput {
    /// What goes by the table's name is none that takes an entry.
    NoTable,
    /// The entry cannot be encoded, and this is said of it.
    Unencoded(String),
}

/// A TOML document with its layout. It comes from a text, and is changed by the edits here alone, so
/// it can always be printed.
#[derive(Debug)]
pub struct TomlDocument {
    document: toml_edit::DocumentMut,
}

impl View for TomlDocument {
    type V = TomlView;

    closed spec fn view(&self) -> TomlView {
        toml_view(self.document)
    }
}

impl TomlDocument {
    #[verifier::type_invariant]
    spec fn sound(self) -> bool {
        toml_sound(self.document)
    }

    /// How the document is printed.
    pub closed spec fn printed(&self) -> Seq<char> {
        toml_printed(self.document)
    }

    /// Reads a document to edit.
    pub fn parse(text: &str) -> (r: Result<Self, String>)
        ensures
            match r {
                Ok(document) => toml_refusal(text@) is None && (toml_reading(text@) is Ok
                    ==> document@.tree == toml_reading(text@)->Ok_0),
                Err(message) => toml_refusal(text@) == Some(message@),
            },
    {
        match parse_document(text) {
            Ok(document) => Ok(TomlDocument { document }),
            Err(message) => Err(message),
        }
    }

    /// Prints the document.
    pub fn print(&self) -> (r: String)
        ensures
            r@ == self.printed(),
            prints_as(r@, self@.tree),
    {
        proof {
            use_type_invariant(self);
        }
        print_document(&self.document)
    }

    /// Sets a key of an entry of a table to text. The spacing and the comment around an older value
    /// are kept.
    pub fn put_value(&mut self, table: &str, entry: &str, key: &str, value: &str)
        ensures
            value_put(old(self)@, final(self)@, table@, entry@, key@, value@),
    {
        proof {
            use_type_invariant(&*self);
        }
        let ghost before = self@;
        match is_table(&self.document, table) {
            None => {
                assert(in_table(before.tree, table@, entry@) is None);
            },
            Some(false) => {
                return;
            },
            Some(true) => {
                if let Some(false) = is_entry(&self.document, table, entry) {
                    return;
                }
            },
        }
        let held = is_value(&self.document, table, entry, key);
        let mut document = empty_document();
        std::mem::swap(&mut document, &mut self.document);
        if held {
            change_value(&mut document, table, entry, key, value);
        } else {
            set_value(&mut document, table, entry, key, value);
        }
        self.document = document;
        proof {
            if held {
                assert(before.values.insert(seq![table@, entry@, key@]) =~= before.values);
                assert(before.tables.insert(seq![table@]).insert(seq![table@, entry@])
                    =~= before.tables);
            }
        }
    }

    /// Sets an entry of a table, which is made where it is missing.
    pub fn put_entry(&mut self, table: &str, entry: &str, value: &serde_json::Value) -> (r: Result<
        (),
        Unput,
    >)
        ensures
            match toml_encoding(value_view(*value)) {
                Err(said) => (r matches Err(Unput::Unencoded(message)) && message@ == said)
                    && final(self)@ == old(self)@,
                Ok(encoded) => if takes_entry(old(self)@, table@) {
                    r is Ok && entry_put(old(self)@, final(self)@, table@, entry@, encoded)
                } else {
                    r matches Err(Unput::NoTable) && final(self)@ == old(self)@
                },
            },
            value_view(*value) is Table && worded(value_view(*value), 20) ==> toml_encoding(
                value_view(*value),
            ) == Ok::<JsonView, Seq<char>>(value_view(*value)),
    {
        proof {
            use_type_invariant(&*self);
        }
        let ghost before = self@;
        let new = match encode(value) {
            Ok(new) => new,
            Err(message) => {
                return Err(Unput::Unencoded(message));
            },
        };
        let section = is_section(&self.document, table);
        if let Some(false) = section {
            return Err(Unput::NoTable);
        }
        let mut document = empty_document();
        std::mem::swap(&mut document, &mut self.document);
        if section.is_none() {
            // Without a header of its own, so that only its entries are seen.
            add_section(&mut document, table, true);
            proof {
                let root = entries_of(Some(before.tree));
                crate::value::get_after_insert(root, table@, JsonView::Table(Seq::empty()));
                crate::value::insert_twice(
                    root,
                    table@,
                    JsonView::Table(Seq::empty()),
                    JsonView::Table(map_insert(Seq::empty(), entry@, toml_tree(new))),
                );
            }
        } else {
            assert(before.sections.insert(table@) =~= before.sections);
            assert(before.tables.insert(seq![table@]) =~= before.tables);
        }
        insert_entry(&mut document, table, entry, &new);
        self.document = document;
        Ok(())
    }

    /// Takes an entry out of a table of either kind.
    pub fn drop_entry(&mut self, table: &str, entry: &str)
        ensures
            entry_dropped(old(self)@, final(self)@, table@, entry@),
    {
        proof {
            use_type_invariant(&*self);
        }
        if let Some(true) = is_table(&self.document, table) {
            let mut document = empty_document();
            std::mem::swap(&mut document, &mut self.document);
            remove_entry(&mut document, table, entry);
            self.document = document;
        }
    }
}

} // verus!
