//! Reading documents from text, and writing them as JSON.

use vstd::prelude::*;
use crate::value::{
    copy_number, keys_distinct, lemma_insert_new, lemma_json_view, lemma_value_is_smaller,
    list_view, number_text, table_view, Json, JsonView, OrderedMap,
};

verus! {

/// `serde_json::Value`, a document as the parsers make it and the writer takes it.
#[verifier::external_type_specification]
#[verifier::external_body]
pub struct ExValue(serde_json::Value);

/// The document a parsed value holds.
pub uninterp spec fn value_view(value: serde_json::Value) -> JsonView;

/// One level of a parsed value.
pub enum Parts {
    /// Nothing.
    Null,
    /// A truth value.
    Bool(bool),
    /// A number.
    Number(serde_json::Number),
    /// Text.
    Text(String),
    /// The items of a list.
    List(Vec<serde_json::Value>),
    /// The entries of a map.
    Table(Vec<(String, serde_json::Value)>),
}

/// The documents that a list of values holds.
pub open spec fn value_views(items: Seq<serde_json::Value>) -> Seq<JsonView> {
    Seq::new(items.len(), |i: int| value_view(items[i]))
}

/// The documents that a list of named values holds.
pub open spec fn entry_views(entries: Seq<(String, serde_json::Value)>) -> Seq<
    (Seq<char>, JsonView),
> {
    Seq::new(entries.len(), |i: int| (entries[i].0@, value_view(entries[i].1)))
}

/// The document that one level stands for.
pub open spec fn parts_view(parts: Parts) -> JsonView {
    match parts {
        Parts::Null => JsonView::Null,
        Parts::Bool(b) => JsonView::Bool(b),
        Parts::Number(n) => JsonView::Number(number_text(n)),
        Parts::Text(s) => JsonView::Text(s@),
        Parts::List(items) => JsonView::List(value_views(items@)),
        Parts::Table(entries) => JsonView::Table(entry_views(entries@)),
    }
}

/// No name stands in a document's table twice.
pub open spec fn distinct_names(parts: Parts) -> bool {
    match parts {
        Parts::Table(entries) => keys_distinct(entry_views(entries@)),
        _ => true,
    }
}

/// Takes a `serde_json::Value` apart by its variants. A `serde_json::Map` hands its entries out in
/// the order in which they came, and holds no name twice.
#[verifier::external_body]
fn take_apart(value: serde_json::Value) -> (r: Parts)
    ensures
        parts_view(r) == value_view(value),
        distinct_names(r),
{
    match value {
        serde_json::Value::Null => Parts::Null,
        serde_json::Value::Bool(b) => Parts::Bool(b),
        serde_json::Value::Number(n) => Parts::Number(n),
        serde_json::Value::String(s) => Parts::Text(s),
        serde_json::Value::Array(items) => Parts::List(items),
        serde_json::Value::Object(map) => Parts::Table(map.into_iter().collect()),
    }
}

/// Puts a `serde_json::Value` together from one level. A `serde_json::Map` keeps its entries in the
/// order in which they come, where no name comes twice.
#[verifier::external_body]
fn assemble(parts: Parts) -> (r: serde_json::Value)
    requires
        distinct_names(parts),
    ensures
        value_view(r) == parts_view(parts),
{
    match parts {
        Parts::Null => serde_json::Value::Null,
        Parts::Bool(b) => serde_json::Value::Bool(b),
        Parts::Number(n) => serde_json::Value::Number(n),
        Parts::Text(s) => serde_json::Value::String(s),
        Parts::List(items) => serde_json::Value::Array(items),
        Parts::Table(entries) => serde_json::Value::Object(entries.into_iter().collect()),
    }
}

/// What reading a text as JSON gives: the document that it is, or what is wrong with it.
pub uninterp spec fn json_reading(text: Seq<char>) -> Result<JsonView, Seq<char>>;

/// What reading a text as YAML gives: the document that it is, or what is wrong with it.
pub uninterp spec fn yaml_reading(text: Seq<char>) -> Result<JsonView, Seq<char>>;

/// What reading a text as TOML gives: the document that it is, or what is wrong with it.
pub uninterp spec fn toml_reading(text: Seq<char>) -> Result<JsonView, Seq<char>>;

/// What writing a document in JSON with an indent gives: a text, or what is wrong with it.
pub uninterp spec fn json_writing(value: JsonView, indent: Seq<char>) -> Result<
    Seq<char>,
    Seq<char>,
>;

/// What was read or written, `None` where that was refused.
pub open spec fn done<T>(r: Result<T, Seq<char>>) -> Option<T> {
    match r {
        Ok(value) => Some(value),
        Err(_) => None,
    }
}

/// The document that a text is in JSON, `None` where it is none.
pub open spec fn json_document(text: Seq<char>) -> Option<JsonView> {
    done(json_reading(text))
}

/// How a document is written in JSON with an indent, `None` where it cannot be.
pub open spec fn json_text(value: JsonView, indent: Seq<char>) -> Option<Seq<char>> {
    done(json_writing(value, indent))
}

/// What a parse gave.
pub open spec fn parsed_view(r: Result<serde_json::Value, String>) -> Result<JsonView, Seq<char>> {
    match r {
        Ok(value) => Ok(value_view(value)),
        Err(message) => Err(message@),
    }
}

/// `serde_json::from_str` reads JSON. The grammar and the wording of a refusal are not stated.
#[verifier::external_body]
fn read_json(text: &str) -> (r: Result<serde_json::Value, String>)
    ensures
        parsed_view(r) == json_reading(text@),
{
    serde_json::from_str(text).map_err(|e| e.to_string())
}

/// `serde_yaml_ng::from_str` reads YAML. The grammar and the wording of a refusal are not stated.
#[verifier::external_body]
fn read_yaml(text: &str) -> (r: Result<serde_json::Value, String>)
    ensures
        parsed_view(r) == yaml_reading(text@),
{
    serde_yaml_ng::from_str(text).map_err(|e| e.to_string())
}

/// `toml_edit::de::from_str` reads TOML. The grammar and the wording of a refusal are not stated.
#[verifier::external_body]
fn read_toml(text: &str) -> (r: Result<serde_json::Value, String>)
    ensures
        parsed_view(r) == toml_reading(text@),
{
    toml_edit::de::from_str(text).map_err(|e| e.to_string())
}

/// What a writer gave.
pub open spec fn written(r: Result<String, String>) -> Result<Seq<char>, Seq<char>> {
    match r {
        Ok(text) => Ok(text@),
        Err(message) => Err(message@),
    }
}

/// A document without numbers, its lists and maps nested at most `depth` deep.
pub open spec fn wordy(value: JsonView, depth: nat) -> bool
    decreases depth,
{
    match value {
        JsonView::Null => true,
        JsonView::Bool(_) => true,
        JsonView::Number(_) => false,
        JsonView::Text(_) => true,
        JsonView::List(items) => depth > 0 && forall|i: int|
            0 <= i < items.len() ==> wordy(#[trigger] items[i], (depth - 1) as nat),
        JsonView::Table(map) => depth > 0 && forall|i: int|
            0 <= i < map.len() ==> wordy((#[trigger] map[i]).1, (depth - 1) as nat),
    }
}

/// Spaces and tabs and nothing else.
pub open spec fn blank(s: Seq<char>) -> bool {
    forall|i: int| 0 <= i < s.len() ==> #[trigger] s[i] == ' ' || s[i] == '\t'
}

/// Where the indent is blank, a document without numbers that is not nested too deeply is written,
/// and read back as it was, with or without a newline behind it.
pub open spec fn reads_back(r: Result<String, String>, value: JsonView, indent: Seq<char>) -> bool {
    wordy(value, 100) && blank(indent) ==> (r matches Ok(text) && json_document(text@) == Some(
        value,
    ) && json_document(text@ + "\n"@) == Some(value))
}

/// `serde_json::Serializer` with `PrettyFormatter::with_indent` writes JSON. Where the indent is
/// blank, a document without numbers that is not nested too deeply is always written, and
/// `serde_json::from_str` reads it back as it was, with or without a newline behind it. The
/// layout and the wording of a refusal are not stated.
#[verifier::external_body]
fn write_json(value: &serde_json::Value, indent: &str) -> (r: Result<String, String>)
    ensures
        written(r) == json_writing(value_view(*value), indent@),
        reads_back(r, value_view(*value), indent@),
{
    let mut out = Vec::new();
    let formatter = serde_json::ser::PrettyFormatter::with_indent(indent.as_bytes());
    let mut serializer = serde_json::Serializer::with_formatter(&mut out, formatter);
    serde::Serialize::serialize(value, &mut serializer).map_err(|e| e.to_string())?;
    String::from_utf8(out).map_err(|e| e.to_string())
}

/// The document a parsed value holds.
pub fn from_value(value: serde_json::Value) -> (r: Json)
    ensures
        r@ == value_view(value),
    decreases value_view(value),
{
    let ghost view = value_view(value);
    let r = match take_apart(value) {
        Parts::Null => Json::Null,
        Parts::Bool(b) => Json::Bool(b),
        Parts::Number(n) => Json::Number(n),
        Parts::Text(s) => Json::Text(s),
        Parts::List(items) => {
            let ghost views = value_views(items@);
            let mut rest = items;
            let mut out: Vec<Json> = Vec::new();
            let n: usize = rest.len();
            while rest.len() > 0
                invariant
                    view == JsonView::List(views),
                    view == value_view(value),
                    views.len() == n,
                    out@.len() + rest@.len() == n,
                    value_views(rest@) == views.skip(out@.len() as int),
                    list_view(out@) == views.take(out@.len() as int),
                decreases rest@.len(),
            {
                let ghost k = out@.len() as int;
                let ghost before = out@;
                let ghost held = rest@;
                let item = rest.remove(0);
                assert(value_view(item) == views[k]) by {
                    assert(value_views(held)[0] == views.skip(k)[0]);
                }
                assert(decreases_to!(view => view->List_0[k]));
                out.push(from_value(item));
                assert(value_views(rest@) =~= views.skip(k + 1)) by {
                    assert(value_views(rest@) =~= value_views(held).skip(1));
                    assert(views.skip(k).skip(1) =~= views.skip(k + 1));
                }
                assert(list_view(out@) =~= views.take(k + 1)) by {
                    assert(list_view(out@) =~= list_view(before).push(views[k]));
                }
            }
            assert(list_view(out@) =~= views);
            Json::List(out)
        },
        Parts::Table(entries) => {
            let ghost views = entry_views(entries@);
            let mut rest = entries;
            let mut out: OrderedMap<Json> = OrderedMap::new();
            let n: usize = rest.len();
            assert(table_view(out@) =~= views.take(0));
            while rest.len() > 0
                invariant
                    view == JsonView::Table(views),
                    view == value_view(value),
                    keys_distinct(views),
                    views.len() == n,
                    out@.len() + rest@.len() == n,
                    entry_views(rest@) == views.skip(out@.len() as int),
                    table_view(out@) == views.take(out@.len() as int),
                decreases rest@.len(),
            {
                let ghost k = out@.len() as int;
                let ghost before = out@;
                let ghost held = rest@;
                let (key, item) = rest.remove(0);
                let ghost name = key@;
                assert((name, value_view(item)) == views[k]) by {
                    assert(entry_views(held)[0] == views.skip(k)[0]);
                }
                assert(decreases_to!(view => view->Table_0[k].1));
                let converted = from_value(item);
                proof {
                    assert forall|j: int| 0 <= j < before.len() implies (#[trigger] before[j]).0
                        != name by {
                        assert(table_view(before)[j] == views[j]);
                        assert(views[j].0 != views[k].0);
                    }
                    lemma_insert_new(before, name, converted);
                }
                out.insert(key, converted);
                assert(entry_views(rest@) =~= views.skip(k + 1)) by {
                    assert(entry_views(rest@) =~= entry_views(held).skip(1));
                    assert(views.skip(k).skip(1) =~= views.skip(k + 1));
                }
                assert(table_view(out@) =~= views.take(k + 1)) by {
                    assert(table_view(out@) =~= table_view(before).push(views[k]));
                }
            }
            assert(table_view(out@) =~= views);
            Json::Table(out)
        },
    };
    proof {
        lemma_json_view(r);
    }
    r
}

/// The value that holds a document.
pub fn to_value(value: &Json) -> (r: serde_json::Value)
    ensures
        value_view(r) == value@,
    decreases value,
{
    proof {
        lemma_json_view(*value);
    }
    match value {
        Json::Null => assemble(Parts::Null),
        Json::Bool(b) => assemble(Parts::Bool(*b)),
        Json::Number(n) => assemble(Parts::Number(copy_number(n))),
        Json::Text(s) => assemble(Parts::Text(s.clone())),
        Json::List(items) => {
            let mut out: Vec<serde_json::Value> = Vec::new();
            let mut i: usize = 0;
            while i < items.len()
                invariant
                    i <= items@.len(),
                    value matches Json::List(held) && held == items,
                    value_views(out@) == list_view(items@).take(i as int),
                decreases items@.len() - i,
            {
                let ghost before = out@;
                out.push(to_value(&items[i]));
                i += 1;
                assert(value_views(out@) =~= list_view(items@).take(i as int)) by {
                    assert(value_views(out@) =~= value_views(before).push(items@[i - 1]@));
                }
            }
            assert(value_views(out@) =~= list_view(items@));
            assemble(Parts::List(out))
        },
        Json::Table(map) => {
            let mut out: Vec<(String, serde_json::Value)> = Vec::new();
            let n: usize = map.len();
            let mut i: usize = 0;
            while i < n
                invariant
                    i <= n == map@.len(),
                    value matches Json::Table(held) && held == map,
                    entry_views(out@) == table_view(map@).take(i as int),
                decreases n - i,
            {
                let ghost before = out@;
                let key = map.key_at(i);
                let item = map.value_at(i);
                proof {
                    lemma_value_is_smaller(*map, i as int);
                }
                out.push((key.to_owned(), to_value(item)));
                i += 1;
                assert(entry_views(out@) =~= table_view(map@).take(i as int)) by {
                    assert(entry_views(out@) =~= entry_views(before).push((key@, item@)));
                }
            }
            assert(entry_views(out@) =~= table_view(map@));
            proof {
                assert forall|a: int, b: int|
                    0 <= a < b < table_view(map@).len() implies (#[trigger] table_view(map@)[a]).0
                    != (#[trigger] table_view(map@)[b]).0 by {
                    assert(map@[a].0 != map@[b].0);
                }
            }
            assemble(Parts::Table(out))
        },
    }
}

/// What writing a document as JSON in one line gives: a text, or what is wrong with it.
pub uninterp spec fn compact_writing(value: JsonView) -> Result<Seq<char>, Seq<char>>;

/// The text of a document as JSON in one line, `None` where it cannot be written.
pub open spec fn compact_json(value: JsonView) -> Option<Seq<char>> {
    done(compact_writing(value))
}

/// `serde_json::to_string` writes JSON in one line. The layout and the wording of a refusal are not
/// stated.
#[verifier::external_body]
fn write_compact(value: &serde_json::Value) -> (r: Result<String, String>)
    ensures
        written(r) == compact_writing(value_view(*value)),
{
    serde_json::to_string(value).map_err(|e| e.to_string())
}

/// Writes a document as JSON in one line.
pub fn to_compact_text(value: &Json) -> (r: Result<String, String>)
    ensures
        written(r) == compact_writing(value@),
{
    write_compact(&to_value(value))
}

/// What a read gave.
pub open spec fn read_view(r: Result<Json, String>) -> Result<JsonView, Seq<char>> {
    match r {
        Ok(value) => Ok(value@),
        Err(message) => Err(message@),
    }
}

/// A read's document.
fn converted(parsed: Result<serde_json::Value, String>) -> (r: Result<Json, String>)
    ensures
        read_view(r) == parsed_view(parsed),
{
    match parsed {
        Ok(value) => Ok(from_value(value)),
        Err(message) => Err(message),
    }
}

/// Reads a document from JSON.
pub fn parse_json(text: &str) -> (r: Result<Json, String>)
    ensures
        read_view(r) == json_reading(text@),
{
    converted(read_json(text))
}

/// Reads a document from YAML.
pub fn parse_yaml(text: &str) -> (r: Result<Json, String>)
    ensures
        read_view(r) == yaml_reading(text@),
{
    converted(read_yaml(text))
}

/// Reads a document from TOML.
pub fn parse_toml(text: &str) -> (r: Result<Json, String>)
    ensures
        read_view(r) == toml_reading(text@),
{
    converted(read_toml(text))
}

/// Writes a document as JSON, each level behind one more `indent`.
pub fn to_json_text(value: &Json, indent: &str) -> (r: Result<String, String>)
    ensures
        written(r) == json_writing(value@, indent@),
        reads_back(r, value@, indent@),
{
    write_json(&to_value(value), indent)
}

} // verus!
