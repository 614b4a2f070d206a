//! Values that keep the order they were written in: maps by name, and the documents made of them.

use std::collections::hash_map::RandomState;
use vstd::prelude::*;
use indexmap::IndexSet;
use crate::text;

verus! {

/// `indexmap::IndexSet`, a set that keeps the order in which its items came.
#[verifier::external_type_specification]
#[verifier::external_body]
#[verifier::reject_recursive_types(T)]
#[verifier::reject_recursive_types(S)]
pub struct ExIndexSet<T, S>(IndexSet<T, S>);

/// The texts a set of strings holds, in the order in which they came.
pub uninterp spec fn names_of(set: IndexSet<String, RandomState>) -> Seq<Seq<char>>;

/// `IndexSet::new` makes a set that holds nothing.
#[verifier::external_body]
fn new_names() -> (r: IndexSet<String, RandomState>)
    ensures
        names_of(r) == Seq::<Seq<char>>::empty(),
{
    IndexSet::new()
}

/// `IndexSet::insert_full` puts a new item behind the others and leaves a known one where it is;
/// either way it gives the item's position.
#[verifier::external_body]
fn add_name(set: &mut IndexSet<String, RandomState>, name: String) -> (r: usize)
    ensures
        names_of(*final(set)) == if names_of(*old(set)).contains(name@) {
            names_of(*old(set))
        } else {
            names_of(*old(set)).push(name@)
        },
        r < names_of(*final(set)).len(),
        names_of(*final(set))[r as int] == name@,
        !names_of(*old(set)).contains(name@) ==> r == names_of(*old(set)).len(),
{
    set.insert_full(name).0
}

/// `IndexSet::get_index_of` gives the position of an item, or `None` where it is not held.
#[verifier::external_body]
fn index_of_name(set: &IndexSet<String, RandomState>, name: &str) -> (r: Option<usize>)
    ensures
        match r {
            Some(i) => i < names_of(*set).len() && names_of(*set)[i as int] == name@,
            None => !names_of(*set).contains(name@),
        },
{
    set.get_index_of(name)
}

/// `IndexSet::shift_remove_full` takes an item out, closes the gap, and gives the position it had.
#[verifier::external_body]
fn remove_name(set: &mut IndexSet<String, RandomState>, name: &str) -> (r: Option<usize>)
    ensures
        match r {
            Some(i) => i < names_of(*old(set)).len() && names_of(*old(set))[i as int] == name@
                && names_of(*final(set)) == names_of(*old(set)).remove(i as int),
            None => !names_of(*old(set)).contains(name@) && names_of(*final(set)) == names_of(
                *old(set),
            ),
        },
{
    set.shift_remove_full(name).map(|found| found.0)
}

/// `IndexSet::get_index` gives the item at a position, or `None` past the last.
#[verifier::external_body]
fn name_at(set: &IndexSet<String, RandomState>, index: usize) -> (r: Option<&String>)
    ensures
        match r {
            Some(name) => index < names_of(*set).len() && name@ == names_of(*set)[index as int],
            None => index >= names_of(*set).len(),
        },
{
    set.get_index(index)
}

/// The names and the values of a map, position by position.
#[derive(Debug)]
struct Entries<V> {
    names: IndexSet<String, RandomState>,
    values: Vec<V>,
}

impl<V> Entries<V> {
    spec fn sound(self) -> bool {
        &&& names_of(self.names).len() == self.values@.len()
        &&& names_of(self.names).no_duplicates()
    }

    fn new() -> (r: Self)
        ensures
            r.sound(),
            names_of(r.names).len() == 0,
            r.values@.len() == 0,
    {
        Entries { names: new_names(), values: Vec::new() }
    }
}

/// A map from names to values that keeps the order in which the names came.
#[derive(Debug)]
pub struct OrderedMap<V> {
    entries: Entries<V>,
}

/// The position at or after `from` of the entry called `key`.
pub open spec fn key_index<T>(map: Seq<(Seq<char>, T)>, key: Seq<char>, from: int) -> Option<int>
    decreases map.len() - from,
{
    if from < 0 || from >= map.len() {
        None
    } else if map[from].0 == key {
        Some(from)
    } else {
        key_index(map, key, from + 1)
    }
}

/// The value called `key`.
pub open spec fn map_get<T>(map: Seq<(Seq<char>, T)>, key: Seq<char>) -> Option<T> {
    match key_index(map, key, 0) {
        Some(i) => Some(map[i].1),
        None => None,
    }
}

/// The map with `key` set: in place where the key is there, behind the others where it is not.
pub open spec fn map_insert<T>(map: Seq<(Seq<char>, T)>, key: Seq<char>, value: T) -> Seq<
    (Seq<char>, T),
> {
    match key_index(map, key, 0) {
        Some(i) => map.update(i, (key, value)),
        None => map.push((key, value)),
    }
}

/// The map without `key`, the others in their order.
pub open spec fn map_remove<T>(map: Seq<(Seq<char>, T)>, key: Seq<char>) -> Seq<(Seq<char>, T)> {
    match key_index(map, key, 0) {
        Some(i) => map.remove(i),
        None => map,
    }
}

/// No name stands in the map twice.
pub open spec fn keys_distinct<T>(map: Seq<(Seq<char>, T)>) -> bool {
    forall|i: int, j: int|
        0 <= i < j < map.len() ==> (#[trigger] map[i]).0 != (#[trigger] map[j]).0
}

/// What `key_index` gives holds the key, and nothing before it does.
pub proof fn lemma_key_index<T>(map: Seq<(Seq<char>, T)>, key: Seq<char>, from: int)
    requires
        0 <= from,
    ensures
        match key_index(map, key, from) {
            Some(i) => from <= i < map.len() && map[i].0 == key && forall|j: int|
                from <= j < i ==> (#[trigger] map[j]).0 != key,
            None => forall|j: int| from <= j < map.len() ==> (#[trigger] map[j]).0 != key,
        },
    decreases map.len() - from,
{
    if from < map.len() && map[from].0 != key {
        lemma_key_index(map, key, from + 1);
    }
}

impl<V> View for OrderedMap<V> {
    type V = Seq<(Seq<char>, V)>;

    closed spec fn view(&self) -> Seq<(Seq<char>, V)> {
        Seq::new(
            self.entries.values@.len(),
            |i: int| (names_of(self.entries.names)[i], self.entries.values@[i]),
        )
    }
}

impl<V> OrderedMap<V> {
    #[verifier::type_invariant]
    spec fn well_formed(self) -> bool {
        self.entries.sound()
    }

    /// A map that holds nothing.
    pub fn new() -> (r: Self)
        ensures
            r@ == Seq::<(Seq<char>, V)>::empty(),
    {
        let r = OrderedMap { entries: Entries::new() };
        assert(r@ =~= Seq::empty());
        r
    }

    /// How many entries there are. No two of them have one name.
    pub fn len(&self) -> (r: usize)
        ensures
            r == self@.len(),
            keys_distinct(self@),
    {
        proof {
            use_type_invariant(self);
        }
        self.entries.values.len()
    }

    /// The name at a position.
    pub fn key_at(&self, index: usize) -> (r: &str)
        requires
            index < self@.len(),
        ensures
            r@ == self@[index as int].0,
    {
        proof {
            use_type_invariant(self);
        }
        match name_at(&self.entries.names, index) {
            Some(name) => name.as_str(),
            None => "",
        }
    }

    /// The value at a position.
    pub fn value_at(&self, index: usize) -> (r: &V)
        requires
            index < self@.len(),
        ensures
            *r == self@[index as int].1,
    {
        &self.entries.values[index]
    }

    /// Where the entry called `key` stands.
    pub fn index_of(&self, key: &str) -> (r: Option<usize>)
        ensures
            match r {
                Some(i) => key_index(self@, key@, 0) == Some(i as int) && i < self@.len()
                    && self@[i as int].0 == key@,
                None => key_index(self@, key@, 0) is None,
            },
    {
        proof {
            use_type_invariant(self);
            lemma_key_index(self@, key@, 0);
        }
        let ghost names = names_of(self.entries.names);
        let r = index_of_name(&self.entries.names, key);
        proof {
            match r {
                Some(i) => {
                    assert(self@[i as int].0 == key@);
                    let k = key_index(self@, key@, 0)->0;
                    assert(names[k] == self@[k].0);
                },
                None => {
                    if key_index(self@, key@, 0) is Some {
                        let k = key_index(self@, key@, 0)->0;
                        assert(names[k] == key@);
                    }
                },
            }
        }
        r
    }

    /// The value called `key`.
    pub fn get(&self, key: &str) -> (r: Option<&V>)
        ensures
            match r {
                Some(value) => map_get(self@, key@) == Some(*value),
                None => map_get(self@, key@) is None,
            },
    {
        match self.index_of(key) {
            Some(i) => Some(self.value_at(i)),
            None => None,
        }
    }

    /// Sets `key`: in place where it is there, behind the others where it is not.
    pub fn insert(&mut self, key: String, value: V)
        ensures
            final(self)@ == map_insert(old(self)@, key@, value),
    {
        let at = self.index_of(key.as_str());
        proof {
            use_type_invariant(&*self);
        }
        let mut entries = Entries::new();
        std::mem::swap(&mut entries, &mut self.entries);
        let ghost names = names_of(entries.names);
        let ghost values = entries.values@;
        let ghost name = key@;
        match at {
            Some(i) => {
                entries.values[i] = value;
            },
            None => {
                proof {
                    lemma_key_index(old(self)@, key@, 0);
                    if names.contains(key@) {
                        let k = names.index_of(key@);
                        assert(old(self)@[k].0 == key@);
                    }
                }
                let _ = add_name(&mut entries.names, key);
                entries.values.push(value);
            },
        }
        self.entries = entries;
        assert(self@ =~= map_insert(old(self)@, name, value));
    }

    /// Takes the entry called `key` out, if it is there.
    pub fn remove(&mut self, key: &str) -> (r: Option<V>)
        ensures
            final(self)@ == map_remove(old(self)@, key@),
            r == map_get(old(self)@, key@),
    {
        let at = self.index_of(key);
        proof {
            use_type_invariant(&*self);
            lemma_key_index(old(self)@, key@, 0);
        }
        let mut entries = Entries::new();
        std::mem::swap(&mut entries, &mut self.entries);
        let ghost names = names_of(entries.names);
        let mut r: Option<V> = None;
        if let Some(i) = at {
            let found = remove_name(&mut entries.names, key);
            proof {
                assert(names[i as int] == old(self)@[i as int].0);
                match found {
                    Some(k) => {
                        assert(names[k as int] == names[i as int]);
                    },
                    None => {
                        assert(names.contains(key@));
                    },
                }
                assert forall|a: int, b: int|
                    0 <= a < b < names_of(entries.names).len() implies names_of(entries.names)[a]
                    != names_of(entries.names)[b] by {
                    let x = if a < i { a } else { a + 1 };
                    let y = if b < i { b } else { b + 1 };
                    assert(names[x] != names[y]);
                }
            }
            r = Some(entries.values.remove(i));
        }
        self.entries = entries;
        assert(self@ =~= map_remove(old(self)@, key@));
        r
    }
}

/// The entries of a map, each value by its view.
pub open spec fn view_map<T: View>(map: Seq<(Seq<char>, T)>) -> Seq<(Seq<char>, T::V)> {
    Seq::new(map.len(), |i: int| (map[i].0, map[i].1@))
}

/// Looking a key up in a map and in its view finds the same place.
pub proof fn lemma_view_map_index<T: View>(map: Seq<(Seq<char>, T)>, key: Seq<char>, from: int)
    requires
        0 <= from,
    ensures
        key_index(view_map(map), key, from) == key_index(map, key, from),
    decreases map.len() - from,
{
    if from < map.len() && map[from].0 != key {
        lemma_view_map_index(map, key, from + 1);
    }
}

/// Setting a key in a map sets it in the map's view.
pub proof fn lemma_view_map_insert<T: View>(map: Seq<(Seq<char>, T)>, key: Seq<char>, value: T)
    ensures
        view_map(map_insert(map, key, value)) == map_insert(view_map(map), key, value@),
{
    lemma_view_map_index(map, key, 0);
    lemma_key_index(map, key, 0);
    assert(view_map(map_insert(map, key, value)) =~= map_insert(view_map(map), key, value@));
}

/// Removing a key from a map removes it from the map's view.
pub proof fn lemma_view_map_remove<T: View>(map: Seq<(Seq<char>, T)>, key: Seq<char>)
    ensures
        view_map(map_remove(map, key)) == map_remove(view_map(map), key),
{
    lemma_view_map_index(map, key, 0);
    lemma_key_index(map, key, 0);
    assert(view_map(map_remove(map, key)) =~= map_remove(view_map(map), key));
}

/// Putting an entry behind a map whose names are all others is setting it.
pub proof fn lemma_insert_new<T>(map: Seq<(Seq<char>, T)>, key: Seq<char>, value: T)
    requires
        forall|i: int| 0 <= i < map.len() ==> (#[trigger] map[i]).0 != key,
    ensures
        map_insert(map, key, value) == map.push((key, value)),
{
    lemma_key_index(map, key, 0);
}

/// `serde_json::Number`, a number as a document holds it.
#[verifier::external_type_specification]
#[verifier::external_body]
pub struct ExNumber(serde_json::Number);

/// How a number is written.
pub uninterp spec fn number_text(n: serde_json::Number) -> Seq<char>;

/// `serde_json::Number` writes itself out with `to_string`.
#[verifier::external_body]
pub(crate) fn write_number(n: &serde_json::Number) -> (r: String)
    ensures
        r@ == number_text(*n),
{
    n.to_string()
}

/// A clone of a `serde_json::Number` is written like the number itself.
#[verifier::external_body]
pub(crate) fn copy_number(n: &serde_json::Number) -> (r: serde_json::Number)
    ensures
        number_text(r) == number_text(*n),
{
    n.clone()
}

/// A document: what a config file holds, whatever it is written in.
#[derive(Debug)]
pub enum Json {
    /// Nothing.
    Null,
    /// A truth value.
    Bool(bool),
    /// A number.
    Number(serde_json::Number),
    /// Text.
    Text(String),
    /// A list.
    List(Vec<Json>),
    /// A map by name.
    Table(OrderedMap<Json>),
}

/// A document, as a mathematical value.
pub ghost enum JsonView {
    Null,
    Bool(bool),
    Number(Seq<char>),
    Text(Seq<char>),
    List(Seq<JsonView>),
    Table(Seq<(Seq<char>, JsonView)>),
}

impl View for Json {
    type V = JsonView;

    closed spec fn view(&self) -> JsonView
        decreases self,
    {
        match self {
            Json::Null => JsonView::Null,
            Json::Bool(b) => JsonView::Bool(*b),
            Json::Number(n) => JsonView::Number(number_text(*n)),
            Json::Text(s) => JsonView::Text(s@),
            Json::List(items) => JsonView::List(
                Seq::new(
                    items@.len(),
                    |i: int|
                        if 0 <= i < items@.len() {
                            items@[i].view()
                        } else {
                            JsonView::Null
                        },
                ),
            ),
            Json::Table(map) => JsonView::Table(
                Seq::new(
                    map.entries.values@.len(),
                    |i: int|
                        (
                            names_of(map.entries.names)[i],
                            if 0 <= i < map.entries.values@.len() {
                                map.entries.values@[i].view()
                            } else {
                                JsonView::Null
                            },
                        ),
                ),
            ),
        }
    }
}

/// The entries of a map of documents, as mathematical values.
pub open spec fn table_view(map: Seq<(Seq<char>, Json)>) -> Seq<(Seq<char>, JsonView)> {
    Seq::new(map.len(), |i: int| (map[i].0, map[i].1@))
}

/// The items of a list of documents, as mathematical values.
pub open spec fn list_view(items: Seq<Json>) -> Seq<JsonView> {
    Seq::new(items.len(), |i: int| items[i]@)
}

/// What the view of a document is, kind by kind.
pub proof fn lemma_json_view(value: Json)
    ensures
        value@ == match value {
            Json::Null => JsonView::Null,
            Json::Bool(b) => JsonView::Bool(b),
            Json::Number(n) => JsonView::Number(number_text(n)),
            Json::Text(s) => JsonView::Text(s@),
            Json::List(items) => JsonView::List(list_view(items@)),
            Json::Table(map) => JsonView::Table(table_view(map@)),
        },
{
    match value {
        Json::List(items) => {
            assert(value@->List_0 =~= list_view(items@));
        },
        Json::Table(map) => {
            let view = value@->Table_0;
            assert(view.len() == map@.len());
            assert forall|i: int| 0 <= i < view.len() implies #[trigger] view[i] == table_view(
                map@,
            )[i] by {
                assert(map@[i].0 == names_of(map.entries.names)[i]);
                assert(map@[i].1 == map.entries.values@[i]);
            }
            assert(view =~= table_view(map@));
        },
        _ => {},
    }
}

/// A value in a map is smaller than the map, for recursion.
pub proof fn lemma_value_is_smaller(map: OrderedMap<Json>, i: int)
    requires
        0 <= i < map@.len(),
    ensures
        decreases_to!(map => map@[i].1),
{
    assert(map@[i].1 == map.entries.values@[i]);
}

/// Looking a key up in a map of documents and in its view finds the same place.
pub proof fn lemma_table_index(map: Seq<(Seq<char>, Json)>, key: Seq<char>, from: int)
    requires
        0 <= from,
    ensures
        key_index(table_view(map), key, from) == key_index(map, key, from),
    decreases map.len() - from,
{
    if from < map.len() && map[from].0 != key {
        lemma_table_index(map, key, from + 1);
    }
}

/// Setting a key in a map of documents sets it in the map's view.
pub proof fn lemma_table_insert(map: Seq<(Seq<char>, Json)>, key: Seq<char>, value: Json)
    ensures
        table_view(map_insert(map, key, value)) == map_insert(table_view(map), key, value@),
{
    lemma_table_index(map, key, 0);
    lemma_key_index(map, key, 0);
    assert(table_view(map_insert(map, key, value)) =~= map_insert(table_view(map), key, value@));
}

/// Removing a key from a map of documents removes it from the map's view.
pub proof fn lemma_table_remove(map: Seq<(Seq<char>, Json)>, key: Seq<char>)
    ensures
        table_view(map_remove(map, key)) == map_remove(table_view(map), key),
{
    lemma_table_index(map, key, 0);
    lemma_key_index(map, key, 0);
    assert(table_view(map_remove(map, key)) =~= map_remove(table_view(map), key));
}

impl JsonView {
    /// The entry of a table called `key`.
    pub open spec fn get(self, key: Seq<char>) -> Option<JsonView> {
        match self {
            JsonView::Table(map) => map_get(map, key),
            _ => None,
        }
    }
}

impl Json {
    /// A copy.
    pub fn copy(&self) -> (r: Json)
        ensures
            r@ == self@,
        decreases self,
    {
        proof {
            lemma_json_view(*self);
        }
        let r = match self {
            Json::Null => Json::Null,
            Json::Bool(b) => Json::Bool(*b),
            Json::Number(n) => Json::Number(copy_number(n)),
            Json::Text(s) => Json::Text(s.clone()),
            Json::List(items) => {
                let mut copies: Vec<Json> = Vec::new();
                let mut i: usize = 0;
                while i < items.len()
                    invariant
                        i <= items@.len(),
                        self matches Json::List(held) && held == items,
                        list_view(copies@) == list_view(items@).take(i as int),
                    decreases items@.len() - i,
                {
                    let ghost before = copies@;
                    copies.push(items[i].copy());
                    i += 1;
                    assert(list_view(copies@) =~= list_view(items@).take(i as int)) by {
                        assert(list_view(copies@) =~= list_view(before).push(items@[i - 1]@));
                    }
                }
                assert(list_view(copies@) =~= list_view(items@));
                Json::List(copies)
            },
            Json::Table(map) => {
                proof {
                    use_type_invariant(map);
                }
                let mut copies: OrderedMap<Json> = OrderedMap::new();
                let mut i: usize = 0;
                assert(table_view(copies@) =~= table_view(map@).take(0));
                while i < map.len()
                    invariant
                        i <= map@.len(),
                        self matches Json::Table(held) && held == map,
                        keys_distinct(map@),
                        copies@.len() == i,
                        forall|j: int| 0 <= j < i ==> (#[trigger] copies@[j]).0 == map@[j].0,
                        table_view(copies@) == table_view(map@).take(i as int),
                    decreases map@.len() - i,
                {
                    let ghost before = copies@;
                    let key = map.key_at(i);
                    let value = map.value_at(i);
                    proof {
                        assert(map@[i as int].1 == map.entries.values@[i as int]);
                        lemma_key_index(before, key@, 0);
                        assert forall|j: int| 0 <= j < before.len() implies (#[trigger] before[j]).0
                            != key@ by {
                            assert(before[j].0 == map@[j].0);
                        }
                    }
                    let copy = value.copy();
                    copies.insert(key.to_owned(), copy);
                    i += 1;
                    assert(table_view(copies@) =~= table_view(map@).take(i as int)) by {
                        assert(table_view(copies@) =~= table_view(before).push((key@, value@)));
                    }
                }
                assert(table_view(copies@) =~= table_view(map@));
                Json::Table(copies)
            },
        };
        proof {
            lemma_json_view(r);
        }
        r
    }

    /// The text it is, if it is text.
    pub fn as_text(&self) -> (r: Option<&str>)
        ensures
            match r {
                Some(s) => self@ == JsonView::Text(s@),
                None => !(self@ is Text),
            },
    {
        proof {
            lemma_json_view(*self);
        }
        match self {
            Json::Text(s) => Some(s.as_str()),
            _ => None,
        }
    }

    /// The map it is, if it is a map.
    pub fn as_table(&self) -> (r: Option<&OrderedMap<Json>>)
        ensures
            match r {
                Some(map) => self@ == JsonView::Table(table_view(map@)),
                None => !(self@ is Table),
            },
    {
        proof {
            lemma_json_view(*self);
        }
        match self {
            Json::Table(map) => Some(map),
            _ => None,
        }
    }

    /// The entry called `key`, if it is a map that has one.
    pub fn get(&self, key: &str) -> (r: Option<&Json>)
        ensures
            match r {
                Some(value) => self@.get(key@) == Some(value@),
                None => self@.get(key@) is None,
            },
    {
        match self.as_table() {
            Some(map) => {
                proof {
                    lemma_table_index(map@, key@, 0);
                    lemma_key_index(map@, key@, 0);
                }
                map.get(key)
            },
            None => None,
        }
    }
}

/// What was set under a name is what is found under it.
pub proof fn get_after_insert<T>(map: Seq<(Seq<char>, T)>, key: Seq<char>, value: T)
    ensures
        map_get(map_insert(map, key, value), key) == Some(value),
{
    lemma_key_index(map, key, 0);
    lemma_key_index(map_insert(map, key, value), key, 0);
    let after = map_insert(map, key, value);
    match key_index(map, key, 0) {
        Some(i) => {
            assert(after[i].0 == key);
            let k = key_index(after, key, 0)->0;
            if k < i {
                assert(after[k] == map[k]);
            }
        },
        None => {
            assert(after[map.len() as int].0 == key);
            let k = key_index(after, key, 0)->0;
            if k < map.len() {
                assert(after[k] == map[k]);
            }
        },
    }
}

/// What is put under a key for the second time is all that is left of the two.
pub proof fn insert_twice<T>(map: Seq<(Seq<char>, T)>, key: Seq<char>, first: T, second: T)
    ensures
        map_insert(map_insert(map, key, first), key, second) == map_insert(map, key, second),
{
    lemma_key_index(map, key, 0);
    let once = map_insert(map, key, first);
    get_after_insert(map, key, first);
    lemma_key_index(once, key, 0);
    match key_index(map, key, 0) {
        Some(i) => {
            assert(once[i].0 == key);
            let k = key_index(once, key, 0)->0;
            if k < i {
                assert(once[k] == map[k]);
            }
            assert(key_index(once, key, 0) == Some(i));
            assert(map_insert(once, key, second) =~= map_insert(map, key, second));
        },
        None => {
            let n = map.len() as int;
            assert(once[n].0 == key);
            let k = key_index(once, key, 0)->0;
            if k < n {
                assert(once[k] == map[k]);
            }
            assert(key_index(once, key, 0) == Some(n));
            assert(map_insert(once, key, second) =~= map_insert(map, key, second));
        },
    }
}

/// Setting one name leaves what is found under the others.
pub proof fn insert_keeps_the_others<T>(
    map: Seq<(Seq<char>, T)>,
    key: Seq<char>,
    value: T,
    other: Seq<char>,
)
    requires
        other != key,
    ensures
        map_get(map_insert(map, key, value), other) == map_get(map, other),
{
    let after = map_insert(map, key, value);
    lemma_key_index(map, key, 0);
    lemma_key_index(map, other, 0);
    lemma_key_index(after, other, 0);
    assert forall|j: int| 0 <= j < map.len() && (#[trigger] map[j]).0 != key implies after[j]
        == map[j] by {}
    match (key_index(map, other, 0), key_index(after, other, 0)) {
        (Some(a), Some(b)) => {
            assert(after[a] == map[a]);
            assert(b <= a);
            assert(map[b].0 == other || after[b].0 == key);
            assert(a <= b);
        },
        (Some(a), None) => {
            assert(after[a].0 == other);
        },
        (None, Some(b)) => {
            if b < map.len() {
                assert(map[b].0 != other);
            }
        },
        (None, None) => {},
    }
}

/// Setting a name that is there keeps the order of the names; setting a new one puts it last.
pub proof fn insert_keeps_the_order<T>(map: Seq<(Seq<char>, T)>, key: Seq<char>, value: T, i: int)
    requires
        0 <= i < map.len(),
    ensures
        map_insert(map, key, value)[i].0 == map[i].0,
        map_insert(map, key, value).len() == if key_index(map, key, 0) is Some {
            map.len()
        } else {
            map.len() + 1
        },
{
    lemma_key_index(map, key, 0);
}

/// Removing a name leaves what is found under the others, and nothing under it.
pub proof fn remove_drops_only_the_name<T>(
    map: Seq<(Seq<char>, T)>,
    key: Seq<char>,
    other: Seq<char>,
)
    requires
        keys_distinct(map),
    ensures
        map_get(map_remove(map, key), other) == if other == key {
            None
        } else {
            map_get(map, other)
        },
{
    let after = map_remove(map, key);
    lemma_key_index(map, key, 0);
    lemma_key_index(map, other, 0);
    lemma_key_index(after, other, 0);
    if key_index(map, key, 0) is Some {
        let k = key_index(map, key, 0)->0;
        assert forall|j: int| 0 <= j < after.len() implies #[trigger] after[j] == map[if j < k {
            j
        } else {
            j + 1
        }] by {}
        match (key_index(map, other, 0), key_index(after, other, 0)) {
            (Some(a), Some(b)) => {
                let source = if b < k { b } else { b + 1 };
                assert(after[b] == map[source]);
                assert(map[source].0 == map[a].0);
                assert(source == a);
            },
            (Some(a), None) => {
                if other != key {
                    let moved = if a < k { a } else { a - 1 };
                    assert(after[moved] == map[a]);
                }
            },
            (None, Some(b)) => {
                let source = if b < k { b } else { b + 1 };
                assert(after[b] == map[source]);
            },
            (None, None) => {},
        }
        if other == key && key_index(after, other, 0) is Some {
            let b = key_index(after, other, 0)->0;
            let source = if b < k { b } else { b + 1 };
            assert(after[b] == map[source]);
            assert(map[source].0 == map[k].0);
        }
    }
}

/// Two maps of the same size, in each of which no name stands twice, have the same names where every
/// name of the one is one of the other.
pub proof fn names_that_fit_are_all_of_them<T, U>(
    a: Seq<(Seq<char>, T)>,
    b: Seq<(Seq<char>, U)>,
)
    requires
        keys_distinct(a),
        keys_distinct(b),
        a.len() == b.len(),
        forall|i: int| 0 <= i < a.len() ==> map_get(b, (#[trigger] a[i]).0) is Some,
    ensures
        forall|j: int| 0 <= j < b.len() ==> map_get(a, (#[trigger] b[j]).0) is Some,
{
    let x = Seq::new(a.len(), |i: int| a[i].0);
    let y = Seq::new(b.len(), |i: int| b[i].0);
    assert(x.no_duplicates()) by {
        assert forall|i: int, j: int| 0 <= i < x.len() && 0 <= j < x.len() && i != j implies x[i]
            != x[j] by {
            if i < j {
                assert(a[i].0 != a[j].0);
            } else {
                assert(a[j].0 != a[i].0);
            }
        }
    }
    assert(y.no_duplicates()) by {
        assert forall|i: int, j: int| 0 <= i < y.len() && 0 <= j < y.len() && i != j implies y[i]
            != y[j] by {
            if i < j {
                assert(b[i].0 != b[j].0);
            } else {
                assert(b[j].0 != b[i].0);
            }
        }
    }
    x.unique_seq_to_set();
    y.unique_seq_to_set();
    assert(x.to_set().subset_of(y.to_set())) by {
        assert forall|name: Seq<char>| x.to_set().contains(name) implies y.to_set().contains(
            name,
        ) by {
            let i = choose|i: int| 0 <= i < x.len() && x[i] == name;
            assert(a[i].0 == name);
            lemma_key_index(b, name, 0);
            let k = key_index(b, name, 0)->0;
            assert(y[k] == name);
        }
    }
    vstd::set_lib::lemma_subset_equality(x.to_set(), y.to_set());
    assert forall|j: int| 0 <= j < b.len() implies map_get(a, (#[trigger] b[j]).0) is Some by {
        assert(y[j] == b[j].0);
        assert(y.to_set().contains(y[j]));
        let i = choose|i: int| 0 <= i < x.len() && x[i] == y[j];
        lemma_key_index(a, b[j].0, 0);
        assert(a[i].0 == b[j].0);
    }
}

} // verus!
