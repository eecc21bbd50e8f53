use vstd::prelude::*;

use toml_edit::{Array, DocumentMut, InlineTable, Item, TomlError, Value};

use crate::names::names_of;

verus! {

#[verifier::external_type_specification]
#[verifier::external_body]
pub struct ExDocumentMut(toml_edit::DocumentMut);

#[verifier::external_type_specification]
#[verifier::external_body]
pub struct ExTomlError(toml_edit::TomlError);

#[verifier::external_type_specification]
#[verifier::external_body]
pub struct ExValue(toml_edit::Value);

/// A dependency entry of the `dependencies` table.
pub enum EntryView {
    /// `name = "version"`.
    Short { version: Seq<char> },
    /// `name = { ... }`: every key of the inline table with its value, in order.
    Inline { keys: Seq<(Seq<char>, Value)> },
    /// Any other shape, such as a `[dependencies.name]` table.
    Other,
}

pub open spec fn version_key() -> Seq<char> {
    seq!['v', 'e', 'r', 's', 'i', 'o', 'n']
}

pub open spec fn default_features_key() -> Seq<char> {
    seq!['d', 'e', 'f', 'a', 'u', 'l', 't', '-', 'f', 'e', 'a', 't', 'u', 'r', 'e', 's']
}

pub open spec fn workspace_key() -> Seq<char> {
    seq!['w', 'o', 'r', 'k', 's', 'p', 'a', 'c', 'e']
}

pub open spec fn features_key() -> Seq<char> {
    seq!['f', 'e', 'a', 't', 'u', 'r', 'e', 's']
}

/// No key of an inline table is listed twice.
pub open spec fn distinct_keys(keys: Seq<(Seq<char>, Value)>) -> bool {
    forall|i: int, j: int| 0 <= i < j < keys.len() ==> keys[i].0 != keys[j].0
}

/// The position of key `k`.
pub open spec fn key_position(keys: Seq<(Seq<char>, Value)>, k: Seq<char>) -> Option<int>
    decreases keys.len(),
{
    if keys.len() == 0 {
        None
    } else if keys.last().0 == k {
        Some(keys.len() - 1)
    } else {
        key_position(keys.drop_last(), k)
    }
}

/// The value of key `k`.
pub open spec fn value_at(keys: Seq<(Seq<char>, Value)>, k: Seq<char>) -> Option<Value> {
    match key_position(keys, k) {
        Some(i) => Some(keys[i].1),
        None => None,
    }
}

/// Key `k` set to `v`: in its place where it is present, else added at the end.
pub open spec fn set_key(keys: Seq<(Seq<char>, Value)>, k: Seq<char>, v: Value) -> Seq<
    (Seq<char>, Value),
> {
    match key_position(keys, k) {
        Some(i) => keys.update(i, (k, v)),
        None => keys.push((k, v)),
    }
}

/// Key `k` removed, the other keys keeping their order.
pub open spec fn remove_key(keys: Seq<(Seq<char>, Value)>, k: Seq<char>) -> Seq<
    (Seq<char>, Value),
> {
    match key_position(keys, k) {
        Some(i) => keys.remove(i),
        None => keys,
    }
}

/// The keys of inline entry `name`.
pub open spec fn inline_keys(d: DocumentMut, name: Seq<char>) -> Seq<(Seq<char>, Value)> {
    dependency_entries(d)[name]->Inline_keys
}

/// The document has a `dependencies` key.
pub uninterp spec fn has_dependency_table(d: DocumentMut) -> bool;

/// The entries of the document's `dependencies` table, by dependency name.
pub uninterp spec fn dependency_entries(d: DocumentMut) -> Map<Seq<char>, EntryView>;

/// The text that the document renders to.
pub uninterp spec fn document_text(d: DocumentMut) -> Seq<char>;

/// The text is a TOML document.
pub uninterp spec fn is_toml_document(s: Seq<char>) -> bool;

/// The TOML text has a `dependencies` key.
pub uninterp spec fn text_has_dependencies(s: Seq<char>) -> bool;

/// The entries of the `dependencies` table of a TOML text, by dependency name.
pub uninterp spec fn text_dependency_entries(s: Seq<char>) -> Map<Seq<char>, EntryView>;

/// What the document parsed from a TOML text renders to.
pub uninterp spec fn text_rendered(s: Seq<char>) -> Seq<char>;

/// Relies on `DocumentMut`'s `FromStr`: whether a text parses, and the document it parses
/// to, depend on the text alone.
#[verifier::external_body]
fn parse_document(text: &str) -> (r: Result<DocumentMut, TomlError>)
    ensures
        r.is_ok() == is_toml_document(text@),
        r matches Ok(d) ==> has_dependency_table(d) == text_has_dependencies(text@)
            && dependency_entries(d) == text_dependency_entries(text@) && document_text(d)
            == text_rendered(text@),
{
    text.parse::<DocumentMut>()
}

/// Relies on `DocumentMut::clone`: a deep copy of the document.
#[verifier::external_body]
fn copy_document(d: &DocumentMut) -> (r: DocumentMut)
    ensures
        r == *d,
{
    d.clone()
}

/// Relies on `DocumentMut`'s `Display`, which renders the document.
#[verifier::external_body]
fn render_document(d: &DocumentMut) -> (r: String)
    ensures
        r@ == document_text(*d),
{
    d.to_string()
}

/// Relies on `Table::contains_key` for the `dependencies` key.
#[verifier::external_body]
fn dependencies_present(d: &DocumentMut) -> (r: bool)
    ensures
        r == has_dependency_table(*d),
{
    d.contains_key("dependencies")
}

/// The value `Value::from` gives for a string.
pub uninterp spec fn string_value(s: Seq<char>) -> Value;

/// The value `Value::from` gives for a boolean.
pub uninterp spec fn bool_value(b: bool) -> Value;

/// The array value `Array::from_iter` gives for a list of strings.
pub uninterp spec fn strings_value(f: Seq<Seq<char>>) -> Value;

/// The value is an array.
pub uninterp spec fn is_array_value(v: Value) -> bool;

/// The text of the document before and after the value of entry `name` of `dependencies`
/// (the value's own leading spaces and trailing comment belong to the value).
pub uninterp spec fn text_around_entry(d: DocumentMut, name: Seq<char>) -> (Seq<char>, Seq<char>);

/// The shape of a dependency entry, as the editor tells it apart.
pub enum EntryShape {
    NoTable,
    Missing,
    Short(String),
    Inline { inherited: bool, has_default_features: bool, has_features_array: bool },
    Other,
}

/// The document has a `dependencies` table with an entry `name`.
pub open spec fn has_entry(d: DocumentMut, name: Seq<char>) -> bool {
    has_dependency_table(d) && dependency_entries(d).contains_key(name)
}

/// Entry `name` is an inline table.
pub open spec fn is_inline(d: DocumentMut, name: Seq<char>) -> bool {
    has_entry(d, name) && dependency_entries(d)[name] is Inline
}

/// Entry `name` is inherited from the workspace.
pub open spec fn inherits(d: DocumentMut, name: Seq<char>) -> bool {
    is_inline(d, name) && value_at(inline_keys(d, name), workspace_key()) is Some
}

/// Entry `name`, an inline table, has keys `keys`; every other entry is as in `d0`.
pub open spec fn inline_edited(
    d0: DocumentMut,
    d1: DocumentMut,
    name: Seq<char>,
    keys: Seq<(Seq<char>, Value)>,
) -> bool {
    &&& has_dependency_table(d1)
    &&& dependency_entries(d1) == dependency_entries(d0).insert(
        name,
        (EntryView::Inline { keys }),
    )
}

/// Relies on `Table::get`, `Item::get`, `InlineTable::contains_key` and `InlineTable::get`
/// (an inherited entry is one with a `workspace` key) to read the shape of the entry `name` of `dependencies`; an inline table is an
/// `IndexMap`, which holds each key once.
#[verifier::external_body]
fn entry_shape(d: &DocumentMut, name: &str) -> (r: EntryShape)
    ensures
        match r {
            EntryShape::NoTable => !has_dependency_table(*d),
            EntryShape::Missing => has_dependency_table(*d) && !dependency_entries(
                *d,
            ).contains_key(name@),
            EntryShape::Short(v) => has_entry(*d, name@) && dependency_entries(*d)[name@]
                == (EntryView::Short { version: v@ }),
            EntryShape::Inline { inherited, has_default_features, has_features_array } => {
                &&& is_inline(*d, name@)
                &&& inherited == (value_at(inline_keys(*d, name@), workspace_key()) is Some)
                &&& distinct_keys(inline_keys(*d, name@))
                &&& has_default_features == (value_at(
                    inline_keys(*d, name@),
                    default_features_key(),
                ) is Some)
                &&& has_features_array == (value_at(inline_keys(*d, name@), features_key()) matches Some(
                    v,
                ) && is_array_value(v))
            },
            EntryShape::Other => has_entry(*d, name@) && dependency_entries(*d)[name@] is Other,
        },
{
    match d.get("dependencies") {
        None => EntryShape::NoTable,
        Some(deps) => match deps.get(name) {
            None => EntryShape::Missing,
            Some(Item::Value(Value::String(v))) => EntryShape::Short(v.value().clone()),
            Some(Item::Value(Value::InlineTable(t))) => EntryShape::Inline {
                inherited: t.contains_key("workspace"),
                has_default_features: t.contains_key("default-features"),
                has_features_array: matches!(t.get("features"), Some(Value::Array(_))),
            },
            Some(_) => EntryShape::Other,
        },
    }
}

/// Relies on `Table::get_mut` and `Item::get_mut`: the entry `name` becomes an empty
/// inline table; nothing outside its value changes.
#[verifier::external_body]
fn replace_with_inline(d: &mut DocumentMut, name: &str)
    requires
        has_entry(*old(d), name@),
    ensures
        inline_edited(*old(d), *final(d), name@, Seq::empty()),
        text_around_entry(*final(d), name@) == text_around_entry(*old(d), name@),
{
    if let Some(deps) = d.get_mut("dependencies") {
        if let Some(item) = deps.get_mut(name) {
            *item = Item::Value(Value::InlineTable(InlineTable::new()));
        }
    }
}

/// Relies on `InlineTable::insert` (an `IndexMap` insert: a present key keeps its place)
/// and `Value::from`: the entry's `version` key is set to `version`.
#[verifier::external_body]
fn insert_version(d: &mut DocumentMut, name: &str, version: &str)
    requires
        is_inline(*old(d), name@),
    ensures
        inline_edited(
            *old(d),
            *final(d),
            name@,
            set_key(inline_keys(*old(d), name@), version_key(), string_value(version@)),
        ),
        text_around_entry(*final(d), name@) == text_around_entry(*old(d), name@),
{
    if let Some(deps) = d.get_mut("dependencies") {
        if let Some(Item::Value(Value::InlineTable(t))) = deps.get_mut(name) {
            t.insert("version", Value::from(version));
        }
    }
}

/// Relies on `InlineTable::insert` and `Value::from`: the entry's `default-features` key is
/// set to `false`.
#[verifier::external_body]
fn insert_default_features_false(d: &mut DocumentMut, name: &str)
    requires
        is_inline(*old(d), name@),
    ensures
        inline_edited(
            *old(d),
            *final(d),
            name@,
            set_key(inline_keys(*old(d), name@), default_features_key(), bool_value(false)),
        ),
        text_around_entry(*final(d), name@) == text_around_entry(*old(d), name@),
{
    if let Some(deps) = d.get_mut("dependencies") {
        if let Some(Item::Value(Value::InlineTable(t))) = deps.get_mut(name) {
            t.insert("default-features", Value::from(false));
        }
    }
}

/// Relies on `InlineTable::get_mut` and `Value::from`: the value of the entry's
/// `default-features` key is replaced by `false`, the key keeping its place and formatting;
/// where it already is that value, the document is unchanged.
#[verifier::external_body]
fn overwrite_default_features_false(d: &mut DocumentMut, name: &str)
    requires
        is_inline(*old(d), name@),
        value_at(inline_keys(*old(d), name@), default_features_key()) is Some,
    ensures
        inline_edited(
            *old(d),
            *final(d),
            name@,
            set_key(inline_keys(*old(d), name@), default_features_key(), bool_value(false)),
        ),
        text_around_entry(*final(d), name@) == text_around_entry(*old(d), name@),
        value_at(inline_keys(*old(d), name@), default_features_key()) == Some(bool_value(false))
            ==> *final(d) == *old(d),
{
    if let Some(deps) = d.get_mut("dependencies") {
        if let Some(Item::Value(Value::InlineTable(t))) = deps.get_mut(name) {
            if let Some(v) = t.get_mut("default-features") {
                *v = Value::from(false);
            }
        }
    }
}

/// Relies on `InlineTable::insert` and `Array::from_iter`: the entry's `features` key is
/// set to an array of the given names.
#[verifier::external_body]
fn insert_features(d: &mut DocumentMut, name: &str, features: &Vec<String>)
    requires
        is_inline(*old(d), name@),
    ensures
        inline_edited(
            *old(d),
            *final(d),
            name@,
            set_key(inline_keys(*old(d), name@), features_key(), strings_value(names_of(features@))),
        ),
        text_around_entry(*final(d), name@) == text_around_entry(*old(d), name@),
        is_array_value(value_at(inline_keys(*final(d), name@), features_key())->Some_0),
{
    if let Some(deps) = d.get_mut("dependencies") {
        if let Some(Item::Value(Value::InlineTable(t))) = deps.get_mut(name) {
            t.insert("features", Value::Array(Array::from_iter(features.iter())));
        }
    }
}

/// Relies on `InlineTable::get_mut` and `Array::from_iter`: the array of the entry's
/// `features` key is replaced by one of the given names, the key keeping its place; where
/// it already is that array, the document is unchanged.
#[verifier::external_body]
fn overwrite_features(d: &mut DocumentMut, name: &str, features: &Vec<String>)
    requires
        is_inline(*old(d), name@),
        value_at(inline_keys(*old(d), name@), features_key()) matches Some(v) && is_array_value(v),
    ensures
        inline_edited(
            *old(d),
            *final(d),
            name@,
            set_key(inline_keys(*old(d), name@), features_key(), strings_value(names_of(features@))),
        ),
        text_around_entry(*final(d), name@) == text_around_entry(*old(d), name@),
        value_at(inline_keys(*old(d), name@), features_key()) == Some(
            strings_value(names_of(features@)),
        ) ==> *final(d) == *old(d),
        is_array_value(value_at(inline_keys(*final(d), name@), features_key())->Some_0),
{
    if let Some(deps) = d.get_mut("dependencies") {
        if let Some(Item::Value(Value::InlineTable(t))) = deps.get_mut(name) {
            if let Some(Value::Array(a)) = t.get_mut("features") {
                *a = Array::from_iter(features.iter());
            }
        }
    }
}

/// Relies on `InlineTable::remove` (an `IndexMap` shift-remove, which keeps the order of
/// the other keys): the entry's `features` key is removed.
#[verifier::external_body]
fn remove_features(d: &mut DocumentMut, name: &str)
    requires
        is_inline(*old(d), name@),
    ensures
        inline_edited(*old(d), *final(d), name@, remove_key(inline_keys(*old(d), name@), features_key())),
        text_around_entry(*final(d), name@) == text_around_entry(*old(d), name@),
{
    if let Some(deps) = d.get_mut("dependencies") {
        if let Some(Item::Value(Value::InlineTable(t))) = deps.get_mut(name) {
            t.remove("features");
        }
    }
}

/// Why a flag edit or the loading of a manifest failed.
#[derive(PartialEq, Eq, Structural, Debug, Clone, Copy)]
pub enum EditError {
    /// The manifest is not a TOML document.
    ManifestParse,
    /// The manifest has no `dependencies` table.
    DependenciesNotFound,
    /// The `dependencies` table has no entry of the given name.
    DependencyNotFound,
    /// The entry is neither a version string nor an inline table.
    MalformedEntry,
}

/// The keys of an inline entry after its flag list is set to `f`: `default-features` set
/// to `false` in its place or added; a `features` array replaced in its place by `f`, or
/// removed where `f` is empty; where there is no `features` array, one added only for a
/// nonempty `f`.
pub open spec fn edited_keys(keys: Seq<(Seq<char>, Value)>, f: Seq<Seq<char>>) -> Seq<
    (Seq<char>, Value),
> {
    let k1 = set_key(keys, default_features_key(), bool_value(false));
    if value_at(keys, features_key()) matches Some(v) && is_array_value(v) {
        let k2 = set_key(k1, features_key(), strings_value(f));
        if f.len() == 0 {
            remove_key(k2, features_key())
        } else {
            k2
        }
    } else if f.len() > 0 {
        set_key(k1, features_key(), strings_value(f))
    } else {
        k1
    }
}

/// The keys a short entry `name = "version"` gets: `features` only for a nonempty `f`,
/// then `default-features = false`, then the version.
pub open spec fn converted_keys(version: Seq<char>, f: Seq<Seq<char>>) -> Seq<(Seq<char>, Value)> {
    let k0 = Seq::<(Seq<char>, Value)>::empty();
    let k1 = if f.len() > 0 {
        set_key(k0, features_key(), strings_value(f))
    } else {
        k0
    };
    set_key(
        set_key(k1, default_features_key(), bool_value(false)),
        version_key(),
        string_value(version),
    )
}

/// The entry after its flag list is set to `f`; an entry inherited from the workspace
/// (`name = { workspace = true, ... }`) is left as it is.
pub open spec fn edited_entry(e: EntryView, f: Seq<Seq<char>>) -> EntryView {
    match e {
        EntryView::Short { version } => EntryView::Inline { keys: converted_keys(version, f) },
        EntryView::Inline { keys } => if value_at(keys, workspace_key()) is Some {
            e
        } else {
            EntryView::Inline { keys: edited_keys(keys, f) }
        },
        EntryView::Other => EntryView::Other,
    }
}

/// The table after the flag list of entry `name` is set to `f`.
pub open spec fn edited_entries(
    m: Map<Seq<char>, EntryView>,
    name: Seq<char>,
    f: Seq<Seq<char>>,
) -> Map<Seq<char>, EntryView> {
    m.insert(name, edited_entry(m[name], f))
}

/// An inline entry whose flags are already set to `f`: setting them again changes nothing.
pub open spec fn settled(keys: Seq<(Seq<char>, Value)>, f: Seq<Seq<char>>) -> bool {
    &&& value_at(keys, default_features_key()) == Some(bool_value(false))
    &&& f.len() > 0 ==> value_at(keys, features_key()) == Some(strings_value(f))
    &&& f.len() == 0 ==> !(value_at(keys, features_key()) matches Some(v) && is_array_value(v))
}

proof fn lemma_position(keys: Seq<(Seq<char>, Value)>, k: Seq<char>)
    ensures
        match key_position(keys, k) {
            Some(i) => 0 <= i < keys.len() && keys[i].0 == k,
            None => forall|j: int| 0 <= j < keys.len() ==> (#[trigger] keys[j]).0 != k,
        },
    decreases keys.len(),
{
    if keys.len() > 0 && keys.last().0 != k {
        lemma_position(keys.drop_last(), k);
        assert forall|j: int| 0 <= j < keys.len() - 1 implies keys.drop_last()[j] == keys[j] by {}
    }
}

proof fn lemma_position_at(keys: Seq<(Seq<char>, Value)>, k: Seq<char>, i: int)
    requires
        distinct_keys(keys),
        0 <= i < keys.len(),
        keys[i].0 == k,
    ensures
        key_position(keys, k) == Some(i),
{
    lemma_position(keys, k);
    if let Some(j) = key_position(keys, k) {
        if j != i {
            if i < j {
                assert(keys[i].0 != keys[j].0);
            } else {
                assert(keys[j].0 != keys[i].0);
            }
        }
    } else {
        assert(keys[i].0 != k);
    }
}

proof fn lemma_value_at(keys: Seq<(Seq<char>, Value)>, k: Seq<char>)
    requires
        distinct_keys(keys),
    ensures
        value_at(keys, k) is None <==> forall|j: int| 0 <= j < keys.len() ==> (#[trigger] keys[j]).0 != k,
        forall|j: int| 0 <= j < keys.len() && (#[trigger] keys[j]).0 == k ==> value_at(keys, k) == Some(keys[j].1),
{
    lemma_position(keys, k);
    assert forall|j: int| 0 <= j < keys.len() && (#[trigger] keys[j]).0 == k implies value_at(keys, k) == Some(keys[j].1) by {
        lemma_position_at(keys, k, j);
    }
}

proof fn lemma_set_key(keys: Seq<(Seq<char>, Value)>, k: Seq<char>, v: Value)
    requires
        distinct_keys(keys),
    ensures
        distinct_keys(set_key(keys, k, v)),
        value_at(set_key(keys, k, v), k) == Some(v),
        forall|k2: Seq<char>| k2 != k ==> #[trigger] value_at(set_key(keys, k, v), k2) == value_at(keys, k2),
        value_at(keys, k) == Some(v) ==> set_key(keys, k, v) == keys,
{
    let s = set_key(keys, k, v);
    lemma_position(keys, k);
    match key_position(keys, k) {
        Some(i) => {
            assert(s.len() == keys.len());
            assert forall|a: int, b: int| 0 <= a < b < s.len() implies s[a].0 != s[b].0 by {
                assert(s[a].0 == keys[a].0 && s[b].0 == keys[b].0);
            }
            lemma_position_at(s, k, i);
            assert forall|k2: Seq<char>| k2 != k implies #[trigger] value_at(s, k2) == value_at(keys, k2) by {
                lemma_value_at(keys, k2);
                lemma_value_at(s, k2);
                if value_at(keys, k2) is None {
                    assert forall|j: int| 0 <= j < s.len() implies (#[trigger] s[j]).0 != k2 by {
                        assert(s[j].0 == keys[j].0);
                    }
                } else {
                    let j = key_position(keys, k2)->Some_0;
                    lemma_position(keys, k2);
                    assert(s[j] == keys[j]);
                }
            }
            if value_at(keys, k) == Some(v) {
                assert(s =~= keys);
            }
        },
        None => {
            assert forall|a: int, b: int| 0 <= a < b < s.len() implies s[a].0 != s[b].0 by {
                if b == keys.len() {
                    assert(s[a] == keys[a]);
                } else {
                    assert(s[a] == keys[a] && s[b] == keys[b]);
                }
            }
            assert(s.drop_last() =~= keys);
            assert forall|k2: Seq<char>| k2 != k implies #[trigger] value_at(s, k2) == value_at(keys, k2) by {
                lemma_position(keys, k2);
                if let Some(j) = key_position(keys, k2) {
                    assert(s[j] == keys[j]);
                }
            }
        },
    }
}

proof fn lemma_remove_key(keys: Seq<(Seq<char>, Value)>, k: Seq<char>)
    requires
        distinct_keys(keys),
    ensures
        distinct_keys(remove_key(keys, k)),
        value_at(remove_key(keys, k), k) is None,
        forall|k2: Seq<char>| k2 != k ==> #[trigger] value_at(remove_key(keys, k), k2) == value_at(keys, k2),
{
    let s = remove_key(keys, k);
    lemma_position(keys, k);
    match key_position(keys, k) {
        Some(i) => {
            assert(s.len() == keys.len() - 1);
            assert forall|j: int| 0 <= j < s.len() implies #[trigger] s[j] == (if j < i {
                keys[j]
            } else {
                keys[j + 1]
            }) by {}
            assert forall|a: int, b: int| 0 <= a < b < s.len() implies s[a].0 != s[b].0 by {
                let a2 = if a < i { a } else { a + 1 };
                let b2 = if b < i { b } else { b + 1 };
                assert(s[a] == keys[a2] && s[b] == keys[b2]);
            }
            lemma_value_at(s, k);
            assert forall|j: int| 0 <= j < s.len() implies (#[trigger] s[j]).0 != k by {
                let j2 = if j < i { j } else { j + 1 };
                assert(s[j] == keys[j2]);
                assert(j2 != i);
                if j2 < i {
                    assert(keys[j2].0 != keys[i].0);
                } else {
                    assert(keys[i].0 != keys[j2].0);
                }
            }
            assert forall|k2: Seq<char>| k2 != k implies #[trigger] value_at(s, k2) == value_at(keys, k2) by {
                lemma_value_at(keys, k2);
                lemma_value_at(s, k2);
                if let Some(j) = key_position(keys, k2) {
                    lemma_position(keys, k2);
                    assert(j != i);
                    let j2 = if j < i { j } else { j - 1 };
                    assert(s[j2] == keys[j]);
                } else {
                    assert forall|j: int| 0 <= j < s.len() implies (#[trigger] s[j]).0 != k2 by {
                        let j2 = if j < i { j } else { j + 1 };
                        assert(s[j] == keys[j2]);
                    }
                }
            }
        },
        None => {
            lemma_value_at(keys, k);
        },
    }
}

/// Setting flags `f` leaves the keys settled on `f`.
proof fn lemma_edited_settled(keys: Seq<(Seq<char>, Value)>, f: Seq<Seq<char>>)
    requires
        distinct_keys(keys),
        f.len() > 0 ==> is_array_value(strings_value(f)),
    ensures
        distinct_keys(edited_keys(keys, f)),
        settled(edited_keys(keys, f), f),
        settled(keys, f) ==> edited_keys(keys, f) == keys,
{
    let k1 = set_key(keys, default_features_key(), bool_value(false));
    lemma_set_key(keys, default_features_key(), bool_value(false));
    assert(value_at(k1, features_key()) == value_at(keys, features_key()));
    if value_at(keys, features_key()) matches Some(v) && is_array_value(v) {
        let k2 = set_key(k1, features_key(), strings_value(f));
        lemma_set_key(k1, features_key(), strings_value(f));
        assert(value_at(k2, default_features_key()) == value_at(k1, default_features_key()));
        if f.len() == 0 {
            lemma_remove_key(k2, features_key());
            assert(value_at(remove_key(k2, features_key()), default_features_key())
                == value_at(k2, default_features_key()));
        }
    } else if f.len() > 0 {
        lemma_set_key(k1, features_key(), strings_value(f));
        assert(value_at(set_key(k1, features_key(), strings_value(f)), default_features_key())
            == value_at(k1, default_features_key()));
    }
}

proof fn lemma_converted_settled(version: Seq<char>, f: Seq<Seq<char>>)
    requires
        f.len() > 0 ==> is_array_value(strings_value(f)),
    ensures
        distinct_keys(converted_keys(version, f)),
        settled(converted_keys(version, f), f),
{
    let k0 = Seq::<(Seq<char>, Value)>::empty();
    let k1 = if f.len() > 0 {
        set_key(k0, features_key(), strings_value(f))
    } else {
        k0
    };
    if f.len() > 0 {
        lemma_set_key(k0, features_key(), strings_value(f));
    } else {
        lemma_value_at(k0, features_key());
    }
    let k2 = set_key(k1, default_features_key(), bool_value(false));
    lemma_set_key(k1, default_features_key(), bool_value(false));
    assert(value_at(k2, features_key()) == value_at(k1, features_key()));
    lemma_set_key(k2, version_key(), string_value(version));
    assert(value_at(set_key(k2, version_key(), string_value(version)), features_key()) == value_at(k2, features_key()));
    assert(value_at(set_key(k2, version_key(), string_value(version)), default_features_key()) == value_at(k2, default_features_key()));
}

/// A manifest held in memory for flag edits that keep its formatting, comments and order,
/// with the document as it was loaded.
pub struct TomlEdit {
    toml_document: DocumentMut,
    original: DocumentMut,
}

impl TomlEdit {
    /// The document as it stands now.
    pub closed spec fn current(&self) -> DocumentMut {
        self.toml_document
    }

    /// The document as it was loaded.
    pub closed spec fn loaded(&self) -> DocumentMut {
        self.original
    }

    /// The text of the document as it stands now.
    pub open spec fn text(&self) -> Seq<char> {
        document_text(self.current())
    }

    /// Loads a manifest with a `dependencies` table.
    pub fn new(toml_contents: String) -> (r: Result<Self, EditError>)
        ensures
            !is_toml_document(toml_contents@) <==> r == Err::<Self, EditError>(
                EditError::ManifestParse,
            ),
            r matches Err(e) ==> e == EditError::ManifestParse || e
                == EditError::DependenciesNotFound,
            r matches Err(e) && e == EditError::DependenciesNotFound ==> is_toml_document(
                toml_contents@,
            ),
            is_toml_document(toml_contents@) && !text_has_dependencies(toml_contents@) <==> r
                == Err::<Self, EditError>(EditError::DependenciesNotFound),
            is_toml_document(toml_contents@) && text_has_dependencies(toml_contents@) <==> r is Ok,
            r matches Ok(t) ==> t.current() == t.loaded() && has_dependency_table(t.current())
                && dependency_entries(t.current()) == text_dependency_entries(toml_contents@)
                && t.text() == text_rendered(toml_contents@),
    {
        match parse_document(toml_contents.as_str()) {
            Err(_) => Err(EditError::ManifestParse),
            Ok(document) => {
                if !dependencies_present(&document) {
                    return Err(EditError::DependenciesNotFound);
                }
                let original = copy_document(&document);
                Ok(TomlEdit { toml_document: document, original })
            },
        }
    }

    /// Sets the flag list of dependency `dependency` to `features` and disables its default
    /// flags; a version-string entry becomes an inline table; an entry inherited from the
    /// workspace is left as it is. Only the entry's value
    /// changes; in an inline table, keys keep their place and the other keys their value.
    /// Setting the same flags again leaves the document as it is.
    pub fn replace_dependency_features(&mut self, dependency: &String, features: Vec<String>) -> (r:
        Result<(), EditError>)
        ensures
            final(self).loaded() == old(self).loaded(),
            !has_dependency_table(old(self).current()) <==> r == Err::<(), EditError>(
                EditError::DependenciesNotFound,
            ),
            has_dependency_table(old(self).current()) && !dependency_entries(
                old(self).current(),
            ).contains_key(dependency@) <==> r == Err::<(), EditError>(
                EditError::DependencyNotFound,
            ),
            has_entry(old(self).current(), dependency@) && dependency_entries(
                old(self).current(),
            )[dependency@] is Other <==> r == Err::<(), EditError>(EditError::MalformedEntry),
            r != Err::<(), EditError>(EditError::ManifestParse),
            r is Err ==> final(self).current() == old(self).current(),
            r is Ok ==> has_dependency_table(final(self).current()) && dependency_entries(
                final(self).current(),
            ) == edited_entries(
                dependency_entries(old(self).current()),
                dependency@,
                names_of(features@),
            ),
            r is Ok ==> text_around_entry(final(self).current(), dependency@) == text_around_entry(
                old(self).current(),
                dependency@,
            ),
            inherits(old(self).current(), dependency@) ==> r is Ok && final(self).current() == old(self).current(),
            r is Ok && !inherits(old(self).current(), dependency@) ==> is_inline(
                final(self).current(),
                dependency@,
            ) && distinct_keys(
                inline_keys(final(self).current(), dependency@),
            ) && settled(inline_keys(final(self).current(), dependency@), names_of(features@)),
            is_inline(old(self).current(), dependency@) && distinct_keys(
                inline_keys(old(self).current(), dependency@),
            ) && settled(inline_keys(old(self).current(), dependency@), names_of(features@))
                ==> final(self).current() == old(self).current(),
    {
        let name = dependency.as_str();
        let ghost d0 = self.toml_document;
        let ghost f = names_of(features@);
        let ghost n = dependency@;
        match entry_shape(&self.toml_document, name) {
            EntryShape::NoTable => Err(EditError::DependenciesNotFound),
            EntryShape::Missing => Err(EditError::DependencyNotFound),
            EntryShape::Other => Err(EditError::MalformedEntry),
            EntryShape::Short(version) => {
                let ghost v = version@;
                replace_with_inline(&mut self.toml_document, name);
                let ghost a0 = text_around_entry(d0, n);
                if features.len() > 0 {
                    insert_features(&mut self.toml_document, name, &features);
                    proof {
                        lemma_set_key(Seq::empty(), features_key(), strings_value(f));
                    }
                }
                let ghost arr = features.len() > 0 ==> is_array_value(strings_value(f));
                assert(arr);
                insert_default_features_false(&mut self.toml_document, name);
                insert_version(&mut self.toml_document, name, version.as_str());
                proof {
                    lemma_converted_settled(v, f);
                    assert(inline_keys(self.toml_document, n) == converted_keys(v, f));
                    assert(dependency_entries(self.toml_document) =~= edited_entries(
                        dependency_entries(d0),
                        n,
                        f,
                    ));
                }
                Ok(())
            },
            EntryShape::Inline { inherited, has_default_features, has_features_array } => {
                let ghost k0 = inline_keys(d0, n);
                if inherited {
                    proof {
                        assert(dependency_entries(d0) =~= edited_entries(dependency_entries(d0), n, f));
                    }
                    return Ok(());
                }
                proof {
                    lemma_set_key(k0, default_features_key(), bool_value(false));
                }
                if has_default_features {
                    overwrite_default_features_false(&mut self.toml_document, name);
                } else {
                    insert_default_features_false(&mut self.toml_document, name);
                }
                let ghost d1 = self.toml_document;
                let ghost k1 = set_key(k0, default_features_key(), bool_value(false));
                assert(inline_keys(d1, n) == k1);
                assert(value_at(k1, features_key()) == value_at(k0, features_key()));
                if !has_features_array {
                    if features.len() > 0 {
                        insert_features(&mut self.toml_document, name, &features);
                        proof {
                            lemma_set_key(k1, features_key(), strings_value(f));
                            assert(is_array_value(strings_value(f)));
                        }
                    }
                } else {
                    overwrite_features(&mut self.toml_document, name, &features);
                    proof {
                        lemma_set_key(k1, features_key(), strings_value(f));
                        assert(is_array_value(strings_value(f)));
                    }
                    if features.len() == 0 {
                        remove_features(&mut self.toml_document, name);
                    }
                }
                proof {
                    if settled(k0, f) {
                        assert(d1 == d0);
                        if f.len() > 0 {
                            assert(value_at(k1, features_key()) == Some(strings_value(f)));
                        }
                    }
                    assert(f.len() > 0 ==> is_array_value(strings_value(f)));
                    lemma_edited_settled(k0, f);
                    assert(inline_keys(self.toml_document, n) == edited_keys(k0, f));
                    assert(dependency_entries(self.toml_document) =~= edited_entries(
                        dependency_entries(d0),
                        n,
                        f,
                    ));
                }
                Ok(())
            },
        }
    }

    /// Puts the document back as it was loaded.
    pub fn reset(&mut self)
        ensures
            final(self).current() == old(self).loaded(),
            final(self).loaded() == old(self).loaded(),
    {
        self.toml_document = copy_document(&self.original);
    }

    /// The document's text, with its formatting kept outside the edited entries.
    pub fn serialize(&self) -> (r: String)
        ensures
            r@ == self.text(),
    {
        render_document(&self.toml_document)
    }
}

/// Restoring after any flag edits gives back the text of the document as it was loaded.
pub proof fn lemma_reset_restores_text(at_load: TomlEdit, edited: TomlEdit, restored: TomlEdit)
    requires
        at_load.current() == at_load.loaded(),
        edited.loaded() == at_load.loaded(),
        restored.current() == edited.loaded(),
    ensures
        restored.text() == at_load.text(),
{
}

} // verus!
