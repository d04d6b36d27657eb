//! The loosely typed documents that are exchanged with the mail store.
//!
//! A lookup never fails: a field that is missing, an index out of range, or
//! a lookup in a value of another kind gives the null document.

use crate::number::{decimal, digits, format_i64, format_u64, parse_bounded, parse_i64};
use crate::text::{chars_of, str_eq, string_of};
use std::fmt::Write;
use vstd::prelude::*;

verus! {

/// A document. A number is kept as its decimal lexeme; an object is an
/// ordered list of entries, and a lookup takes the first entry with the key.
#[derive(Debug, PartialEq)]
pub enum Json {
    Null,
    Bool(bool),
    Number(String),
    Str(String),
    Array(Vec<Json>),
    Object(Vec<(String, Json)>),
}

/// The mathematical value of a document.
pub ghost enum Doc {
    Null,
    Bool(bool),
    Number(Seq<char>),
    Str(Seq<char>),
    Array(Seq<Doc>),
    Object(Seq<Entry>),
}

/// One entry of an object.
pub ghost struct Entry {
    pub key: Seq<char>,
    pub value: Doc,
}

/// The position of the first entry under `key` at or after `from`.
pub open spec fn position(entries: Seq<Entry>, key: Seq<char>, from: int) -> Option<int>
    decreases entries.len() - from,
{
    if from < 0 || from >= entries.len() {
        None
    } else if entries[from].key == key {
        Some(from)
    } else {
        position(entries, key, from + 1)
    }
}

/// The value of the first entry under `key`, if there is one.
pub open spec fn lookup(entries: Seq<Entry>, key: Seq<char>) -> Option<Doc> {
    match position(entries, key, 0) {
        Some(k) => Some(entries[k].value),
        None => None,
    }
}

/// What `position` returns is the least position of an entry with the key.
pub proof fn lemma_position(entries: Seq<Entry>, key: Seq<char>, from: int)
    requires
        0 <= from,
    ensures
        match position(entries, key, from) {
            Some(k) => from <= k < entries.len() && entries[k].key == key && forall|j: int|
                from <= j < k ==> (#[trigger] entries[j]).key != key,
            None => forall|j: int| from <= j < entries.len() ==> (#[trigger] entries[j]).key != key,
        },
    decreases entries.len() - from,
{
    if from < entries.len() && entries[from].key != key {
        lemma_position(entries, key, from + 1);
    }
}

impl Doc {
    /// The field `key` of an object; null where there is none.
    pub open spec fn field(self, key: Seq<char>) -> Doc {
        match self {
            Doc::Object(entries) => match lookup(entries, key) {
                Some(d) => d,
                None => Doc::Null,
            },
            _ => Doc::Null,
        }
    }

    /// Whether the document is an object with an entry under `key`.
    pub open spec fn has_key(self, key: Seq<char>) -> bool {
        match self {
            Doc::Object(entries) => lookup(entries, key).is_some(),
            _ => false,
        }
    }

    /// The element `i` of an array; null where there is none.
    pub open spec fn item(self, i: int) -> Doc {
        match self {
            Doc::Array(items) => if 0 <= i < items.len() {
                items[i]
            } else {
                Doc::Null
            },
            _ => Doc::Null,
        }
    }

    /// The text of a string.
    pub open spec fn as_str(self) -> Option<Seq<char>> {
        match self {
            Doc::Str(s) => Some(s),
            _ => None,
        }
    }

    /// The elements of an array.
    pub open spec fn as_array(self) -> Option<Seq<Doc>> {
        match self {
            Doc::Array(items) => Some(items),
            _ => None,
        }
    }

    /// The entries of an object.
    pub open spec fn as_object(self) -> Option<Seq<Entry>> {
        match self {
            Doc::Object(entries) => Some(entries),
            _ => None,
        }
    }

    /// The value of a boolean.
    pub open spec fn as_bool(self) -> Option<bool> {
        match self {
            Doc::Bool(b) => Some(b),
            _ => None,
        }
    }

    /// The value of a number that is written as an integer and fits 64 bits.
    pub open spec fn as_i64(self) -> Option<int> {
        match self {
            Doc::Number(lexeme) => parse_bounded(lexeme, i64::MIN as int, i64::MAX as int),
            _ => None,
        }
    }

    /// Whether the document is null.
    pub open spec fn is_null(self) -> bool {
        self is Null
    }

    /// The text of a string; empty for anything else.
    pub open spec fn str_or_empty(self) -> Seq<char> {
        match self {
            Doc::Str(s) => s,
            _ => Seq::empty(),
        }
    }

    /// The value of an integer; zero for anything else.
    pub open spec fn i64_or_zero(self) -> int {
        match self.as_i64() {
            Some(n) => n,
            None => 0,
        }
    }
}

/// The documents that a sequence of values stands for.
pub open spec fn docs(items: Seq<Json>) -> Seq<Doc> {
    Seq::new(items.len(), |i: int| items[i]@)
}

/// The entries that a sequence of pairs stands for.
pub open spec fn entries_of(entries: Seq<(String, Json)>) -> Seq<Entry> {
    Seq::new(entries.len(), |i: int| Entry { key: entries[i].0@, value: entries[i].1@ })
}

/// The document behind an optional reference: no reference is the null
/// document.
pub open spec fn doc_of(r: Option<&Json>) -> Doc {
    match r {
        Some(j) => j@,
        None => Doc::Null,
    }
}

impl View for Json {
    type V = Doc;

    open spec fn view(&self) -> Doc
        decreases self,
    {
        match self {
            Json::Null => Doc::Null,
            Json::Bool(b) => Doc::Bool(*b),
            Json::Number(n) => Doc::Number(n@),
            Json::Str(s) => Doc::Str(s@),
            Json::Array(items) => Doc::Array(
                Seq::new(
                    items@.len(),
                    |i: int|
                        if 0 <= i < items@.len() {
                            items@[i].view()
                        } else {
                            Doc::Null
                        },
                ),
            ),
            Json::Object(entries) => Doc::Object(
                Seq::new(
                    entries@.len(),
                    |i: int|
                        if 0 <= i < entries@.len() {
                            Entry { key: entries@[i].0@, value: entries@[i].1.view() }
                        } else {
                            Entry { key: Seq::empty(), value: Doc::Null }
                        },
                ),
            ),
        }
    }
}

/// The view of an array is the array of the views.
pub proof fn lemma_array_view(items: Vec<Json>)
    ensures
        Json::Array(items)@ == Doc::Array(docs(items@)),
{
    assert(Json::Array(items)@->Array_0 =~= docs(items@));
}

/// The view of an object holds the views of its entries.
pub proof fn lemma_object_view(entries: Vec<(String, Json)>)
    ensures
        Json::Object(entries)@ == Doc::Object(entries_of(entries@)),
{
    let a = Json::Object(entries)@->Object_0;
    let b = entries_of(entries@);
    assert forall|i: int| 0 <= i < a.len() implies a[i] == b[i] by {
        assert(a[i].key == b[i].key);
        assert(a[i].value == b[i].value);
    }
    assert(a =~= b);
}

/// A field of an object is a smaller document than the object.
pub proof fn lemma_field_decreases(d: Doc, key: Seq<char>)
    requires
        d.has_key(key),
    ensures
        decreases_to!(d => d.field(key)),
{
    let entries = d->Object_0;
    lemma_position(entries, key, 0);
    let k = position(entries, key, 0)->0;
    assert(decreases_to!(d => d->Object_0));
    assert(decreases_to!(entries => entries[k]));
    assert(decreases_to!(entries[k] => entries[k].value));
}

/// The elements of an array are smaller documents than the array.
pub proof fn lemma_items_decrease(d: Doc)
    requires
        d is Array,
    ensures
        decreases_to!(d => d->Array_0),
        forall|i: int| 0 <= i < d->Array_0.len() ==> decreases_to!(d => #[trigger] d->Array_0[i]),
{
    assert(decreases_to!(d => d->Array_0));
    assert forall|i: int| 0 <= i < d->Array_0.len() implies decreases_to!(d => #[trigger] d->Array_0[i]) by {
        assert(decreases_to!(d->Array_0 => d->Array_0[i]));
    }
}

impl Json {
    /// The field `key` of an object. No reference stands for null.
    pub fn get(&self, key: &str) -> (r: Option<&Json>)
        ensures
            doc_of(r) == self@.field(key@),
            r.is_none() ==> !self@.has_key(key@),
            r matches Some(j) ==> decreases_to!(self => j),
    {
        match self {
            Json::Object(entries) => {
                proof {
                    lemma_object_view(*entries);
                }
                let ghost es = entries_of(entries@);
                let mut i: usize = 0;
                while i < entries.len()
                    invariant
                        i <= entries@.len(),
                        es == entries_of(entries@),
                        self@ == Doc::Object(es),
                        self is Object && self->Object_0 == *entries,
                        position(es, key@, 0) == position(es, key@, i as int),
                    decreases entries@.len() - i,
                {
                    if str_eq(entries[i].0.as_str(), key) {
                        proof {
                            assert(decreases_to!(self => self->Object_0));
                            assert(decreases_to!(self->Object_0 => self->Object_0@));
                            assert(decreases_to!(self->Object_0@ => self->Object_0@[i as int]));
                            assert(decreases_to!(self->Object_0@[i as int] => self->Object_0@[i as int].1));
                        }
                        return Some(&entries[i].1);
                    }
                    i += 1;
                }
                None
            },
            _ => None,
        }
    }

    /// Whether the document is an object with an entry under `key`.
    pub fn contains_key(&self, key: &str) -> (r: bool)
        ensures
            r == self@.has_key(key@),
    {
        match self {
            Json::Object(entries) => {
                proof {
                    lemma_object_view(*entries);
                }
                let ghost es = entries_of(entries@);
                let mut i: usize = 0;
                while i < entries.len()
                    invariant
                        i <= entries@.len(),
                        es == entries_of(entries@),
                        self@ == Doc::Object(es),
                        position(es, key@, 0) == position(es, key@, i as int),
                    decreases entries@.len() - i,
                {
                    if str_eq(entries[i].0.as_str(), key) {
                        return true;
                    }
                    i += 1;
                }
                false
            },
            _ => false,
        }
    }

    /// The element `i` of an array. No reference stands for null.
    pub fn at(&self, i: usize) -> (r: Option<&Json>)
        ensures
            doc_of(r) == self@.item(i as int),
            r matches Some(j) ==> decreases_to!(self => j),
    {
        match self {
            Json::Array(items) => {
                proof {
                    lemma_array_view(*items);
                }
                if i < items.len() {
                    proof {
                        assert(decreases_to!(self => self->Array_0));
                        assert(decreases_to!(self->Array_0 => self->Array_0@));
                        assert(decreases_to!(self->Array_0@ => self->Array_0@[i as int]));
                    }
                    Some(&items[i])
                } else {
                    None
                }
            },
            _ => None,
        }
    }

    /// The text of a string.
    pub fn as_str(&self) -> (r: Option<&str>)
        ensures
            match r {
                Some(s) => self@.as_str() == Some(s@),
                None => self@.as_str() is None,
            },
    {
        match self {
            Json::Str(s) => Some(s.as_str()),
            _ => None,
        }
    }

    /// The elements of an array.
    pub fn as_array(&self) -> (r: Option<&Vec<Json>>)
        ensures
            match r {
                Some(items) => self@.as_array() == Some(docs(items@)) && forall|i: int|
                    0 <= i < items@.len() ==> decreases_to!(self => #[trigger] items@[i]),
                None => self@.as_array() is None,
            },
    {
        match self {
            Json::Array(items) => {
                proof {
                    lemma_array_view(*items);
                    assert forall|i: int| 0 <= i < items@.len() implies decreases_to!(self => #[trigger] items@[i]) by {
                        assert(decreases_to!(self => self->Array_0));
                        assert(decreases_to!(self->Array_0 => self->Array_0@));
                        assert(decreases_to!(self->Array_0@ => self->Array_0@[i]));
                    }
                }
                Some(items)
            },
            _ => None,
        }
    }

    /// The entries of an object.
    pub fn as_object(&self) -> (r: Option<&Vec<(String, Json)>>)
        ensures
            match r {
                Some(entries) => self@.as_object() == Some(entries_of(entries@)),
                None => self@.as_object() is None,
            },
    {
        match self {
            Json::Object(entries) => {
                proof {
                    lemma_object_view(*entries);
                }
                Some(entries)
            },
            _ => None,
        }
    }

    /// The value of a boolean.
    pub fn as_bool(&self) -> (r: Option<bool>)
        ensures
            r == self@.as_bool(),
    {
        match self {
            Json::Bool(b) => Some(*b),
            _ => None,
        }
    }

    /// The value of a number that is written as an integer and fits 64 bits.
    pub fn as_i64(&self) -> (r: Option<i64>)
        ensures
            match r {
                Some(n) => self@.as_i64() == Some(n as int),
                None => self@.as_i64() is None,
            },
    {
        match self {
            Json::Number(lexeme) => {
                let chars = chars_of(lexeme.as_str());
                parse_i64(chars.as_slice())
            },
            _ => None,
        }
    }

    /// Whether the document is null.
    pub fn is_null(&self) -> (r: bool)
        ensures
            r == self@.is_null(),
    {
        match self {
            Json::Null => true,
            _ => false,
        }
    }

    /// A copy of the document.
    pub fn duplicate(&self) -> (r: Json)
        ensures
            r@ == self@,
        decreases self,
    {
        match self {
            Json::Null => Json::Null,
            Json::Bool(b) => Json::Bool(*b),
            Json::Number(n) => Json::Number(n.clone()),
            Json::Str(s) => Json::Str(s.clone()),
            Json::Array(items) => {
                let mut out: Vec<Json> = Vec::new();
                let mut i: usize = 0;
                while i < items.len()
                    invariant
                        i <= items@.len(),
                        self is Array && self->Array_0 == *items,
                        out@.len() == i,
                        forall|j: int| 0 <= j < i ==> out@[j]@ == items@[j]@,
                    decreases items@.len() - i,
                {
                    proof {
                        assert(decreases_to!(self => self->Array_0));
                        assert(decreases_to!(self->Array_0 => self->Array_0@));
                        assert(decreases_to!(self->Array_0@ => self->Array_0@[i as int]));
                    }
                    out.push(items[i].duplicate());
                    i += 1;
                }
                proof {
                    lemma_array_view(*items);
                    lemma_array_view(out);
                    assert(docs(out@) =~= docs(items@));
                }
                Json::Array(out)
            },
            Json::Object(entries) => {
                let mut out: Vec<(String, Json)> = Vec::new();
                let mut i: usize = 0;
                while i < entries.len()
                    invariant
                        i <= entries@.len(),
                        self is Object && self->Object_0 == *entries,
                        out@.len() == i,
                        forall|j: int|
                            0 <= j < i ==> out@[j].0@ == entries@[j].0@ && out@[j].1@
                                == entries@[j].1@,
                    decreases entries@.len() - i,
                {
                    proof {
                        assert(decreases_to!(self => self->Object_0));
                        assert(decreases_to!(self->Object_0 => self->Object_0@));
                        assert(decreases_to!(self->Object_0@ => self->Object_0@[i as int]));
                        assert(decreases_to!(self->Object_0@[i as int] => self->Object_0@[i as int].1));
                    }
                    out.push((entries[i].0.clone(), entries[i].1.duplicate()));
                    i += 1;
                }
                proof {
                    lemma_object_view(*entries);
                    lemma_object_view(out);
                    assert(entries_of(out@) =~= entries_of(entries@));
                }
                Json::Object(out)
            },
        }
    }
}

// ---------------------------------------------------------------------------
// Lookups through optional references
// ---------------------------------------------------------------------------

/// The field `key` of the document behind a reference.
pub fn field<'a>(doc: Option<&'a Json>, key: &str) -> (r: Option<&'a Json>)
    ensures
        doc_of(r) == doc_of(doc).field(key@),
        r matches Some(j) ==> doc is Some && decreases_to!(doc->0 => j),
{
    match doc {
        Some(j) => j.get(key),
        None => None,
    }
}

/// The element `i` of the document behind a reference.
pub fn item<'a>(doc: Option<&'a Json>, i: usize) -> (r: Option<&'a Json>)
    ensures
        doc_of(r) == doc_of(doc).item(i as int),
        r matches Some(j) ==> doc is Some && decreases_to!(doc->0 => j),
{
    match doc {
        Some(j) => j.at(i),
        None => None,
    }
}

/// The text of the string behind a reference.
pub fn text_of<'a>(doc: Option<&'a Json>) -> (r: Option<&'a str>)
    ensures
        match r {
            Some(s) => doc_of(doc).as_str() == Some(s@),
            None => doc_of(doc).as_str() is None,
        },
{
    match doc {
        Some(j) => j.as_str(),
        None => None,
    }
}

/// The text of a string, or the empty text.
pub fn text_or_empty<'a>(doc: Option<&'a Json>) -> (r: &'a str)
    ensures
        r@ == doc_of(doc).str_or_empty(),
{
    match text_of(doc) {
        Some(s) => s,
        None => {
            let e: &'static str = "";
            proof {
                reveal_strlit("");
                assert(e@ =~= Seq::<char>::empty());
            }
            e
        },
    }
}

/// The elements of the array behind a reference.
pub fn list_of<'a>(doc: Option<&'a Json>) -> (r: Option<&'a Vec<Json>>)
    ensures
        match r {
            Some(items) => doc_of(doc).as_array() == Some(docs(items@)) && doc is Some
                && forall|i: int|
                0 <= i < items@.len() ==> decreases_to!(doc->0 => #[trigger] items@[i]),
            None => doc_of(doc).as_array() is None,
        },
{
    match doc {
        Some(j) => j.as_array(),
        None => None,
    }
}

/// The entries of the object behind a reference.
pub fn entries_in<'a>(doc: Option<&'a Json>) -> (r: Option<&'a Vec<(String, Json)>>)
    ensures
        match r {
            Some(entries) => doc_of(doc).as_object() == Some(entries_of(entries@)),
            None => doc_of(doc).as_object() is None,
        },
{
    match doc {
        Some(j) => j.as_object(),
        None => None,
    }
}

/// The value of the boolean behind a reference.
pub fn bool_of(doc: Option<&Json>) -> (r: Option<bool>)
    ensures
        r == doc_of(doc).as_bool(),
{
    match doc {
        Some(j) => j.as_bool(),
        None => None,
    }
}

/// The value of an integer, or zero.
pub fn i64_or_zero(doc: Option<&Json>) -> (r: i64)
    ensures
        r == doc_of(doc).i64_or_zero(),
{
    match doc {
        Some(j) => match j.as_i64() {
            Some(n) => n,
            None => 0,
        },
        None => 0,
    }
}

/// Whether a reference stands for null.
pub fn null_at(doc: Option<&Json>) -> (r: bool)
    ensures
        r == doc_of(doc).is_null(),
{
    match doc {
        Some(j) => j.is_null(),
        None => true,
    }
}

// ---------------------------------------------------------------------------
// Construction
// ---------------------------------------------------------------------------

/// A string.
pub fn text(s: &str) -> (r: Json)
    ensures
        r@ == Doc::Str(s@),
{
    let chars = chars_of(s);
    Json::Str(string_of(chars.as_slice()))
}

/// An integer.
pub fn integer(n: i64) -> (r: Json)
    ensures
        r@ == Doc::Number(decimal(n as int)),
{
    let chars = format_i64(n);
    Json::Number(string_of(chars.as_slice()))
}

/// A natural number.
pub fn natural(n: usize) -> (r: Json)
    ensures
        r@ == Doc::Number(digits(n as int)),
{
    let chars = format_u64(n as u64);
    Json::Number(string_of(chars.as_slice()))
}

/// An array of the given elements.
pub fn array(items: Vec<Json>) -> (r: Json)
    ensures
        r@ == Doc::Array(docs(items@)),
{
    proof {
        lemma_array_view(items);
    }
    Json::Array(items)
}

/// An object of the given entries.
pub fn object(entries: Vec<(String, Json)>) -> (r: Json)
    ensures
        r@ == Doc::Object(entries_of(entries@)),
{
    proof {
        lemma_object_view(entries);
    }
    Json::Object(entries)
}

/// An entry of an object.
pub open spec fn entry(key: Seq<char>, value: Doc) -> Entry {
    Entry { key, value }
}

/// An object with one entry.
pub open spec fn one(key: Seq<char>, value: Doc) -> Doc {
    Doc::Object(Seq::<Entry>::empty().push(entry(key, value)))
}

/// A list of entries with nothing in it.
pub fn no_entries() -> (r: Vec<(String, Json)>)
    ensures
        entries_of(r@) == Seq::<Entry>::empty(),
{
    let r: Vec<(String, Json)> = Vec::new();
    proof {
        assert(entries_of(r@) =~= Seq::<Entry>::empty());
    }
    r
}

/// A list of documents with nothing in it.
pub fn no_items() -> (r: Vec<Json>)
    ensures
        docs(r@) == Seq::<Doc>::empty(),
{
    let r: Vec<Json> = Vec::new();
    proof {
        assert(docs(r@) =~= Seq::<Doc>::empty());
    }
    r
}

/// Appends the entry `key: value` to a list of entries.
pub fn put(entries: &mut Vec<(String, Json)>, key: &str, value: Json)
    ensures
        entries_of(final(entries)@) == entries_of(old(entries)@).push(entry(key@, value@)),
{
    let chars = chars_of(key);
    entries.push((string_of(chars.as_slice()), value));
    proof {
        assert(entries_of(entries@) =~= entries_of(old(entries)@).push(Entry { key: key@, value: value@ }));
    }
}

/// Appends a document to a list of documents.
pub fn push_item(items: &mut Vec<Json>, value: Json)
    ensures
        docs(final(items)@) == docs(old(items)@).push(value@),
{
    items.push(value);
    proof {
        assert(docs(items@) =~= docs(old(items)@).push(value@));
    }
}

/// An object with the single entry `key: value`.
pub fn single(key: &str, value: Json) -> (r: Json)
    ensures
        r@ == one(key@, value@),
{
    let mut entries = no_entries();
    put(&mut entries, key, value);
    object(entries)
}

// ---------------------------------------------------------------------------
// Text form
// ---------------------------------------------------------------------------

/// The JSON text that `serde_json` writes for a string: the string between
/// double quotes, with escapes where JSON asks for them.
pub uninterp spec fn serde_json_string(s: Seq<char>) -> Seq<char>;

/// `serde_json::to_string` on a string: its JSON text. The call reports an
/// error for no string; were it to report one, the text would be empty.
#[verifier::external_body]
pub(crate) fn quote(s: &str) -> (r: String)
    ensures
        r@ == serde_json_string(s@),
{
    serde_json::to_string(s).unwrap_or_default()
}

/// The compact JSON text of a document: a number by its lexeme, a string as
/// `serde_json` writes it, the elements of an array and the entries of an
/// object in their order, with commas between them and nothing else.
pub open spec fn json_text(d: Doc) -> Seq<char>
    decreases d, 0nat,
{
    match d {
        Doc::Null => "null"@,
        Doc::Bool(b) => if b {
            "true"@
        } else {
            "false"@
        },
        Doc::Number(lexeme) => lexeme,
        Doc::Str(s) => serde_json_string(s),
        Doc::Array(items) => seq!['['] + items_text(items, items.len()) + seq![']'],
        Doc::Object(entries) => seq!['{'] + entries_text(entries, entries.len()) + seq!['}'],
    }
}

/// The texts of the first `n` elements of an array, with commas between
/// them.
pub open spec fn items_text(items: Seq<Doc>, n: nat) -> Seq<char>
    decreases items, n,
{
    if n == 0 || n > items.len() {
        Seq::empty()
    } else if n == 1 {
        json_text(items[0])
    } else {
        items_text(items, (n - 1) as nat) + seq![','] + json_text(items[n - 1])
    }
}

/// The text of an entry: its key as a string, a colon, and its value.
pub open spec fn entry_text(e: Entry) -> Seq<char>
    decreases e, 1nat,
{
    serde_json_string(e.key) + seq![':'] + json_text(e.value)
}

/// The texts of the first `n` entries of an object, with commas between
/// them.
pub open spec fn entries_text(entries: Seq<Entry>, n: nat) -> Seq<char>
    decreases entries, n,
{
    if n == 0 || n > entries.len() {
        Seq::empty()
    } else if n == 1 {
        entry_text(entries[0])
    } else {
        entries_text(entries, (n - 1) as nat) + seq![','] + entry_text(entries[n - 1])
    }
}

/// The compact JSON text that `serde_json` writes for the value that it
/// reads from a JSON text; none for a text that it does not read.
pub uninterp spec fn serde_json_rewritten(text: Seq<char>) -> Option<Seq<char>>;

/// `serde_json::from_str` to a `serde_json::Value`, then that value's
/// `Display`: the text as `serde_json` writes it again, or nothing where
/// `from_str` reports an error or the writing does.
#[verifier::external_body]
pub(crate) fn rewrite(text: &str) -> (r: Option<String>)
    ensures
        crate::types::opt_text(r) == serde_json_rewritten(text@),
{
    let value = serde_json::from_str::<serde_json::Value>(text).ok()?;
    let mut out = String::new();
    write!(out, "{}", value).ok()?;
    Some(out)
}

/// The text of a document as `serde_json` writes it, which puts the entries
/// of an object in the order of their keys. A document that `serde_json`
/// does not read, such as one with a number that JSON does not know, has
/// its own text.
pub open spec fn written_text(d: Doc) -> Seq<char> {
    match serde_json_rewritten(json_text(d)) {
        Some(t) => t,
        None => json_text(d),
    }
}

/// Decides the text of a document from what `serde_json` made of it.
pub fn decide_text(own: String, rewritten: Option<String>) -> (r: String)
    ensures
        r@ == match crate::types::opt_text(rewritten) {
            Some(t) => t,
            None => own@,
        },
{
    match rewritten {
        Some(t) => t,
        None => own,
    }
}

/// Writes a document as `serde_json` does.
pub fn write_document(doc: &Json) -> (r: String)
    ensures
        r@ == written_text(doc@),
{
    let own = render(doc);
    let rewritten = rewrite(own.as_str());
    decide_text(own, rewritten)
}

/// Writes a document as compact JSON text.
pub fn render(doc: &Json) -> (r: String)
    ensures
        r@ == json_text(doc@),
    decreases doc,
{
    match doc {
        Json::Null => crate::text::owned("null"),
        Json::Bool(b) => if *b {
            crate::text::owned("true")
        } else {
            crate::text::owned("false")
        },
        Json::Number(lexeme) => crate::text::owned(lexeme.as_str()),
        Json::Str(s) => quote(s.as_str()),
        Json::Array(items) => {
            proof {
                lemma_array_view(*items);
            }
            let mut out: Vec<char> = Vec::new();
            out.push('[');
            let mut i: usize = 0;
            while i < items.len()
                invariant
                    i <= items@.len(),
                    doc is Array && doc->Array_0 == *items,
                    out@ == seq!['['] + items_text(docs(items@), i as nat),
                decreases items@.len() - i,
            {
                proof {
                    assert(decreases_to!(doc => doc->Array_0));
                    assert(decreases_to!(doc->Array_0 => doc->Array_0@));
                    assert(decreases_to!(doc->Array_0@ => doc->Array_0@[i as int]));
                    assert(docs(items@)[i as int] == items@[i as int]@);
                }
                let ghost before = out@;
                if i > 0 {
                    out.push(',');
                }
                let piece = render(&items[i]);
                crate::text::push_str(&mut out, piece.as_str());
                proof {
                    assert(out@ =~= seq!['['] + items_text(docs(items@), (i + 1) as nat));
                }
                i += 1;
            }
            out.push(']');
            string_of(out.as_slice())
        },
        Json::Object(entries) => {
            proof {
                lemma_object_view(*entries);
            }
            let mut out: Vec<char> = Vec::new();
            out.push('{');
            let mut i: usize = 0;
            while i < entries.len()
                invariant
                    i <= entries@.len(),
                    doc is Object && doc->Object_0 == *entries,
                    out@ == seq!['{'] + entries_text(entries_of(entries@), i as nat),
                decreases entries@.len() - i,
            {
                proof {
                    assert(decreases_to!(doc => doc->Object_0));
                    assert(decreases_to!(doc->Object_0 => doc->Object_0@));
                    assert(decreases_to!(doc->Object_0@ => doc->Object_0@[i as int]));
                    assert(decreases_to!(doc->Object_0@[i as int] => doc->Object_0@[i as int].1));
                    assert(entries_of(entries@)[i as int] == entry(
                        entries@[i as int].0@,
                        entries@[i as int].1@,
                    ));
                }
                let ghost before = out@;
                if i > 0 {
                    out.push(',');
                }
                let key = quote(entries[i].0.as_str());
                crate::text::push_str(&mut out, key.as_str());
                out.push(':');
                let value = render(&entries[i].1);
                crate::text::push_str(&mut out, value.as_str());
                proof {
                    let e = entries_of(entries@)[i as int];
                    assert(entry_text(e) == key@ + seq![':'] + value@);
                    if i > 0 {
                        assert(out@ =~= before + seq![','] + entry_text(e));
                    } else {
                        assert(out@ =~= before + entry_text(e));
                    }
                    assert(out@ =~= seq!['{'] + entries_text(
                        entries_of(entries@),
                        (i + 1) as nat,
                    ));
                }
                i += 1;
            }
            out.push('}');
            string_of(out.as_slice())
        },
    }
}

} // verus!
