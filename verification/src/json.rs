//! JSON documents.
//!
//! A document is modelled by a [`JsonView`], in which an object is a map from its keys.

use vstd::prelude::*;
use crate::text::same_text;

verus! {

/// `serde_json::Number`: a number of a JSON document, whether integer or not.
#[verifier::external_type_specification]
#[verifier::external_body]
pub struct ExNumber(serde_json::Number);

/// The integer that a number holds, if it holds one.
pub uninterp spec fn number_int(n: serde_json::Number) -> Option<int>;

/// `serde_json::Number::clone`: the copy is the number itself.
pub assume_specification[ <serde_json::Number as Clone>::clone ](n: &serde_json::Number) -> (r:
    serde_json::Number)
    ensures
        r == *n,
;

/// `serde_json::Number::as_u64`: the integer, where it is a `u64`.
pub assume_specification[ serde_json::Number::as_u64 ](n: &serde_json::Number) -> (r: Option<u64>)
    ensures
        r matches Some(k) ==> number_int(*n) == Some(k as int),
        r is None ==> (number_int(*n) matches Some(k) ==> k < 0 || k > u64::MAX),
;

/// `serde_json::Number::as_i64`: the integer, where it is an `i64`.
pub assume_specification[ serde_json::Number::as_i64 ](n: &serde_json::Number) -> (r: Option<i64>)
    ensures
        r matches Some(k) ==> number_int(*n) == Some(k as int),
        r is None ==> (number_int(*n) matches Some(k) ==> k < i64::MIN || k > i64::MAX),
;

/// A JSON document.
///
/// Where an object holds a key more than once, the last entry counts.
#[derive(Debug, PartialEq)]
pub enum Json {
    Null,
    Bool(bool),
    Uint(u64),
    Int(i64),
    /// A number that is carried through as it came.
    Number(serde_json::Number),
    Text(String),
    Array(Vec<Json>),
    Object(Vec<(String, Json)>),
}

/// What a JSON document says.
pub enum JsonView {
    Null,
    Bool(bool),
    Int(int),
    Number(serde_json::Number),
    Text(Seq<char>),
    Array(Seq<JsonView>),
    Object(Map<Seq<char>, JsonView>),
}

/// What a number says: its integer, or the number itself.
pub open spec fn number_view(n: serde_json::Number) -> JsonView {
    match number_int(n) {
        Some(k) => JsonView::Int(k),
        None => JsonView::Number(n),
    }
}

pub open spec fn json_view(j: Json) -> JsonView
    decreases j,
{
    match j {
        Json::Null => JsonView::Null,
        Json::Bool(b) => JsonView::Bool(b),
        Json::Uint(n) => JsonView::Int(n as int),
        Json::Int(n) => JsonView::Int(n as int),
        Json::Number(n) => number_view(n),
        Json::Text(s) => JsonView::Text(s@),
        Json::Array(items) => JsonView::Array(items_view(items@)),
        Json::Object(entries) => JsonView::Object(entries_view(entries@)),
    }
}

pub open spec fn items_view(items: Seq<Json>) -> Seq<JsonView>
    decreases items,
{
    if items.len() == 0 {
        Seq::empty()
    } else {
        items_view(items.drop_last()).push(json_view(items.last()))
    }
}

pub open spec fn entries_view(entries: Seq<(String, Json)>) -> Map<Seq<char>, JsonView>
    decreases entries,
{
    if entries.len() == 0 {
        Map::empty()
    } else {
        entries_view(entries.drop_last()).insert(entries.last().0@, json_view(entries.last().1))
    }
}

impl View for Json {
    type V = JsonView;

    open spec fn view(&self) -> JsonView {
        json_view(*self)
    }
}

pub proof fn lemma_items_view(items: Seq<Json>)
    ensures
        items_view(items).len() == items.len(),
        forall|i: int|
            0 <= i < items.len() ==> #[trigger] items_view(items)[i] == json_view(items[i]),
    decreases items.len(),
{
    if items.len() > 0 {
        lemma_items_view(items.drop_last());
    }
}

pub proof fn lemma_items_view_push(items: Seq<Json>, item: Json)
    ensures
        items_view(items.push(item)) == items_view(items).push(json_view(item)),
{
    assert(items.push(item).drop_last() =~= items);
}

pub proof fn lemma_entries_view_push(entries: Seq<(String, Json)>, entry: (String, Json))
    ensures
        entries_view(entries.push(entry)) == entries_view(entries).insert(
            entry.0@,
            json_view(entry.1),
        ),
{
    assert(entries.push(entry).drop_last() =~= entries);
}

/// A copy of a document.
fn copy_json(j: &Json) -> (r: Json)
    ensures
        r@ == j@,
    decreases *j,
{
    match j {
        Json::Null => Json::Null,
        Json::Bool(b) => Json::Bool(*b),
        Json::Uint(n) => Json::Uint(*n),
        Json::Int(n) => Json::Int(*n),
        Json::Number(n) => Json::Number(n.clone()),
        Json::Text(s) => Json::Text(s.clone()),
        Json::Array(items) => {
            let mut copies: Vec<Json> = Vec::new();
            let mut i: usize = 0;
            while i < items.len()
                invariant
                    *j == Json::Array(*items),
                    i <= items@.len(),
                    items_view(copies@) == items_view(items@.take(i as int)),
                decreases items@.len() - i,
            {
                assert(decreases_to!(*j => (*j)->Array_0));
                assert(decreases_to!(items => items@));
                assert(decreases_to!(items@ => items@[i as int]));
                let copy = copy_json(&items[i]);
                proof {
                    lemma_items_view_push(copies@, copy);
                    assert(items@.take(i + 1) =~= items@.take(i as int).push(items@[i as int]));
                    lemma_items_view_push(items@.take(i as int), items@[i as int]);
                }
                copies.push(copy);
                i += 1;
            }
            assert(items@.take(i as int) =~= items@);
            Json::Array(copies)
        },
        Json::Object(entries) => {
            let mut copies: Vec<(String, Json)> = Vec::new();
            let mut i: usize = 0;
            while i < entries.len()
                invariant
                    *j == Json::Object(*entries),
                    i <= entries@.len(),
                    entries_view(copies@) == entries_view(entries@.take(i as int)),
                decreases entries@.len() - i,
            {
                assert(decreases_to!(*j => (*j)->Object_0));
                assert(decreases_to!(entries => entries@));
                assert(decreases_to!(entries@ => entries@[i as int]));
                assert(decreases_to!(entries@[i as int] => entries@[i as int].1));
                let copy = (entries[i].0.clone(), copy_json(&entries[i].1));
                proof {
                    lemma_entries_view_push(copies@, copy);
                    assert(entries@.take(i + 1) =~= entries@.take(i as int).push(
                        entries@[i as int],
                    ));
                    lemma_entries_view_push(entries@.take(i as int), entries@[i as int]);
                }
                copies.push(copy);
                i += 1;
            }
            assert(entries@.take(i as int) =~= entries@);
            Json::Object(copies)
        },
    }
}

impl Clone for Json {
    fn clone(&self) -> (r: Self)
        ensures
            r@ == self@,
    {
        copy_json(self)
    }
}

/// The member of a document under `key`.
pub open spec fn member(v: JsonView, key: Seq<char>) -> Option<JsonView> {
    match v {
        JsonView::Object(m) => if m.contains_key(key) {
            Some(m[key])
        } else {
            None
        },
        _ => None,
    }
}

/// The text that a document is, if it is one.
pub open spec fn text_of(v: JsonView) -> Option<Seq<char>> {
    match v {
        JsonView::Text(s) => Some(s),
        _ => None,
    }
}

/// The text under `key`, if a text stands there.
pub open spec fn member_text(v: JsonView, key: Seq<char>) -> Option<Seq<char>> {
    match member(v, key) {
        Some(x) => text_of(x),
        None => None,
    }
}

/// Whether a member can be set in a document: in an object, or in `null`, which becomes one.
pub open spec fn takes_members(v: JsonView) -> bool {
    v is Object || v is Null
}

/// The document with `x` as its member under `key`.
pub open spec fn with_member(v: JsonView, key: Seq<char>, x: JsonView) -> JsonView {
    match v {
        JsonView::Object(m) => JsonView::Object(m.insert(key, x)),
        _ => JsonView::Object(Map::empty().insert(key, x)),
    }
}

pub open spec fn empty_object() -> JsonView {
    JsonView::Object(Map::empty())
}

/// The texts `s` as documents.
pub open spec fn text_items(s: Seq<Seq<char>>) -> Seq<JsonView> {
    Seq::new(s.len(), |i: int| JsonView::Text(s[i]))
}

/// An optional text as a document: `null` where there is none.
pub open spec fn optional_text(s: Option<Seq<char>>) -> JsonView {
    match s {
        Some(s) => JsonView::Text(s),
        None => JsonView::Null,
    }
}

/// An optional number as a document: `null` where there is none.
pub open spec fn optional_int(n: Option<int>) -> JsonView {
    match n {
        Some(n) => JsonView::Int(n),
        None => JsonView::Null,
    }
}

/// What an optional string holds.
pub open spec fn opt_view(s: Option<String>) -> Option<Seq<char>> {
    match s {
        Some(s) => Some(s@),
        None => None,
    }
}

/// What an optional document says.
pub open spec fn opt_json(j: Option<Json>) -> Option<JsonView> {
    match j {
        Some(j) => Some(j@),
        None => None,
    }
}

spec fn is_last_entry(entries: Seq<(String, Json)>, i: int) -> bool {
    &&& 0 <= i < entries.len()
    &&& forall|j: int| i < j < entries.len() ==> (#[trigger] entries[j]).0@ != entries[i].0@
}

proof fn lemma_last_entry(entries: Seq<(String, Json)>, i: int)
    requires
        is_last_entry(entries, i),
    ensures
        entries_view(entries).contains_key(entries[i].0@),
        entries_view(entries)[entries[i].0@] == json_view(entries[i].1),
    decreases entries.len(),
{
    if i < entries.len() - 1 {
        let rest = entries.drop_last();
        assert(rest[i] == entries[i]);
        assert forall|j: int| i < j < rest.len() implies (#[trigger] rest[j]).0@
            != rest[i].0@ by {
            assert(rest[j] == entries[j]);
        }
        lemma_last_entry(rest, i);
        assert(entries[entries.len() - 1].0@ != entries[i].0@);
    }
}

proof fn lemma_no_entry(entries: Seq<(String, Json)>, key: Seq<char>)
    requires
        forall|j: int| 0 <= j < entries.len() ==> (#[trigger] entries[j]).0@ != key,
    ensures
        !entries_view(entries).contains_key(key),
    decreases entries.len(),
{
    if entries.len() > 0 {
        let rest = entries.drop_last();
        assert forall|j: int| 0 <= j < rest.len() implies (#[trigger] rest[j]).0@ != key by {
            assert(rest[j] == entries[j]);
        }
        lemma_no_entry(rest, key);
        assert(entries[entries.len() - 1].0@ != key);
    }
}

proof fn lemma_update_entry(entries: Seq<(String, Json)>, i: int, entry: (String, Json))
    requires
        is_last_entry(entries, i),
        entry.0@ == entries[i].0@,
    ensures
        entries_view(entries.update(i, entry)) == entries_view(entries).insert(
            entry.0@,
            json_view(entry.1),
        ),
    decreases entries.len(),
{
    let updated = entries.update(i, entry);
    let rest = entries.drop_last();
    if i < entries.len() - 1 {
        assert(rest[i] == entries[i]);
        assert forall|j: int| i < j < rest.len() implies (#[trigger] rest[j]).0@
            != rest[i].0@ by {
            assert(rest[j] == entries[j]);
        }
        lemma_update_entry(rest, i, entry);
        assert(updated.drop_last() =~= rest.update(i, entry));
        let last = entries.last();
        assert(entries[entries.len() - 1].0@ != entries[i].0@);
        assert(updated.last() == last);
        assert(entries_view(updated) =~= entries_view(entries).insert(
            entry.0@,
            json_view(entry.1),
        ));
    } else {
        assert(updated.drop_last() =~= rest);
        assert(entries_view(updated) =~= entries_view(entries).insert(
            entry.0@,
            json_view(entry.1),
        ));
    }
}

/// The last entry under `key`.
fn find_entry(entries: &Vec<(String, Json)>, key: &str) -> (r: Option<usize>)
    ensures
        match r {
            Some(i) => is_last_entry(entries@, i as int) && entries@[i as int].0@ == key@,
            None => !entries_view(entries@).contains_key(key@),
        },
{
    let mut i = entries.len();
    while i > 0
        invariant
            i <= entries@.len(),
            forall|j: int| i <= j < entries@.len() ==> (#[trigger] entries@[j]).0@ != key@,
        decreases i,
    {
        i -= 1;
        if same_text(entries[i].0.as_str(), key) {
            return Some(i);
        }
    }
    proof {
        lemma_no_entry(entries@, key@);
    }
    None
}

impl Json {
    /// The object without members.
    pub fn object() -> (r: Json)
        ensures
            r@ == empty_object(),
    {
        Json::Object(Vec::new())
    }

    /// The text `s` as a document.
    pub fn text(s: &str) -> (r: Json)
        ensures
            r@ == JsonView::Text(s@),
    {
        Json::Text(s.to_owned())
    }

    /// The number `n` as a document.
    pub fn uint(n: usize) -> (r: Json)
        ensures
            r@ == JsonView::Int(n as int),
    {
        Json::Uint(n as u64)
    }

    /// An optional text as a document.
    pub fn opt_text(s: &Option<String>) -> (r: Json)
        ensures
            r@ == optional_text(opt_view(*s)),
    {
        match s {
            Some(s) => Json::Text(s.clone()),
            None => Json::Null,
        }
    }

    /// The member under `key`, if this is an object that has one.
    pub fn get(&self, key: &str) -> (r: Option<&Json>)
        ensures
            match r {
                Some(x) => member(self@, key@) == Some(x@),
                None => member(self@, key@) is None,
            },
    {
        match self {
            Json::Object(entries) => match find_entry(entries, key) {
                Some(i) => {
                    proof {
                        lemma_last_entry(entries@, i as int);
                    }
                    Some(&entries[i].1)
                },
                None => None,
            },
            _ => None,
        }
    }

    /// Sets the member under `key`.
    pub fn set(&mut self, key: &str, value: Json)
        requires
            takes_members(old(self)@),
        ensures
            final(self)@ == with_member(old(self)@, key@, value@),
    {
        match self {
            Json::Object(entries) => {
                let found = find_entry(entries, key);
                let entry = (key.to_owned(), value);
                match found {
                    Some(i) => {
                        proof {
                            lemma_update_entry(entries@, i as int, entry);
                        }
                        entries.set(i, entry);
                    },
                    None => {
                        proof {
                            lemma_entries_view_push(entries@, entry);
                        }
                        entries.push(entry);
                    },
                }
            },
            _ => {
                let mut entries: Vec<(String, Json)> = Vec::new();
                let entry = (key.to_owned(), value);
                proof {
                    lemma_entries_view_push(entries@, entry);
                }
                entries.push(entry);
                *self = Json::Object(entries);
            },
        }
    }

    /// The text that this is.
    pub fn as_str(&self) -> (r: Option<&str>)
        ensures
            match r {
                Some(s) => text_of(self@) == Some(s@),
                None => text_of(self@) is None,
            },
    {
        match self {
            Json::Text(s) => Some(s.as_str()),
            _ => None,
        }
    }

    /// The truth value that this is.
    pub fn as_bool(&self) -> (r: Option<bool>)
        ensures
            r == (match self@ {
                JsonView::Bool(b) => Some(b),
                _ => None,
            }),
    {
        match self {
            Json::Bool(b) => Some(*b),
            _ => None,
        }
    }

    pub fn is_array(&self) -> (r: bool)
        ensures
            r == (self@ is Array),
    {
        match self {
            Json::Array(_) => true,
            _ => false,
        }
    }

    /// Whether members can be set.
    pub fn is_settable(&self) -> (r: bool)
        ensures
            r == takes_members(self@),
    {
        match self {
            Json::Object(_) => true,
            Json::Null => true,
            _ => false,
        }
    }

    /// The text under `key`, if a text stands there.
    pub fn get_str(&self, key: &str) -> (r: Option<&str>)
        ensures
            match r {
                Some(s) => member_text(self@, key@) == Some(s@),
                None => member_text(self@, key@) is None,
            },
    {
        match self.get(key) {
            Some(x) => x.as_str(),
            None => None,
        }
    }
}

/// A member that was set is found, and the other members stay as they were. What was no object
/// becomes one that has no other member.
pub proof fn set_member_is_found(v: JsonView, key: Seq<char>, x: JsonView, other: Seq<char>)
    ensures
        with_member(v, key, x) is Object,
        member(with_member(v, key, x), key) == Some(x),
        other != key ==> member(with_member(v, key, x), other) == member(v, other),
{
}

/// The members of a document are those of the object that it is.
pub proof fn members_are_those_of_the_object(v: JsonView, key: Seq<char>)
    ensures
        match v {
            JsonView::Object(m) => {
                &&& m.contains_key(key) ==> member(v, key) == Some(m[key])
                &&& !m.contains_key(key) ==> member(v, key) is None
            },
            _ => member(v, key) is None,
        },
        member_text(v, key) matches Some(s) ==> member(v, key) == Some(JsonView::Text(s)),
        member(v, key) matches Some(JsonView::Text(s)) ==> member_text(v, key) == Some(s),
        takes_members(v) <==> v == JsonView::Null || v is Object,
        member(empty_object(), key) is None,
{
}

/// Of the entries under a key the last one is the member of the object.
pub proof fn last_entry_is_the_member(
    entries: Seq<(String, Json)>,
    rest: Seq<(String, Json)>,
    entry: (String, Json),
    key: Seq<char>,
)
    requires
        forall|i: int| 0 <= i < rest.len() ==> (#[trigger] rest[i]).0@ != entry.0@,
    ensures
        ({
            let all = entries.push(entry) + rest;
            &&& entries_view(all).contains_key(entry.0@)
            &&& entries_view(all)[entry.0@] == json_view(entry.1)
            &&& entries_view(all).contains_key(key) ==> exists|i: int|
                0 <= i < all.len() && (#[trigger] all[i]).0@ == key
        }),
{
    let all = entries.push(entry) + rest;
    let at = entries.len() as int;
    assert(all[at] == entry);
    assert forall|j: int| at < j < all.len() implies (#[trigger] all[j]).0@ != all[at].0@ by {
        assert(all[j] == rest[j - at - 1]);
    }
    lemma_last_entry(all, at);
    if forall|i: int| 0 <= i < all.len() ==> (#[trigger] all[i]).0@ != key {
        lemma_no_entry(all, key);
    }
}

/// Texts as documents are as many as the texts, in their order.
pub proof fn each_text_is_an_item(s: Seq<Seq<char>>, i: int)
    requires
        0 <= i < s.len(),
    ensures
        text_items(s).len() == s.len(),
        text_items(s)[i] == JsonView::Text(s[i]),
{
}

} // verus!
