//! JSON documents as text, which `serde_json` reads and writes.

use vstd::prelude::*;
use crate::json::{
    entries_view, items_view, lemma_entries_view_push, lemma_items_view_push, number_int,
    number_view, Json, JsonView,
};
use crate::text::same_text;

verus! {

/// `serde_json::Value`: a document in the form in which `serde_json` reads and writes it.
#[verifier::external_type_specification]
#[verifier::external_body]
pub struct ExValue(serde_json::Value);

/// What a document of `serde_json` holds.
pub uninterp spec fn value_view(v: serde_json::Value) -> JsonView;

/// What `serde_json::from_str` reads from a text, if the text is a document.
pub uninterp spec fn parsed_json(text: Seq<char>) -> Option<JsonView>;

/// What `serde_json::Value::to_string` writes: the document on one line.
pub uninterp spec fn compact_text(v: JsonView) -> Seq<char>;

/// What `serde_json::to_string_pretty` writes: the document on indented lines.
pub uninterp spec fn pretty_text(v: JsonView) -> Seq<char>;

/// One level of a document of `serde_json`.
enum Level {
    Null,
    Bool(bool),
    Number(serde_json::Number),
    Text(String),
    Array(Vec<serde_json::Value>),
    Object(Vec<(String, serde_json::Value)>),
}

spec fn values_view(s: Seq<serde_json::Value>) -> Seq<JsonView> {
    Seq::new(s.len(), |i: int| value_view(s[i]))
}

/// Where a key occurs more than once, the last entry counts.
spec fn value_entries(s: Seq<(String, serde_json::Value)>) -> Map<Seq<char>, JsonView>
    decreases s.len(),
{
    if s.len() == 0 {
        Map::empty()
    } else {
        value_entries(s.drop_last()).insert(s.last().0@, value_view(s.last().1))
    }
}

spec fn level_view(l: Level) -> JsonView {
    match l {
        Level::Null => JsonView::Null,
        Level::Bool(b) => JsonView::Bool(b),
        Level::Number(n) => number_view(n),
        Level::Text(s) => JsonView::Text(s@),
        Level::Array(items) => JsonView::Array(values_view(items@)),
        Level::Object(entries) => JsonView::Object(value_entries(entries@)),
    }
}

spec fn distinct_keys(s: Seq<(String, serde_json::Value)>) -> bool {
    forall|i: int, j: int| 0 <= i < j < s.len() ==> (#[trigger] s[i]).0@ != (#[trigger] s[j]).0@
}

/// The variants of `serde_json::Value`: a value is what its variant and the fields of that
/// variant say, and no key of an object occurs twice.
#[verifier::external_body]
fn open_value(v: serde_json::Value) -> (r: Level)
    ensures
        level_view(r) == value_view(v),
        r matches Level::Object(entries) ==> distinct_keys(entries@),
{
    match v {
        serde_json::Value::Null => Level::Null,
        serde_json::Value::Bool(b) => Level::Bool(b),
        serde_json::Value::Number(n) => Level::Number(n),
        serde_json::Value::String(s) => Level::Text(s),
        serde_json::Value::Array(items) => Level::Array(items),
        serde_json::Value::Object(map) => Level::Object(map.into_iter().collect()),
    }
}

/// The variants of `serde_json::Value`, as constructors. An object is made by
/// `serde_json::Map::from_iter` of entries with different keys, and holds each of them.
#[verifier::external_body]
fn close_value(l: Level) -> (r: serde_json::Value)
    requires
        l matches Level::Object(entries) ==> distinct_keys(entries@),
    ensures
        value_view(r) == level_view(l),
{
    match l {
        Level::Null => serde_json::Value::Null,
        Level::Bool(b) => serde_json::Value::Bool(b),
        Level::Number(n) => serde_json::Value::Number(n),
        Level::Text(s) => serde_json::Value::String(s),
        Level::Array(items) => serde_json::Value::Array(items),
        Level::Object(entries) => serde_json::Value::Object(entries.into_iter().collect()),
    }
}

/// `serde_json::Number::from` on a `u64`: the number holds that integer.
#[verifier::external_body]
fn unsigned_number(n: u64) -> (r: serde_json::Number)
    ensures
        number_int(r) == Some(n as int),
{
    serde_json::Number::from(n)
}

/// `serde_json::Number::from` on an `i64`: the number holds that integer.
#[verifier::external_body]
fn signed_number(n: i64) -> (r: serde_json::Number)
    ensures
        number_int(r) == Some(n as int),
{
    serde_json::Number::from(n)
}

/// Whether a document can be read back from its text as it was: its numbers are integers of 64
/// bits, and arrays and objects are nested at most `depth` deep.
pub open spec fn storable(v: JsonView, depth: nat) -> bool
    decreases depth,
{
    match v {
        JsonView::Int(k) => i64::MIN <= k <= u64::MAX,
        JsonView::Number(_) => false,
        JsonView::Array(items) => depth > 0 && forall|i: int|
            0 <= i < items.len() ==> storable(#[trigger] items[i], (depth - 1) as nat),
        JsonView::Object(m) => depth > 0 && forall|k: Seq<char>| #[trigger]
            m.contains_key(k) ==> storable(m[k], (depth - 1) as nat),
        _ => true,
    }
}

/// Whether arrays and objects are nested at most `depth` deep in a document.
pub open spec fn fits(v: JsonView, depth: nat) -> bool
    decreases depth,
{
    match v {
        JsonView::Array(items) => depth > 0 && forall|i: int|
            0 <= i < items.len() ==> fits(#[trigger] items[i], (depth - 1) as nat),
        JsonView::Object(m) => depth > 0 && forall|k: Seq<char>| #[trigger]
            m.contains_key(k) ==> fits(m[k], (depth - 1) as nat),
        _ => true,
    }
}

/// How deep `serde_json` reads nested arrays and objects.
pub open spec fn read_depth() -> nat {
    127
}

/// How deep arrays and objects can be nested in a member of an object that is to be read.
pub open spec fn member_depth() -> nat {
    126
}

/// Whether an object is read back from its text: it has the keys that it had, and under each of
/// them the member that it had, as far as that can be read back as it was.
pub open spec fn keeps_members(before: JsonView, after: Option<JsonView>) -> bool {
    before matches JsonView::Object(m) ==> {
        &&& after matches Some(JsonView::Object(read))
        &&& read.dom() == m.dom()
        &&& forall|k: Seq<char>| #[trigger]
            m.contains_key(k) && storable(m[k], member_depth()) ==> read[k] == m[k]
    }
}

/// A document that can be read back as it was is nested no deeper than it may be.
pub proof fn lemma_storable_fits(v: JsonView, depth: nat)
    requires
        storable(v, depth),
    ensures
        fits(v, depth),
    decreases depth,
{
    match v {
        JsonView::Array(items) => {
            assert forall|i: int| 0 <= i < items.len() implies fits(
                #[trigger] items[i],
                (depth - 1) as nat,
            ) by {
                lemma_storable_fits(items[i], (depth - 1) as nat);
            }
        },
        JsonView::Object(m) => {
            assert forall|k: Seq<char>| #[trigger] m.contains_key(k) implies fits(
                m[k],
                (depth - 1) as nat,
            ) by {
                lemma_storable_fits(m[k], (depth - 1) as nat);
            }
        },
        _ => {},
    }
}

/// `serde_json::from_str` for a `serde_json::Value`: the document that the text is, or an error.
/// A text in which arrays and objects are nested too deep is an error.
#[verifier::external_body]
fn read_value(text: &str) -> (r: Option<serde_json::Value>)
    ensures
        match r {
            Some(v) => parsed_json(text@) == Some(value_view(v)) && fits(
                value_view(v),
                read_depth(),
            ),
            None => parsed_json(text@) is None,
        },
{
    serde_json::from_str(text).ok()
}

/// `serde_json::Value::to_string`: the text holds no line break, and a document that can be
/// stored is read back from it.
#[verifier::external_body]
fn write_compact(v: &serde_json::Value) -> (s: String)
    ensures
        s@ == compact_text(value_view(*v)),
        !s@.contains('\n'),
        storable(value_view(*v), read_depth()) ==> parsed_json(s@) == Some(value_view(*v)),
{
    v.to_string()
}

/// `serde_json::to_string_pretty`, which does not fail on a `serde_json::Value`: a document that
/// can be stored is read back from the text. Of an object with other members the keys are read
/// back, and the members that can be stored. A member with a number that is no integer of 64
/// bits is read as well, but the number that is read may differ from the one that was written.
#[verifier::external_body]
fn write_pretty(v: &serde_json::Value) -> (s: String)
    ensures
        s@ == pretty_text(value_view(*v)),
        storable(value_view(*v), read_depth()) ==> parsed_json(s@) == Some(value_view(*v)),
        fits(value_view(*v), read_depth()) ==> keeps_members(value_view(*v), parsed_json(s@)),
{
    serde_json::to_string_pretty(v).unwrap()
}

proof fn lemma_value_entries_push(
    s: Seq<(String, serde_json::Value)>,
    entry: (String, serde_json::Value),
)
    ensures
        value_entries(s.push(entry)) == value_entries(s).insert(entry.0@, value_view(entry.1)),
{
    assert(s.push(entry).drop_last() =~= s);
}

proof fn lemma_value_entry(s: Seq<(String, serde_json::Value)>, i: int)
    requires
        distinct_keys(s),
        0 <= i < s.len(),
    ensures
        value_entries(s).dom().finite(),
        value_entries(s).contains_key(s[i].0@),
        value_entries(s)[s[i].0@] == value_view(s[i].1),
    decreases s.len(),
{
    let rest = s.drop_last();
    assert(distinct_keys(rest)) by {
        assert forall|a: int, b: int| 0 <= a < b < rest.len() implies (#[trigger] rest[a]).0@ != (
        #[trigger] rest[b]).0@ by {
            assert(rest[a] == s[a] && rest[b] == s[b]);
        }
    }
    if i < s.len() - 1 {
        lemma_value_entry(rest, i);
        assert(rest[i] == s[i]);
        assert(s[i].0@ != s[s.len() - 1].0@);
    } else if rest.len() > 0 {
        lemma_value_entry(rest, 0);
    } else {
        assert(value_entries(rest) == Map::<Seq<char>, JsonView>::empty());
    }
}

proof fn lemma_value_entries_update(
    s: Seq<(String, serde_json::Value)>,
    i: int,
    entry: (String, serde_json::Value),
)
    requires
        distinct_keys(s),
        0 <= i < s.len(),
        entry.0@ == s[i].0@,
    ensures
        distinct_keys(s.update(i, entry)),
        value_entries(s.update(i, entry)) == value_entries(s).insert(
            entry.0@,
            value_view(entry.1),
        ),
    decreases s.len(),
{
    let updated = s.update(i, entry);
    let rest = s.drop_last();
    assert forall|a: int, b: int| 0 <= a < b < updated.len() implies (#[trigger] updated[a]).0@
        != (#[trigger] updated[b]).0@ by {
        assert(s[a].0@ != s[b].0@);
    }
    if i < s.len() - 1 {
        assert(distinct_keys(rest)) by {
            assert forall|a: int, b: int| 0 <= a < b < rest.len() implies (#[trigger] rest[a]).0@
                != (#[trigger] rest[b]).0@ by {
                assert(rest[a] == s[a] && rest[b] == s[b]);
            }
        }
        assert(rest[i] == s[i]);
        lemma_value_entries_update(rest, i, entry);
        assert(updated.drop_last() =~= rest.update(i, entry));
        assert(updated.last() == s.last());
        assert(s[i].0@ != s[s.len() - 1].0@);
    } else {
        assert(updated.drop_last() =~= rest);
    }
    assert(value_entries(updated) =~= value_entries(s).insert(entry.0@, value_view(entry.1)));
}

/// Finds the entry under a key.
fn find_value(entries: &Vec<(String, serde_json::Value)>, key: &str) -> (r: Option<usize>)
    ensures
        match r {
            Some(i) => i < entries@.len() && entries@[i as int].0@ == key@,
            None => forall|j: int|
                0 <= j < entries@.len() ==> (#[trigger] entries@[j]).0@ != key@,
        },
{
    let mut i: usize = 0;
    while i < entries.len()
        invariant
            i <= entries@.len(),
            forall|j: int| 0 <= j < i ==> (#[trigger] entries@[j]).0@ != key@,
        decreases entries@.len() - i,
    {
        if same_text(entries[i].0.as_str(), key) {
            return Some(i);
        }
        i += 1;
    }
    None
}

/// Puts an entry in the place of the one under its key, or behind the others.
fn put_value(entries: &mut Vec<(String, serde_json::Value)>, entry: (String, serde_json::Value))
    requires
        distinct_keys(old(entries)@),
    ensures
        distinct_keys(final(entries)@),
        value_entries(final(entries)@) == value_entries(old(entries)@).insert(
            entry.0@,
            value_view(entry.1),
        ),
{
    let ghost before = entries@;
    match find_value(entries, entry.0.as_str()) {
        Some(i) => {
            proof {
                lemma_value_entries_update(before, i as int, entry);
            }
            entries.set(i, entry);
        },
        None => {
            proof {
                lemma_value_entries_push(before, entry);
                let pushed = before.push(entry);
                assert forall|a: int, b: int| 0 <= a < b < pushed.len() implies (
                #[trigger] pushed[a]).0@ != (#[trigger] pushed[b]).0@ by {
                    assert(before[a].0@ != entry.0@);
                    if b < before.len() {
                        assert(before[a].0@ != before[b].0@);
                    }
                }
            }
            entries.push(entry);
        },
    }
}

/// The document that a value of `serde_json` holds.
pub fn from_value(value: serde_json::Value) -> (r: Json)
    ensures
        r@ == value_view(value),
    decreases value_view(value),
{
    match open_value(value) {
        Level::Null => Json::Null,
        Level::Bool(b) => Json::Bool(b),
        Level::Number(n) => match n.as_u64() {
            Some(k) => Json::Uint(k),
            None => match n.as_i64() {
                Some(k) => Json::Int(k),
                None => Json::Number(n),
            },
        },
        Level::Text(s) => Json::Text(s),
        Level::Array(values) => {
            let mut items: Vec<Json> = Vec::new();
            let ghost all = values@;
            for v in it: values.into_iter()
                invariant
                    it.seq() == all,
                    value_view(value) == JsonView::Array(values_view(all)),
                    items_view(items@) == values_view(all.take(it.index() as int)),
            {
                let ghost i = it.index() as int;
                proof {
                    assert(values_view(all)[i] == value_view(v));
                    assert(decreases_to!(value_view(value) => value_view(value)->Array_0));
                    assert(decreases_to!(values_view(all) => values_view(all)[i]));
                }
                let item = from_value(v);
                proof {
                    lemma_items_view_push(items@, item);
                    assert(values_view(all.take(i + 1)) =~= values_view(all.take(i)).push(
                        value_view(v),
                    ));
                }
                items.push(item);
            }
            assert(all.take(all.len() as int) =~= all);
            Json::Array(items)
        },
        Level::Object(values) => {
            let mut entries: Vec<(String, Json)> = Vec::new();
            let ghost all = values@;
            for kv in it: values.into_iter()
                invariant
                    it.seq() == all,
                    distinct_keys(all),
                    value_view(value) == JsonView::Object(value_entries(all)),
                    entries_view(entries@) == value_entries(all.take(it.index() as int)),
            {
                let ghost i = it.index() as int;
                proof {
                    lemma_value_entry(all, i);
                    assert(decreases_to!(value_view(value) => value_view(value)->Object_0));
                    assert(decreases_to!(value_entries(all) => value_entries(all)[all[i].0@]));
                }
                let ghost taken = kv;
                let entry = (kv.0, from_value(kv.1));
                proof {
                    lemma_entries_view_push(entries@, entry);
                    assert(all.take(i + 1) =~= all.take(i).push(taken));
                    lemma_value_entries_push(all.take(i), taken);
                }
                entries.push(entry);
            }
            assert(all.take(all.len() as int) =~= all);
            Json::Object(entries)
        },
    }
}

/// The value of `serde_json` that holds a document. Of an object that holds a key more than once
/// it holds the last entry under that key.
pub fn to_value(j: &Json) -> (r: serde_json::Value)
    ensures
        value_view(r) == j@,
    decreases *j,
{
    match j {
        Json::Null => close_value(Level::Null),
        Json::Bool(b) => close_value(Level::Bool(*b)),
        Json::Uint(n) => close_value(Level::Number(unsigned_number(*n))),
        Json::Int(n) => close_value(Level::Number(signed_number(*n))),
        Json::Number(n) => close_value(Level::Number(n.clone())),
        Json::Text(s) => close_value(Level::Text(s.clone())),
        Json::Array(items) => {
            let mut values: Vec<serde_json::Value> = Vec::new();
            let mut i: usize = 0;
            while i < items.len()
                invariant
                    *j == Json::Array(*items),
                    i <= items@.len(),
                    values_view(values@) == items_view(items@.take(i as int)),
                decreases items@.len() - i,
            {
                assert(decreases_to!(*j => (*j)->Array_0));
                assert(decreases_to!(items => items@));
                assert(decreases_to!(items@ => items@[i as int]));
                let value = to_value(&items[i]);
                proof {
                    assert(values_view(values@.push(value)) =~= values_view(values@).push(
                        value_view(value),
                    ));
                    assert(items@.take(i + 1) =~= items@.take(i as int).push(items@[i as int]));
                    lemma_items_view_push(items@.take(i as int), items@[i as int]);
                }
                values.push(value);
                i += 1;
            }
            assert(items@.take(i as int) =~= items@);
            close_value(Level::Array(values))
        },
        Json::Object(entries) => {
            let mut values: Vec<(String, serde_json::Value)> = Vec::new();
            let mut i: usize = 0;
            while i < entries.len()
                invariant
                    *j == Json::Object(*entries),
                    i <= entries@.len(),
                    distinct_keys(values@),
                    value_entries(values@) == entries_view(entries@.take(i as int)),
                decreases entries@.len() - i,
            {
                assert(decreases_to!(*j => (*j)->Object_0));
                assert(decreases_to!(entries => entries@));
                assert(decreases_to!(entries@ => entries@[i as int]));
                assert(decreases_to!(entries@[i as int] => entries@[i as int].1));
                let value = (entries[i].0.clone(), to_value(&entries[i].1));
                proof {
                    assert(entries@.take(i + 1) =~= entries@.take(i as int).push(
                        entries@[i as int],
                    ));
                    lemma_entries_view_push(entries@.take(i as int), entries@[i as int]);
                }
                put_value(&mut values, value);
                i += 1;
            }
            assert(entries@.take(i as int) =~= entries@);
            close_value(Level::Object(values))
        },
    }
}

impl Json {
    /// Reads the document that `text` is.
    pub fn parse(text: &str) -> (r: Option<Json>)
        ensures
            match r {
                Some(j) => parsed_json(text@) == Some(j@) && fits(j@, read_depth()),
                None => parsed_json(text@) is None,
            },
    {
        match read_value(text) {
            Some(v) => Some(from_value(v)),
            None => None,
        }
    }

    /// The document on one line. It holds no line break, and a document that can be stored is
    /// read back from it.
    pub fn to_text(&self) -> (s: String)
        ensures
            s@ == compact_text(self@),
            !s@.contains('\n'),
            storable(self@, read_depth()) ==> parsed_json(s@) == Some(self@),
    {
        write_compact(&to_value(self))
    }

    /// The document on indented lines. A document that can be stored is read back from it, and
    /// of another object the members that can be stored are.
    pub fn to_pretty_text(&self) -> (s: String)
        ensures
            s@ == pretty_text(self@),
            storable(self@, read_depth()) ==> parsed_json(s@) == Some(self@),
            fits(self@, read_depth()) ==> keeps_members(self@, parsed_json(s@)),
    {
        write_pretty(&to_value(self))
    }
}

} // verus!
