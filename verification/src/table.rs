//! Tables keyed by text, which keep the order in which keys came in.

use vstd::prelude::*;
use crate::text::{contains_text, has_part, same_text};

verus! {

/// A table keyed by text. No key occurs twice.
#[derive(Debug)]
pub struct Table<V> {
    entries: Vec<(String, V)>,
}

spec fn distinct<V>(entries: Seq<(String, V)>) -> bool {
    forall|i: int, j: int|
        0 <= i < j < entries.len() ==> (#[trigger] entries[i]).0@ != (#[trigger] entries[j]).0@
}

spec fn as_map<V>(entries: Seq<(String, V)>) -> Map<Seq<char>, V>
    decreases entries.len(),
{
    if entries.len() == 0 {
        Map::empty()
    } else {
        as_map(entries.drop_last()).insert(entries.last().0@, entries.last().1)
    }
}

/// The keys of entries.
spec fn key_texts<V>(entries: Seq<(String, V)>) -> Seq<Seq<char>> {
    Seq::new(entries.len(), |i: int| entries[i].0@)
}

/// Keys without the given one.
pub open spec fn without_key(keys: Seq<Seq<char>>, key: Seq<char>) -> Seq<Seq<char>>
    decreases keys.len(),
{
    if keys.len() == 0 {
        Seq::empty()
    } else if keys.last() == key {
        without_key(keys.drop_last(), key)
    } else {
        without_key(keys.drop_last(), key).push(keys.last())
    }
}

/// Keys without those that hold the given part.
pub open spec fn without_part(keys: Seq<Seq<char>>, part: Seq<char>) -> Seq<Seq<char>>
    decreases keys.len(),
{
    if keys.len() == 0 {
        Seq::empty()
    } else if has_part(keys.last(), part) {
        without_part(keys.drop_last(), part)
    } else {
        without_part(keys.drop_last(), part).push(keys.last())
    }
}

proof fn lemma_without_absent(keys: Seq<Seq<char>>, key: Seq<char>)
    requires
        !keys.contains(key),
    ensures
        without_key(keys, key) == keys,
    decreases keys.len(),
{
    if keys.len() > 0 {
        assert(keys.contains(keys[keys.len() - 1]));
        assert(!keys.drop_last().contains(key)) by {
            if keys.drop_last().contains(key) {
                let i = choose|i: int| 0 <= i < keys.len() - 1 && keys.drop_last()[i] == key;
                assert(keys[i] == key);
            }
        }
        lemma_without_absent(keys.drop_last(), key);
    }
}

proof fn lemma_without_key(keys: Seq<Seq<char>>, i: int)
    requires
        0 <= i < keys.len(),
        keys.no_duplicates(),
    ensures
        without_key(keys, keys[i]) == keys.remove(i),
    decreases keys.len(),
{
    let rest = keys.drop_last();
    if i == keys.len() - 1 {
        assert(!rest.contains(keys[i])) by {
            if rest.contains(keys[i]) {
                let j = choose|j: int| 0 <= j < rest.len() && rest[j] == keys[i];
                assert(keys[j] == keys[i]);
            }
        }
        lemma_without_absent(rest, keys[i]);
        assert(keys.remove(i) =~= rest);
    } else {
        lemma_without_key(rest, i);
        assert(keys.remove(i) =~= rest.remove(i).push(keys.last()));
    }
}

proof fn lemma_distinct_drop_last<V>(entries: Seq<(String, V)>)
    requires
        distinct(entries),
        entries.len() > 0,
    ensures
        distinct(entries.drop_last()),
{
    let rest = entries.drop_last();
    assert forall|i: int, j: int| 0 <= i < j < rest.len() implies (#[trigger] rest[i]).0@ != (
    #[trigger] rest[j]).0@ by {
        assert(rest[i] == entries[i] && rest[j] == entries[j]);
    }
}

proof fn lemma_as_map<V>(entries: Seq<(String, V)>)
    requires
        distinct(entries),
    ensures
        forall|i: int|
            0 <= i < entries.len() ==> {
                &&& as_map(entries).contains_key((#[trigger] entries[i]).0@)
                &&& as_map(entries)[entries[i].0@] == entries[i].1
            },
        forall|k: Seq<char>| #[trigger]
            as_map(entries).contains_key(k) ==> exists|i: int|
                0 <= i < entries.len() && (#[trigger] entries[i]).0@ == k,
    decreases entries.len(),
{
    if entries.len() > 0 {
        let rest = entries.drop_last();
        lemma_distinct_drop_last(entries);
        lemma_as_map(rest);
        assert forall|i: int| 0 <= i < entries.len() implies {
            &&& as_map(entries).contains_key((#[trigger] entries[i]).0@)
            &&& as_map(entries)[entries[i].0@] == entries[i].1
        } by {
            if i < rest.len() {
                assert(rest[i] == entries[i]);
                assert(entries[i].0@ != entries[entries.len() - 1].0@);
            }
        }
        assert forall|k: Seq<char>| #[trigger]
            as_map(entries).contains_key(k) implies exists|i: int|
            0 <= i < entries.len() && (#[trigger] entries[i]).0@ == k by {
            if k != entries.last().0@ {
                assert(as_map(rest).contains_key(k));
                let i = choose|i: int| 0 <= i < rest.len() && (#[trigger] rest[i]).0@ == k;
                assert(entries[i].0@ == k);
            } else {
                assert(entries[entries.len() - 1].0@ == k);
            }
        }
    }
}

impl<V> Table<V> {
    #[verifier::type_invariant]
    spec fn inv(self) -> bool {
        distinct(self.entries@)
    }

    /// The keys, in the order in which they came in.
    pub closed spec fn keys(self) -> Seq<Seq<char>> {
        key_texts(self.entries@)
    }
}

impl<V> View for Table<V> {
    type V = Map<Seq<char>, V>;

    closed spec fn view(&self) -> Map<Seq<char>, V> {
        as_map(self.entries@)
    }
}

impl<V> Table<V> {
    /// The table without entries.
    pub fn new() -> (r: Self)
        ensures
            r@ == Map::<Seq<char>, V>::empty(),
            r.keys() == Seq::<Seq<char>>::empty(),
    {
        let r = Table { entries: Vec::new() };
        assert(r.keys() =~= Seq::<Seq<char>>::empty());
        r
    }

    /// The position of `key`.
    fn position(&self, key: &str) -> (r: Option<usize>)
        ensures
            match r {
                Some(i) => {
                    &&& i < self.entries@.len()
                    &&& self.entries@[i as int].0@ == key@
                    &&& self@.contains_key(key@)
                    &&& self@[key@] == self.entries@[i as int].1
                },
                None => {
                    &&& !self@.contains_key(key@)
                    &&& forall|j: int|
                        0 <= j < self.entries@.len() ==> (#[trigger] self.entries@[j]).0@ != key@
                },
            },
    {
        proof {
            use_type_invariant(self);
            lemma_as_map(self.entries@);
        }
        let mut i: usize = 0;
        while i < self.entries.len()
            invariant
                i <= self.entries@.len(),
                forall|j: int|
                    0 <= j < self.entries@.len() ==> {
                        &&& self@.contains_key((#[trigger] self.entries@[j]).0@)
                        &&& self@[self.entries@[j].0@] == self.entries@[j].1
                    },
                forall|j: int| 0 <= j < i ==> (#[trigger] self.entries@[j]).0@ != key@,
            decreases self.entries@.len() - i,
        {
            if same_text(self.entries[i].0.as_str(), key) {
                return Some(i);
            }
            i += 1;
        }
        None
    }

    /// The value under `key`.
    pub fn get(&self, key: &str) -> (r: Option<&V>)
        ensures
            match r {
                Some(v) => self@.contains_key(key@) && self@[key@] == *v,
                None => !self@.contains_key(key@),
            },
    {
        match self.position(key) {
            Some(i) => Some(&self.entries[i].1),
            None => None,
        }
    }

    pub fn contains_key(&self, key: &str) -> (r: bool)
        ensures
            r == self@.contains_key(key@),
    {
        match self.position(key) {
            Some(_) => true,
            None => false,
        }
    }

    /// Puts `value` under `key`, in place of the value that was there. A new key comes last.
    pub fn insert(&mut self, key: &str, value: V)
        ensures
            final(self)@ == old(self)@.insert(key@, value),
            final(self).keys() == if old(self)@.contains_key(key@) {
                old(self).keys()
            } else {
                old(self).keys().push(key@)
            },
    {
        let found = self.position(key);
        proof {
            use_type_invariant(&*self);
        }
        let mut entries: Vec<(String, V)> = Vec::new();
        std::mem::swap(&mut entries, &mut self.entries);
        let ghost before = entries@;
        let entry = (key.to_owned(), value);
        match found {
            Some(i) => {
                entries.set(i, entry);
                proof {
                    lemma_replace(before, i as int, entry);
                }
            },
            None => {
                entries.push(entry);
                proof {
                    assert(entries@.drop_last() =~= before);
                }
            },
        }
        assert(distinct(entries@));
        self.entries = entries;
        assert(self.keys() =~= if old(self)@.contains_key(key@) {
            old(self).keys()
        } else {
            old(self).keys().push(key@)
        });
    }

    /// Takes out the entry under `key`. The others stay in their order.
    pub fn remove(&mut self, key: &str) -> (r: Option<V>)
        ensures
            final(self)@ == old(self)@.remove(key@),
            final(self).keys() == without_key(old(self).keys(), key@),
            match r {
                Some(v) => old(self)@.contains_key(key@) && old(self)@[key@] == v,
                None => !old(self)@.contains_key(key@),
            },
    {
        let found = self.position(key);
        proof {
            use_type_invariant(&*self);
        }
        match found {
            Some(i) => {
                let mut entries: Vec<(String, V)> = Vec::new();
                std::mem::swap(&mut entries, &mut self.entries);
                let ghost before = entries@;
                let (_, value) = entries.remove(i);
                proof {
                    lemma_take_out(before, i as int);
                    lemma_without_key(key_texts(before), i as int);
                    assert(key_texts(entries@) =~= key_texts(before).remove(i as int));
                }
                self.entries = entries;
                Some(value)
            },
            None => {
                proof {
                    assert(old(self)@.remove(key@) =~= old(self)@);
                    lemma_without_absent(self.keys(), key@);
                }
                None
            },
        }
    }

    /// Takes out every entry whose key holds `part`. The others stay in their order.
    pub fn remove_containing(&mut self, part: &str)
        ensures
            forall|k: Seq<char>| #[trigger]
                final(self)@.contains_key(k) <==> old(self)@.contains_key(k) && !has_part(k, part@),
            forall|k: Seq<char>| #[trigger]
                final(self)@.contains_key(k) ==> final(self)@[k] == old(self)@[k],
            final(self).keys() == without_part(old(self).keys(), part@),
    {
        proof {
            use_type_invariant(&*self);
        }
        let ghost keys = self.keys();
        let mut entries: Vec<(String, V)> = Vec::new();
        std::mem::swap(&mut entries, &mut self.entries);
        let ghost all = entries@;
        proof {
            lemma_as_map(all);
        }
        let mut left: Vec<(String, V)> = Vec::new();
        assert(key_texts(left@) =~= without_part(keys.take(0), part@));
        for entry in it: entries.into_iter()
            invariant
                it.seq() == all,
                keys == key_texts(all),
                distinct(all),
                distinct(left@),
                key_texts(left@) == without_part(keys.take(it.index() as int), part@),
                forall|j: int|
                    0 <= j < left@.len() ==> !has_part((#[trigger] left@[j]).0@, part@)
                        && exists|i: int| 0 <= i < it.index() && all[i] == left@[j],
                forall|i: int|
                    0 <= i < it.index() && !has_part((#[trigger] all[i]).0@, part@) ==> exists|
                        j: int,
                    | 0 <= j < left@.len() && left@[j] == all[i],
        {
            let ghost n = it.index() as int;
            let ghost before = left@;
            proof {
                assert(keys.take(n + 1).drop_last() =~= keys.take(n));
                assert(keys.take(n + 1).last() == entry.0@);
            }
            if !contains_text(entry.0.as_str(), part) {
                let ghost taken = entry;
                left.push(entry);
                proof {
                    assert(taken == all[n]);
                    assert(key_texts(left@) =~= key_texts(before).push(taken.0@));
                    assert forall|i: int, j: int| 0 <= i < j < left@.len() implies (
                    #[trigger] left@[i]).0@ != (#[trigger] left@[j]).0@ by {
                        assert(left@[i] == before[i]);
                        let a = choose|a: int| 0 <= a < n && all[a] == before[i];
                        if j == before.len() {
                            assert(all[a].0@ != all[n].0@);
                        } else {
                            assert(left@[j] == before[j]);
                        }
                    }
                    assert forall|j: int| 0 <= j < left@.len() implies !has_part(
                        (#[trigger] left@[j]).0@,
                        part@,
                    ) && exists|i: int| 0 <= i < n + 1 && all[i] == left@[j] by {
                        if j < before.len() {
                            assert(left@[j] == before[j]);
                            let i = choose|i: int| 0 <= i < n && all[i] == before[j];
                            assert(all[i] == left@[j]);
                        } else {
                            assert(all[n] == left@[j]);
                        }
                    }
                    assert forall|i: int|
                        0 <= i < n + 1 && !has_part((#[trigger] all[i]).0@, part@) implies exists|
                        j: int,
                    | 0 <= j < left@.len() && left@[j] == all[i] by {
                        if i < n {
                            let j = choose|j: int| 0 <= j < before.len() && before[j] == all[i];
                            assert(left@[j] == all[i]);
                        } else {
                            assert(left@[before.len() as int] == all[n]);
                        }
                    }
                }
            }
        }
        proof {
            assert(keys.take(all.len() as int) =~= keys);
            lemma_as_map(left@);
            assert forall|k: Seq<char>| #[trigger] as_map(left@).contains_key(k) implies {
                &&& as_map(all).contains_key(k)
                &&& !has_part(k, part@)
                &&& as_map(left@)[k] == as_map(all)[k]
            } by {
                let j = choose|j: int| 0 <= j < left@.len() && (#[trigger] left@[j]).0@ == k;
                let i = choose|i: int| 0 <= i < all.len() && all[i] == left@[j];
                assert(all[i].0@ == k);
            }
            assert forall|k: Seq<char>|
                as_map(all).contains_key(k) && !has_part(k, part@) implies #[trigger] as_map(
                left@,
            ).contains_key(k) by {
                let i = choose|i: int| 0 <= i < all.len() && (#[trigger] all[i]).0@ == k;
                let j = choose|j: int| 0 <= j < left@.len() && left@[j] == all[i];
                assert(left@[j].0@ == k);
            }
        }
        self.entries = left;
    }

    /// How many entries there are. The keys are distinct, and they are those that the table
    /// holds.
    pub fn len(&self) -> (r: usize)
        ensures
            r == self.keys().len(),
            self.keys().no_duplicates(),
            forall|k: Seq<char>| #[trigger] self@.contains_key(k) <==> self.keys().contains(k),
    {
        proof {
            use_type_invariant(self);
            lemma_as_map(self.entries@);
            assert forall|k: Seq<char>| #[trigger]
                self@.contains_key(k) implies self.keys().contains(k) by {
                let i = choose|i: int|
                    0 <= i < self.entries@.len() && (#[trigger] self.entries@[i]).0@ == k;
                assert(self.keys()[i] == k);
            }
        }
        self.entries.len()
    }

    /// The entry at position `i`.
    pub fn entry(&self, i: usize) -> (r: (&String, &V))
        requires
            i < self.keys().len(),
        ensures
            r.0@ == self.keys()[i as int],
            self@.contains_key(r.0@),
            self@[r.0@] == *r.1,
    {
        proof {
            use_type_invariant(self);
            lemma_as_map(self.entries@);
        }
        let entry = &self.entries[i];
        (&entry.0, &entry.1)
    }
}

proof fn lemma_replace<V>(entries: Seq<(String, V)>, i: int, entry: (String, V))
    requires
        distinct(entries),
        0 <= i < entries.len(),
        entry.0@ == entries[i].0@,
    ensures
        distinct(entries.update(i, entry)),
        as_map(entries.update(i, entry)) == as_map(entries).insert(entry.0@, entry.1),
    decreases entries.len(),
{
    let updated = entries.update(i, entry);
    let rest = entries.drop_last();
    lemma_distinct_drop_last(entries);
    if i < entries.len() - 1 {
        lemma_replace(rest, i, entry);
        assert(updated.drop_last() =~= rest.update(i, entry));
        assert(entries[i].0@ != entries[entries.len() - 1].0@);
        assert(as_map(updated) =~= as_map(entries).insert(entry.0@, entry.1));
    } else {
        assert(updated.drop_last() =~= rest);
        assert(as_map(updated) =~= as_map(entries).insert(entry.0@, entry.1));
    }
}

proof fn lemma_take_out<V>(entries: Seq<(String, V)>, i: int)
    requires
        distinct(entries),
        0 <= i < entries.len(),
    ensures
        distinct(entries.remove(i)),
        as_map(entries.remove(i)) == as_map(entries).remove(entries[i].0@),
    decreases entries.len(),
{
    let left = entries.remove(i);
    let rest = entries.drop_last();
    lemma_distinct_drop_last(entries);
    assert(distinct(left));
    if i < entries.len() - 1 {
        lemma_take_out(rest, i);
        assert(left.drop_last() =~= rest.remove(i));
        assert(left.last() == entries.last());
        assert(rest[i] == entries[i]);
        assert(entries[i].0@ != entries[entries.len() - 1].0@);
        assert(as_map(left) =~= as_map(entries).remove(entries[i].0@));
    } else {
        assert(left =~= rest);
        lemma_as_map(rest);
        assert forall|j: int| 0 <= j < rest.len() implies (#[trigger] rest[j]).0@
            != entries[i].0@ by {
            assert(rest[j] == entries[j]);
        }
        assert(!as_map(rest).contains_key(entries[i].0@));
        assert(as_map(left) =~= as_map(entries).remove(entries[i].0@));
    }
}

/// Without a key the other keys are left, in their order; without a part those that do not hold
/// it.
pub proof fn other_keys_are_left(
    keys: Seq<Seq<char>>,
    last: Seq<char>,
    key: Seq<char>,
    part: Seq<char>,
)
    ensures
        without_key(Seq::empty(), key) == Seq::<Seq<char>>::empty(),
        without_part(Seq::empty(), part) == Seq::<Seq<char>>::empty(),
        last == key ==> without_key(keys.push(last), key) == without_key(keys, key),
        last != key ==> without_key(keys.push(last), key) == without_key(keys, key).push(last),
        has_part(last, part) ==> without_part(keys.push(last), part) == without_part(keys, part),
        !has_part(last, part) ==> without_part(keys.push(last), part) == without_part(
            keys,
            part,
        ).push(last),
{
    assert(keys.push(last).drop_last() =~= keys);
    assert(without_key(Seq::empty(), key) =~= Seq::<Seq<char>>::empty());
    assert(without_part(Seq::empty(), part) =~= Seq::<Seq<char>>::empty());
}

} // verus!
