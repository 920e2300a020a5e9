//! The in-memory side of a multi-valued key-value database: each key holds a
//! list of values. Saving to and reading from files is left to the caller.

use vstd::prelude::*;
use vstd::utf8::encode_utf8;
use crate::pattern::{lower_of, lowercase};
use crate::text::{chars_equal, names_sorted, sort_lexically};

verus! {

/// The values of a key, as plain text.
pub type Values = Seq<Seq<char>>;

/// An entry as plain text: a key and its values.
pub type EntryView = (Seq<char>, Values);

/// The map that a list of entries stands for.
pub open spec fn entries_map(es: Seq<EntryView>) -> Map<Seq<char>, Values>
    decreases es.len(),
{
    if es.len() == 0 {
        Map::empty()
    } else {
        entries_map(es.drop_last()).insert(es.last().0, es.last().1)
    }
}

/// No key occurs twice.
pub open spec fn keys_distinct(es: Seq<EntryView>) -> bool {
    forall|i: int, j: int| 0 <= i < j < es.len() ==> (#[trigger] es[i]).0 != (#[trigger] es[j]).0
}

/// Why an operation failed.
#[derive(Debug, Clone, Copy, PartialEq, Eq, Structural)]
pub enum StoreError {
    KeyNotFound,
    ValueNotFound,
}

/// `values` with the first occurrence of `old_value` replaced.
pub open spec fn replace_first(values: Values, old_value: Seq<char>, new_value: Seq<char>) -> Values
    decreases values.len(),
{
    if values.len() == 0 {
        values
    } else if values[0] == old_value {
        values.update(0, new_value)
    } else {
        seq![values[0]] + replace_first(values.skip(1), old_value, new_value)
    }
}

/// `values` without any copy of `value`.
pub open spec fn without_value(values: Values, value: Seq<char>) -> Values {
    values.filter(|v: Seq<char>| v != value)
}

/// `m` with `value` appended to the values of `key`, which is created when
/// missing.
pub open spec fn appended(m: Map<Seq<char>, Values>, key: Seq<char>, value: Seq<char>) -> Map<Seq<char>, Values> {
    if m.contains_key(key) {
        m.insert(key, m[key].push(value))
    } else {
        m.insert(key, seq![value])
    }
}

/// `m` with each of `values` appended to `key` in turn.
pub open spec fn appended_all(m: Map<Seq<char>, Values>, key: Seq<char>, values: Values) -> Map<Seq<char>, Values>
    decreases values.len(),
{
    if values.len() == 0 {
        m
    } else {
        appended(appended_all(m, key, values.drop_last()), key, values.last())
    }
}

/// The entries view of a list of entries.
pub open spec fn entries_view(v: Seq<(String, Vec<String>)>) -> Seq<EntryView> {
    v.map_values(|e: (String, Vec<String>)| (e.0@, e.1.deep_view()))
}

/// A key is in the map exactly when some entry has it, and then the map
/// holds that entry's values.
pub proof fn lemma_entries_map_lookup(es: Seq<EntryView>, k: Seq<char>)
    requires
        keys_distinct(es),
    ensures
        entries_map(es).contains_key(k) <==> exists|i: int| 0 <= i < es.len() && (#[trigger] es[i]).0 == k,
        forall|i: int| 0 <= i < es.len() && (#[trigger] es[i]).0 == k ==> entries_map(es)[k] == es[i].1,
    decreases es.len(),
{
    if es.len() > 0 {
        let init = es.drop_last();
        assert(keys_distinct(init)) by {
            assert forall|i: int, j: int| 0 <= i < j < init.len() implies (#[trigger] init[i]).0 != (#[trigger] init[j]).0 by {
                assert(init[i] == es[i] && init[j] == es[j]);
            }
        }
        lemma_entries_map_lookup(init, k);
        if entries_map(es).contains_key(k) && k != es.last().0 {
            let i = choose|i: int| 0 <= i < init.len() && (#[trigger] init[i]).0 == k;
            assert(es[i] == init[i]);
        }
        if exists|i: int| 0 <= i < es.len() && (#[trigger] es[i]).0 == k {
            let i = choose|i: int| 0 <= i < es.len() && (#[trigger] es[i]).0 == k;
            if i < es.len() - 1 {
                assert(init[i] == es[i]);
            }
        }
        assert forall|i: int| 0 <= i < es.len() && (#[trigger] es[i]).0 == k implies entries_map(es)[k] == es[i].1 by {
            if i < es.len() - 1 {
                assert(init[i] == es[i]);
                assert(es[i].0 != es[es.len() - 1].0);
            }
        }
    }
}

/// Changing the values of entry `i` changes the map at its key.
pub proof fn lemma_entries_map_update(es: Seq<EntryView>, i: int, v: Values)
    requires
        keys_distinct(es),
        0 <= i < es.len(),
    ensures
        entries_map(es.update(i, (es[i].0, v))) == entries_map(es).insert(es[i].0, v),
    decreases es.len(),
{
    let k = es[i].0;
    let e2 = es.update(i, (k, v));
    let init = es.drop_last();
    if i == es.len() - 1 {
        assert(e2.drop_last() =~= init);
        assert(entries_map(e2) =~= entries_map(es).insert(k, v));
    } else {
        assert(keys_distinct(init)) by {
            assert forall|a: int, b: int| 0 <= a < b < init.len() implies (#[trigger] init[a]).0 != (#[trigger] init[b]).0 by {
                assert(init[a] == es[a] && init[b] == es[b]);
            }
        }
        assert(init[i] == es[i]);
        lemma_entries_map_update(init, i, v);
        assert(e2.drop_last() =~= init.update(i, (k, v)));
        assert(e2.last() == es.last());
        assert(es.last().0 != k);
        assert(entries_map(e2) =~= entries_map(es).insert(k, v));
    }
}

/// Removing entry `i` removes its key from the map.
pub proof fn lemma_entries_map_remove(es: Seq<EntryView>, i: int)
    requires
        keys_distinct(es),
        0 <= i < es.len(),
    ensures
        entries_map(es.remove(i)) == entries_map(es).remove(es[i].0),
        keys_distinct(es.remove(i)),
    decreases es.len(),
{
    let k = es[i].0;
    let init = es.drop_last();
    assert(keys_distinct(init)) by {
        assert forall|a: int, b: int| 0 <= a < b < init.len() implies (#[trigger] init[a]).0 != (#[trigger] init[b]).0 by {
            assert(init[a] == es[a] && init[b] == es[b]);
        }
    }
    assert(keys_distinct(es.remove(i))) by {
        let r = es.remove(i);
        assert forall|a: int, b: int| 0 <= a < b < r.len() implies (#[trigger] r[a]).0 != (#[trigger] r[b]).0 by {
            let a2 = if a < i { a } else { a + 1 };
            let b2 = if b < i { b } else { b + 1 };
            assert(r[a] == es[a2] && r[b] == es[b2]);
        }
    }
    if i == es.len() - 1 {
        assert(es.remove(i) =~= init);
        lemma_entries_map_lookup(init, k);
        assert forall|j: int| 0 <= j < init.len() implies (#[trigger] init[j]).0 != k by {
            assert(init[j] == es[j]);
        }
        assert(!entries_map(init).contains_key(k));
        assert(entries_map(init) =~= entries_map(es).remove(k));
    } else {
        assert(init[i] == es[i]);
        lemma_entries_map_remove(init, i);
        assert(es.remove(i).drop_last() =~= init.remove(i));
        assert(es.remove(i).last() == es.last());
        assert(es.last().0 != k);
        assert(entries_map(es.remove(i)) =~= entries_map(es).remove(k));
    }
}

/// A database of keys each holding a list of values, saved to `file`.
pub struct FileDatabase {
    file: String,
    data: Vec<(String, Vec<String>)>,
}

impl FileDatabase {
    /// What the database holds.
    pub closed spec fn contents(&self) -> Map<Seq<char>, Values> {
        entries_map(entries_view(self.data@))
    }

    /// The file it is saved to.
    pub closed spec fn path(&self) -> Seq<char> {
        self.file@
    }

    /// The file it is saved to.
    pub fn file(&self) -> (r: &String)
        ensures
            r@ == self.path(),
    {
        &self.file
    }

    /// Its entries keep their keys distinct.
    pub closed spec fn wf(&self) -> bool {
        keys_distinct(entries_view(self.data@))
    }

    /// An empty database for `file`.
    pub fn new(file: String) -> (r: FileDatabase)
        ensures
            r.wf(),
            r.contents() == Map::<Seq<char>, Values>::empty(),
            r.path() == file@,
    {
        let r = FileDatabase { file, data: Vec::new() };
        assert(entries_view(r.data@) =~= Seq::<EntryView>::empty());
        r
    }

    /// The position of `key` among the entries.
    fn position(&self, key: &str) -> (r: Option<usize>)
        requires
            self.wf(),
        ensures
            match r {
                Some(i) => i < self.data@.len() && self.data@[i as int].0@ == key@ && self.contents().contains_key(key@)
                    && self.contents()[key@] == self.data@[i as int].1.deep_view(),
                None => !self.contents().contains_key(key@),
            },
    {
        let ghost es = entries_view(self.data@);
        proof {
            lemma_entries_map_lookup(es, key@);
        }
        let mut i: usize = 0;
        while i < self.data.len()
            invariant
                es == entries_view(self.data@),
                keys_distinct(es),
                i <= self.data@.len(),
                forall|t: int| 0 <= t < i ==> (#[trigger] self.data@[t]).0@ != key@,
            decreases self.data.len() - i,
        {
            if chars_equal(self.data[i].0.as_str(), key) {
                assert(es[i as int] == (self.data@[i as int].0@, self.data@[i as int].1.deep_view()));
                assert(es[i as int].0 == key@);
                proof {
                    lemma_entries_map_lookup(es, key@);
                }
                return Some(i);
            }
            i = i + 1;
        }
        assert forall|t: int| 0 <= t < es.len() implies (#[trigger] es[t]).0 != key@ by {
            assert(es[t].0 == self.data@[t].0@);
        }
        None
    }

    /// Stores `values` under `key`, replacing what it held.
    fn put(&mut self, key: &str, values: Vec<String>)
        requires
            old(self).wf(),
        ensures
            final(self).wf(),
            final(self).contents() == old(self).contents().insert(key@, values.deep_view()),
            final(self).path() == old(self).path(),
    {
        let ghost es = entries_view(self.data@);
        let ghost vals = values.deep_view();
        match self.position(key) {
            Some(i) => {
                let k = self.data[i].0.clone();
                self.data.set(i, (k, values));
                proof {
                    assert(entries_view(self.data@) =~= es.update(i as int, (es[i as int].0, vals)));
                    lemma_entries_map_update(es, i as int, vals);
                    assert forall|a: int, b: int| 0 <= a < b < entries_view(self.data@).len() implies (#[trigger] entries_view(self.data@)[a]).0 != (#[trigger] entries_view(self.data@)[b]).0 by {
                        assert(entries_view(self.data@)[a].0 == es[a].0 && entries_view(self.data@)[b].0 == es[b].0);
                    }
                }
            },
            None => {
                self.data.push((key.to_string(), values));
                proof {
                    lemma_entries_map_lookup(es, key@);
                    assert(entries_view(self.data@) =~= es.push((key@, vals)));
                    assert(entries_view(self.data@).drop_last() =~= es);
                    assert forall|a: int, b: int| 0 <= a < b < entries_view(self.data@).len() implies (#[trigger] entries_view(self.data@)[a]).0 != (#[trigger] entries_view(self.data@)[b]).0 by {
                        if b == es.len() {
                            assert(entries_view(self.data@)[a] == es[a]);
                        } else {
                            assert(entries_view(self.data@)[a] == es[a] && entries_view(self.data@)[b] == es[b]);
                        }
                    }
                }
            },
        }
    }

    /// The values of `key`, sorted; `ValueNotFound` when it is missing.
    pub fn get(&self, key: &str) -> (r: Result<Vec<String>, StoreError>)
        requires
            self.wf(),
        ensures
            !self.contents().contains_key(key@) <==> r == Err::<Vec<String>, StoreError>(StoreError::ValueNotFound),
            self.contents().contains_key(key@) <==> r is Ok,
            r matches Ok(v) ==> names_sorted(v.deep_view()) && v.deep_view().to_multiset()
                == self.contents()[key@].to_multiset(),
    {
        match self.position(key) {
            Some(i) => Ok(sort_lexically(&self.data[i].1)),
            None => Err(StoreError::ValueNotFound),
        }
    }

    /// Stores `value` as the only value of `key`.
    pub fn set(&mut self, key: &str, value: &str)
        requires
            old(self).wf(),
        ensures
            final(self).path() == old(self).path(),
            final(self).wf(),
            final(self).contents() == old(self).contents().insert(key@, seq![value@]),
    {
        let mut values: Vec<String> = Vec::new();
        values.push(value.to_string());
        assert(values.deep_view() =~= seq![value@]);
        self.put(key, values);
    }

    /// Appends `value` to the values of `key`, creating the key when missing.
    pub fn set_multiple_values(&mut self, key: &str, value: &str)
        requires
            old(self).wf(),
        ensures
            final(self).path() == old(self).path(),
            final(self).wf(),
            final(self).contents() == appended(old(self).contents(), key@, value@),
    {
        match self.position(key) {
            Some(i) => {
                let mut values = self.data[i].1.clone();
                let ghost before = values.deep_view();
                assert(before == self.contents()[key@]) by {
                    assert(values@ == self.data@[i as int].1@);
                    assert(values.deep_view() =~= self.data@[i as int].1.deep_view());
                }
                values.push(value.to_string());
                assert(values.deep_view() =~= before.push(value@));
                self.put(key, values);
            },
            None => {
                self.set(key, value);
            },
        }
    }

    /// Appends the last of `args` to each of the others, in order.
    pub fn set_multiple_keys(&mut self, args: &Vec<String>)
        requires
            old(self).wf(),
        ensures
            final(self).wf(),
            final(self).path() == old(self).path(),
            args.len() == 0 ==> final(self).contents() == old(self).contents(),
            args.len() > 0 ==> final(self).contents() == appended_to_keys(
                old(self).contents(),
                args.deep_view().drop_last(),
                args@[args.len() - 1]@,
            ),
    {
        if args.len() == 0 {
            return;
        }
        let last = args.len() - 1;
        let ghost start = self.contents();
        let ghost keys = args.deep_view().drop_last();
        let ghost value = args@[last as int]@;
        let mut i: usize = 0;
        assert(keys.subrange(0, 0) =~= Seq::<Seq<char>>::empty());
        while i < last
            invariant
                last == args.len() - 1,
                i <= last,
                keys == args.deep_view().drop_last(),
                value == args@[last as int]@,
                self.wf(),
                self.path() == old(self).path(),
                self.contents() == appended_to_keys(start, keys.subrange(0, i as int), value),
            decreases last - i,
        {
            assert(keys.subrange(0, i + 1).drop_last() =~= keys.subrange(0, i as int));
            assert(keys[i as int] == args@[i as int]@);
            self.set_multiple_values(args[i].as_str(), args[last].as_str());
            i = i + 1;
        }
        assert(keys.subrange(0, last as int) =~= keys);
    }

    /// Removes `key` and its values.
    pub fn delete(&mut self, key: &str)
        requires
            old(self).wf(),
        ensures
            final(self).path() == old(self).path(),
            final(self).wf(),
            final(self).contents() == old(self).contents().remove(key@),
    {
        let ghost es = entries_view(self.data@);
        match self.position(key) {
            Some(i) => {
                self.data.remove(i);
                proof {
                    assert(entries_view(self.data@) =~= es.remove(i as int));
                    lemma_entries_map_remove(es, i as int);
                }
            },
            None => {
                assert(self.contents() =~= self.contents().remove(key@));
            },
        }
    }

    /// Replaces the first `value` of `key` by `new_value`.
    pub fn update_value(&mut self, key: &str, value: &str, new_value: &str) -> (r: Result<(), StoreError>)
        requires
            old(self).wf(),
        ensures
            final(self).path() == old(self).path(),
            final(self).wf(),
            !old(self).contents().contains_key(key@) ==> r == Err::<(), StoreError>(StoreError::KeyNotFound)
                && final(self).contents() == old(self).contents(),
            old(self).contents().contains_key(key@) && !old(self).contents()[key@].contains(value@) ==> r
                == Err::<(), StoreError>(StoreError::ValueNotFound) && final(self).contents() == old(self).contents(),
            old(self).contents().contains_key(key@) && old(self).contents()[key@].contains(value@) ==> r is Ok
                && final(self).contents() == old(self).contents().insert(
                key@,
                replace_first(old(self).contents()[key@], value@, new_value@),
            ),
    {
        let i = match self.position(key) {
            Some(i) => i,
            None => {
                return Err(StoreError::KeyNotFound);
            },
        };
        let values = &self.data[i].1;
        let ghost vs = values.deep_view();
        assert(vs == self.contents()[key@]);
        let mut j: usize = 0;
        let mut found = false;
        assert(vs.skip(0) =~= vs);
        assert(vs.subrange(0, 0) + vs =~= vs);
        while j < values.len() && !found
            invariant
                vs == values.deep_view(),
                j <= values@.len(),
                found ==> j < values@.len() && vs[j as int] == value@,
                forall|t: int| 0 <= t < j ==> vs[t] != value@,
                replace_first(vs, value@, new_value@) == vs.subrange(0, j as int) + replace_first(vs.skip(j as int), value@, new_value@),
            decreases values.len() - j + (if found { 0int } else { 1 }),
        {
            if chars_equal(values[j].as_str(), value) {
                found = true;
                continue;
            }
            proof {
                let rest = vs.skip(j as int);
                assert(rest[0] == vs[j as int]);
                assert(rest.skip(1) =~= vs.skip(j + 1));
                assert(vs.subrange(0, j + 1) + replace_first(vs.skip(j + 1), value@, new_value@) =~= vs.subrange(0, j as int) + (seq![vs[j as int]] + replace_first(vs.skip(j + 1), value@, new_value@)));
            }
            j = j + 1;
        }
        if !found {
            assert(!vs.contains(value@));
            return Err(StoreError::ValueNotFound);
        }
        let mut updated = values.clone();
        assert(updated.deep_view() =~= vs) by {
            assert(updated@ == values@);
        }
        updated.set(j, new_value.to_string());
        proof {
            let rest = vs.skip(j as int);
            assert(rest[0] == vs[j as int]);
            assert(updated.deep_view() =~= vs.subrange(0, j as int) + rest.update(0, new_value@));
            assert(vs.contains(value@));
        }
        self.put(key, updated);
        Ok(())
    }

    /// Removes every copy of `value` from the values of `key`.
    pub fn remove(&mut self, key: &str, value: &str) -> (r: Result<(), StoreError>)
        requires
            old(self).wf(),
        ensures
            final(self).path() == old(self).path(),
            final(self).wf(),
            !old(self).contents().contains_key(key@) <==> r == Err::<(), StoreError>(StoreError::KeyNotFound),
            r is Err ==> final(self).contents() == old(self).contents(),
            r is Ok ==> final(self).contents() == old(self).contents().insert(
                key@,
                without_value(old(self).contents()[key@], value@),
            ),
    {
        let i = match self.position(key) {
            Some(i) => i,
            None => {
                return Err(StoreError::KeyNotFound);
            },
        };
        let values = &self.data[i].1;
        let ghost vs = values.deep_view();
        let ghost keep = |v: Seq<char>| v != value@;
        let mut kept: Vec<String> = Vec::new();
        let mut j: usize = 0;
        assert(kept.deep_view() =~= vs.subrange(0, 0).filter(keep));
        while j < values.len()
            invariant
                vs == values.deep_view(),
                j <= values@.len(),
                keep == (|v: Seq<char>| v != value@),
                kept.deep_view() == vs.subrange(0, j as int).filter(keep),
            decreases values.len() - j,
        {
            let ghost prev = kept.deep_view();
            assert(vs.subrange(0, j + 1).drop_last() =~= vs.subrange(0, j as int));
            reveal(Seq::filter);
            if !chars_equal(values[j].as_str(), value) {
                kept.push(values[j].clone());
                assert(kept.deep_view() =~= prev.push(vs[j as int]));
            }
            j = j + 1;
        }
        assert(vs.subrange(0, values.len() as int) =~= vs);
        self.put(key, kept);
        Ok(())
    }

    /// Moves the values of `key`, sorted, to `updated_key`.
    pub fn update_key(&mut self, key: &str, updated_key: &str) -> (r: Result<(), StoreError>)
        requires
            old(self).wf(),
        ensures
            final(self).path() == old(self).path(),
            final(self).wf(),
            !old(self).contents().contains_key(key@) <==> r == Err::<(), StoreError>(StoreError::KeyNotFound),
            r is Err ==> final(self).contents() == old(self).contents(),
            r is Ok ==> exists|vals: Values| names_sorted(vals) && vals.to_multiset() == old(self).contents()[key@].to_multiset()
                && final(self).contents() == old(self).contents().insert(updated_key@, vals).remove(key@),
    {
        let values = match self.get(key) {
            Ok(v) => v,
            Err(_) => {
                return Err(StoreError::KeyNotFound);
            },
        };
        let ghost vals = values.deep_view();
        self.put(updated_key, values);
        self.delete(key);
        Ok(())
    }

    /// Appends the values of `key`, sorted, to `new_key`.
    pub fn duplicate(&mut self, key: &str, new_key: &str) -> (r: Result<(), StoreError>)
        requires
            old(self).wf(),
        ensures
            final(self).path() == old(self).path(),
            final(self).wf(),
            !old(self).contents().contains_key(key@) <==> r == Err::<(), StoreError>(StoreError::ValueNotFound),
            r is Err ==> final(self).contents() == old(self).contents(),
            r is Ok ==> exists|vals: Values| names_sorted(vals) && vals.to_multiset() == old(self).contents()[key@].to_multiset()
                && final(self).contents() == appended_all(old(self).contents(), new_key@, vals),
    {
        let values = match self.get(key) {
            Ok(v) => v,
            Err(e) => {
                return Err(e);
            },
        };
        let ghost start = self.contents();
        let ghost vals = values.deep_view();
        let mut i: usize = 0;
        assert(vals.subrange(0, 0) =~= Seq::<Seq<char>>::empty());
        while i < values.len()
            invariant
                self.wf(),
                vals == values.deep_view(),
                i <= values@.len(),
                self.contents() == appended_all(start, new_key@, vals.subrange(0, i as int)),
                self.path() == old(self).path(),
            decreases values.len() - i,
        {
            assert(vals.subrange(0, i + 1).drop_last() =~= vals.subrange(0, i as int));
            self.set_multiple_values(new_key, values[i].as_str());
            i = i + 1;
        }
        assert(vals.subrange(0, values.len() as int) =~= vals);
        Ok(())
    }

    /// The keys, sorted.
    pub fn list(&self) -> (r: Vec<String>)
        requires
            self.wf(),
        ensures
            names_sorted(r.deep_view()),
            forall|k: Seq<char>| r.deep_view().contains(k) <==> self.contents().contains_key(k),
    {
        let ghost es = entries_view(self.data@);
        let mut keys: Vec<String> = Vec::new();
        let mut i: usize = 0;
        while i < self.data.len()
            invariant
                es == entries_view(self.data@),
                i <= self.data@.len(),
                keys.deep_view() == es.subrange(0, i as int).map_values(|e: EntryView| e.0),
            decreases self.data.len() - i,
        {
            let ghost prev = keys.deep_view();
            keys.push(self.data[i].0.clone());
            assert(keys.deep_view() =~= prev.push(es[i as int].0));
            assert(es.subrange(0, i + 1).map_values(|e: EntryView| e.0) =~= es.subrange(0, i as int).map_values(|e: EntryView| e.0).push(es[i as int].0));
            i = i + 1;
        }
        assert(es.subrange(0, es.len() as int) =~= es);
        let sorted = sort_lexically(&keys);
        proof {
            assert forall|k: Seq<char>| sorted.deep_view().contains(k) <==> self.contents().contains_key(k) by {
                vstd::seq_lib::to_multiset_contains(sorted.deep_view(), k);
                vstd::seq_lib::to_multiset_contains(keys.deep_view(), k);
                lemma_entries_map_lookup(es, k);
                if keys.deep_view().contains(k) {
                    let t = choose|t: int| 0 <= t < keys.deep_view().len() && keys.deep_view()[t] == k;
                    assert(es[t].0 == k);
                }
                if self.contents().contains_key(k) {
                    let t = choose|t: int| 0 <= t < es.len() && (#[trigger] es[t]).0 == k;
                    assert(keys.deep_view()[t] == k);
                }
            }
        }
        sorted
    }
}

/// `m` with `value` appended to each of `keys` in turn.
pub open spec fn appended_to_keys(m: Map<Seq<char>, Values>, keys: Seq<Seq<char>>, value: Seq<char>) -> Map<Seq<char>, Values>
    decreases keys.len(),
{
    if keys.len() == 0 {
        m
    } else {
        appended(appended_to_keys(m, keys.drop_last(), value), keys.last(), value)
    }
}

/// The UTF-8 bytes of each line followed by a line break.
pub open spec fn lines_bytes(lines: Seq<Seq<char>>) -> Seq<u8>
    decreases lines.len(),
{
    if lines.len() == 0 {
        Seq::empty()
    } else {
        lines_bytes(lines.drop_last()) + encode_utf8(lines.last()) + seq![10u8]
    }
}

/// Whether a lower-cased word is one of the tool's commands.
pub open spec fn known_command(word: Seq<char>) -> bool {
    word == "list"@ || word == "get"@ || word == "set"@ || word == "setk"@ || word == "setv"@
        || word == "update"@ || word == "duplicate"@ || word == "remove"@ || word == "delete"@
        || word == "backup"@ || word == "undo"@ || word == "help"@
}

/// The message of a store error.
pub open spec fn error_text(e: StoreError) -> Seq<char> {
    match e {
        StoreError::KeyNotFound => "key not found"@,
        StoreError::ValueNotFound => "value not found"@,
    }
}

impl StoreError {
    /// The message of the error.
    pub fn message(&self) -> (r: String)
        ensures
            r@ == error_text(*self),
    {
        match self {
            StoreError::KeyNotFound => "key not found".to_string(),
            StoreError::ValueNotFound => "value not found".to_string(),
        }
    }
}

/// Writes each line and a line break to `output`.
fn write_lines(output: &mut Vec<u8>, lines: &Vec<String>)
    ensures
        final(output)@ == old(output)@ + lines_bytes(lines.deep_view()),
{
    let ghost start = output@;
    let mut i: usize = 0;
    assert(lines.deep_view().subrange(0, 0) =~= Seq::<Seq<char>>::empty());
    assert(output@ =~= start + lines_bytes(lines.deep_view().subrange(0, 0)));
    while i < lines.len()
        invariant
            i <= lines@.len(),
            output@ == start + lines_bytes(lines.deep_view().subrange(0, i as int)),
        decreases lines.len() - i,
    {
        let bytes = lines[i].as_str().as_bytes();
        let ghost before = output@;
        let mut b: usize = 0;
        while b < bytes.len()
            invariant
                b <= bytes@.len(),
                output@ == before + bytes@.subrange(0, b as int),
            decreases bytes.len() - b,
        {
            output.push(bytes[b]);
            assert(output@ =~= before + bytes@.subrange(0, b + 1));
            b = b + 1;
        }
        output.push(10u8);
        proof {
            assert(bytes@.subrange(0, bytes@.len() as int) =~= bytes@);
            assert(lines.deep_view().subrange(0, i + 1).drop_last() =~= lines.deep_view().subrange(0, i as int));
            assert(output@ =~= start + lines_bytes(lines.deep_view().subrange(0, i + 1)));
        }
        i = i + 1;
    }
    assert(lines.deep_view().subrange(0, lines.len() as int) =~= lines.deep_view());
}

/// Runs the commands of the key-value tool against a database.
pub struct Runner {
    pub database: FileDatabase,
}

impl Runner {
    pub fn new(database: FileDatabase) -> (r: Runner)
        ensures
            r.database == database,
    {
        Runner { database }
    }

    /// Runs the command `args[0]` (any case) with its arguments: `list`,
    /// `get`, `set`, `setk` (the command word and the other arguments but
    /// the last are the keys, the last is the value), `setv`, `update` (a
    /// key's name, or with four arguments one of its values), `duplicate`,
    /// `remove`, `delete` and `help`. Keys and values that are read go to
    /// `output`, one per line. `backup` and `undo` work on files and are left
    /// to the caller.
    pub fn run(&mut self, output: &mut Vec<u8>, args: &Vec<String>) -> (r: Result<(), String>)
        requires
            old(self).database.wf(),
        ensures
            final(self).database.wf(),
            final(self).database.path() == old(self).database.path(),
            args.len() == 0 ==> (r matches Err(m) && m@ == "not enough args to run"@),
            args.len() > 0 && lower_of(args@[0]@) == "set"@ && args.len() >= 3 ==> r is Ok
                && final(self).database.contents() == old(self).database.contents().insert(args@[1]@, seq![args@[2]@]),
            args.len() > 0 && lower_of(args@[0]@) == "setv"@ && args.len() >= 3 ==> r is Ok
                && final(self).database.contents() == appended(old(self).database.contents(), args@[1]@, args@[2]@),
            args.len() > 0 && lower_of(args@[0]@) == "setk"@ && args.len() >= 2 ==> r is Ok
                && final(self).database.contents() == appended_to_keys(
                old(self).database.contents(),
                args.deep_view().drop_last(),
                args@[args.len() - 1]@,
            ),
            args.len() > 0 && lower_of(args@[0]@) == "delete"@ && args.len() >= 2 ==> r is Ok
                && final(self).database.contents() == old(self).database.contents().remove(args@[1]@),
            args.len() > 0 && lower_of(args@[0]@) == "get"@ && args.len() >= 2 ==> (
                !old(self).database.contents().contains_key(args@[1]@) ==> (r matches Err(m) && m@ == "value not found"@))
                && (old(self).database.contents().contains_key(args@[1]@) ==> r is Ok && exists|vals: Values|
                names_sorted(vals) && vals.to_multiset() == old(self).database.contents()[args@[1]@].to_multiset()
                && final(output)@ == old(output)@ + lines_bytes(vals)),
            args.len() > 0 && lower_of(args@[0]@) != "list"@ && lower_of(args@[0]@) != "get"@ ==> final(output)@ == old(output)@,
            args.len() == 0 ==> final(output)@ == old(output)@,
            args.len() > 0 && !known_command(lower_of(args@[0]@)) ==> (r matches Err(m) && m@
                == "command not recognized"@),
            args.len() > 0 && (lower_of(args@[0]@) == "backup"@ || lower_of(args@[0]@) == "undo"@) ==> r is Err,
            args.len() > 0 && lower_of(args@[0]@) == "help"@ ==> r is Ok,
            r is Err ==> final(self).database.contents() == old(self).database.contents(),
    {
        proof {
            reveal_strlit("list");
            reveal_strlit("get");
            reveal_strlit("set");
            reveal_strlit("setk");
            reveal_strlit("setv");
            reveal_strlit("update");
            reveal_strlit("duplicate");
            reveal_strlit("remove");
            reveal_strlit("delete");
            reveal_strlit("backup");
            reveal_strlit("undo");
            reveal_strlit("help");
            assert("list"@.len() == 4 && "list"@[0] == 'l');
            assert("get"@.len() == 3 && "get"@[0] == 'g');
            assert("set"@.len() == 3 && "set"@[0] == 's');
            assert("setk"@.len() == 4 && "setk"@[0] == 's' && "setk"@[3] == 'k');
            assert("setv"@.len() == 4 && "setv"@[0] == 's' && "setv"@[3] == 'v');
            assert("update"@.len() == 6 && "update"@[0] == 'u');
            assert("duplicate"@.len() == 9);
            assert("remove"@.len() == 6 && "remove"@[0] == 'r');
            assert("delete"@.len() == 6 && "delete"@[0] == 'd');
            assert("backup"@.len() == 6 && "backup"@[0] == 'b');
            assert("undo"@.len() == 4 && "undo"@[0] == 'u');
            assert("help"@.len() == 4 && "help"@[0] == 'h');
        }
        if args.len() == 0 {
            return Err("not enough args to run".to_string());
        }
        let command = lowercase(args[0].as_str());
        let c = command.as_str();
        if chars_equal(c, "list") {
            let keys = self.database.list();
            write_lines(output, &keys);
            Ok(())
        } else if chars_equal(c, "get") {
            if args.len() < 2 {
                return Err("not enough args for get".to_string());
            }
            match self.database.get(args[1].as_str()) {
                Ok(values) => {
                    write_lines(output, &values);
                    Ok(())
                },
                Err(e) => Err(e.message()),
            }
        } else if chars_equal(c, "set") {
            if args.len() < 3 {
                return Err("not enough args for set command".to_string());
            }
            self.database.set(args[1].as_str(), args[2].as_str());
            Ok(())
        } else if chars_equal(c, "setk") {
            if args.len() < 2 {
                return Err("not enough args to set multiple keys".to_string());
            }
            self.database.set_multiple_keys(args);
            Ok(())
        } else if chars_equal(c, "setv") {
            if args.len() < 3 {
                return Err("not enough args to set multiple values".to_string());
            }
            self.database.set_multiple_values(args[1].as_str(), args[2].as_str());
            Ok(())
        } else if chars_equal(c, "update") {
            if args.len() < 3 {
                return Err("not enough args to update key name".to_string());
            }
            let done = if args.len() == 3 {
                self.database.update_key(args[1].as_str(), args[2].as_str())
            } else {
                self.database.update_value(args[1].as_str(), args[2].as_str(), args[3].as_str())
            };
            match done {
                Ok(()) => Ok(()),
                Err(e) => Err(e.message()),
            }
        } else if chars_equal(c, "duplicate") {
            if args.len() < 3 {
                return Err("not enough args to duplicate a key".to_string());
            }
            match self.database.duplicate(args[1].as_str(), args[2].as_str()) {
                Ok(()) => Ok(()),
                Err(e) => Err(e.message()),
            }
        } else if chars_equal(c, "remove") {
            if args.len() < 3 {
                return Err("not enough args for remove command".to_string());
            }
            match self.database.remove(args[1].as_str(), args[2].as_str()) {
                Ok(()) => Ok(()),
                Err(e) => Err(e.message()),
            }
        } else if chars_equal(c, "delete") {
            if args.len() < 2 {
                return Err("not enough args for delete command".to_string());
            }
            self.database.delete(args[1].as_str());
            Ok(())
        } else if chars_equal(c, "backup") || chars_equal(c, "undo") {
            Err("backup and undo work on the database file".to_string())
        } else if chars_equal(c, "help") {
            Ok(())
        } else {
            Err("command not recognized".to_string())
        }
    }
}

} // verus!
