//! Named bookmark items and the lists that hold them.

use vstd::prelude::*;
use std::collections::HashMap;
use vstd::utf8::{decode_utf8, encode_utf8, is_char_boundary};
use crate::text::{
    chars_equal, has_prefix, remove_ellipses, split_at_white_space, split_white, starts_with,
    without_ellipses,
};

verus! {

/// A bookmark: a name and a value, usually holding a link.
#[derive(Debug, Clone)]
pub struct Item {
    pub name: String,
    pub value: String,
}

/// An item as plain text: (name, value).
pub type ItemView = (Seq<char>, Seq<char>);

impl View for Item {
    type V = ItemView;

    open spec fn view(&self) -> ItemView {
        (self.name@, self.value@)
    }
}

/// A named list of items, each name at most once.
#[derive(Debug, Default)]
pub struct List {
    pub name: String,
    pub items: Vec<Item>,
}

/// The views of a list of items.
pub open spec fn items_view(items: Seq<Item>) -> Seq<ItemView> {
    items.map_values(|i: Item| i@)
}

/// A name shortened for display: its first fifteen UTF-8 bytes and `...`
/// when it is longer than that.
pub open spec fn short_form(name: Seq<char>) -> Seq<char> {
    if encode_utf8(name).len() > 15 {
        decode_utf8(encode_utf8(name).subrange(0, 15)) + "..."@
    } else {
        name
    }
}

/// Whether a name can be shortened: its byte length fits in a `usize`, and
/// it has fifteen bytes or fewer or a character ends at its fifteenth byte
/// (cutting inside a character would panic).
pub open spec fn shortenable(name: Seq<char>) -> bool {
    &&& encode_utf8(name).len() <= usize::MAX
    &&& (encode_utf8(name).len() <= 15 || is_char_boundary(encode_utf8(name), 15))
}

/// Whether a word is a web link.
pub open spec fn is_link(word: Seq<char>) -> bool {
    starts_with(word, "http://"@) || starts_with(word, "https://"@)
}

/// The first link among `words`.
pub open spec fn first_link(words: Seq<Seq<char>>) -> Option<Seq<char>>
    decreases words.len(),
{
    if words.len() == 0 {
        None
    } else if is_link(words[0]) {
        Some(words[0])
    } else {
        first_link(words.skip(1))
    }
}

/// The link of a value: its first white-space separated word that is a
/// link, or the whole value when none is.
pub open spec fn link_of(value: Seq<char>) -> Seq<char> {
    match first_link(split_white(value)) {
        Some(w) => w,
        None => value,
    }
}

/// Whether an item answers to `name`, by its full name or by its shortened
/// name without the dots.
pub open spec fn answers_to(item: ItemView, name: Seq<char>) -> bool {
    item.0 == name || without_ellipses(short_form(item.0)) == name
}

/// `items` without those called `name`, order kept.
pub open spec fn without_item(items: Seq<ItemView>, name: Seq<char>) -> Seq<ItemView>
    decreases items.len(),
{
    if items.len() == 0 {
        items
    } else {
        let rest = without_item(items.drop_last(), name);
        if items.last().0 == name {
            rest
        } else {
            rest.push(items.last())
        }
    }
}

/// Relies on `HashMap::insert`: afterwards the map holds `v` under `k`, and
/// every other entry is kept.
#[verifier::external_body]
pub(crate) fn insert_entry<V>(m: &mut HashMap<String, V>, k: String, v: V)
    ensures
        final(m)@ == old(m)@.insert(k, v),
{
    m.insert(k, v);
}

impl Item {
    pub fn new(name: String, value: String) -> (r: Item)
        ensures
            r.name == name,
            r.value == value,
    {
        Item { name, value }
    }

    /// The name, shortened to its first fifteen bytes and `...` when longer.
    pub fn short_name(&self) -> (r: String)
        requires
            shortenable(self.name@),
        ensures
            r@ == short_form(self.name@),
    {
        let s = self.name.as_str();
        if s.len() > 15 {
            let (head, _) = s.split_at(15);
            proof {
                vstd::utf8::encode_utf8_decode_utf8(head@);
            }
            let mut r = head.to_string();
            r.append("...");
            r
        } else {
            self.name.clone()
        }
    }

    /// The first word of the value that is a link, or the whole value.
    pub fn url(&self) -> (r: String)
        ensures
            r@ == link_of(self.value@),
    {
        let words = split_at_white_space(self.value.as_str());
        let mut i: usize = 0;
        assert(words.deep_view().skip(0) =~= words.deep_view());
        while i < words.len()
            invariant
                words.deep_view() == split_white(self.value@),
                i <= words.len(),
                first_link(words.deep_view()) == first_link(words.deep_view().skip(i as int)),
            decreases words.len() - i,
        {
            let w = words[i].as_str();
            assert(words.deep_view().skip(i as int)[0] == w@);
            assert(words.deep_view().skip(i as int).skip(1) =~= words.deep_view().skip(i + 1));
            if has_prefix(w, "http://") || has_prefix(w, "https://") {
                return words[i].clone();
            }
            i = i + 1;
        }
        assert(words.deep_view().skip(i as int) =~= Seq::<Seq<char>>::empty());
        self.value.clone()
    }

    /// A map holding the value under the name.
    pub fn to_hash(&self) -> (r: HashMap<String, String>)
        ensures
            exists|k: String| #[trigger] r@.dom() == set![k] && k@ == self.name@ && r@[k]@ == self.value@,
    {
        let mut map: HashMap<String, String> = HashMap::new();
        let k = self.name.clone();
        let v = self.value.clone();
        insert_entry(&mut map, k, v);
        assert(map@.dom() =~= set![k]);
        map
    }
}

impl List {
    /// An empty list.
    pub fn new(name: String) -> (r: List)
        ensures
            r.name == name,
            r.items@.len() == 0,
    {
        List { name, items: Vec::new() }
    }

    /// Adds `item`, replacing any item of the same name.
    pub fn add_item(&mut self, item: Item)
        ensures
            final(self).name == old(self).name,
            items_view(final(self).items@) == without_item(items_view(old(self).items@), item.name@).push(
                item@,
            ),
    {
        let ghost it = item@;
        self.delete_item(item.name.as_str());
        let ghost before = self.items@;
        self.items.push(item);
        assert(items_view(self.items@) =~= items_view(before).push(it));
    }

    /// The first item answering to `name`, by its full name or by its
    /// shortened name without the dots.
    pub fn find_item(&self, name: &str) -> (r: Option<&Item>)
        requires
            forall|i: int| 0 <= i < self.items@.len() ==> shortenable(#[trigger] self.items@[i].name@),
        ensures
            r is None ==> forall|i: int| 0 <= i < self.items@.len() ==> !answers_to(
                #[trigger] self.items@[i]@,
                name@,
            ),
            r matches Some(found) ==> exists|i: int|
                0 <= i < self.items@.len() && #[trigger] self.items@[i] == *found && answers_to(
                    found@,
                    name@,
                ) && forall|j: int| 0 <= j < i ==> !answers_to(#[trigger] self.items@[j]@, name@),
    {
        let mut i: usize = 0;
        while i < self.items.len()
            invariant
                i <= self.items@.len(),
                forall|i: int| 0 <= i < self.items@.len() ==> shortenable(#[trigger] self.items@[i].name@),
                forall|j: int| 0 <= j < i ==> !answers_to(#[trigger] self.items@[j]@, name@),
            decreases self.items.len() - i,
        {
            let item = &self.items[i];
            let short = item.short_name();
            let bare = remove_ellipses(short.as_str());
            if chars_equal(item.name.as_str(), name) || chars_equal(bare.as_str(), name) {
                return Some(item);
            }
            i = i + 1;
        }
        None
    }

    /// Removes every item called `name`.
    pub fn delete_item(&mut self, name: &str)
        ensures
            final(self).name == old(self).name,
            items_view(final(self).items@) == without_item(items_view(old(self).items@), name@),
    {
        let ghost all = items_view(self.items@);
        let mut kept: Vec<Item> = Vec::new();
        let mut i: usize = 0;
        assert(items_view(kept@) =~= without_item(all.subrange(0, 0), name@));
        while i < self.items.len()
            invariant
                all == items_view(self.items@),
                i <= self.items.len(),
                items_view(kept@) == without_item(all.subrange(0, i as int), name@),
            decreases self.items.len() - i,
        {
            assert(all.subrange(0, i + 1).drop_last() =~= all.subrange(0, i as int));
            if !chars_equal(self.items[i].name.as_str(), name) {
                let ghost prev = kept@;
                let copy = Item { name: self.items[i].name.clone(), value: self.items[i].value.clone() };
                kept.push(copy);
                assert(items_view(kept@) =~= items_view(prev).push(all[i as int]));
            }
            i = i + 1;
        }
        assert(all.subrange(0, all.len() as int) =~= all);
        self.items = kept;
    }

    /// A map holding, under the list's name, each item's map in order.
    pub fn to_hash(&self) -> (r: HashMap<String, Vec<HashMap<String, String>>>)
        ensures
            exists|k: String| #[trigger] r@.dom() == set![k] && k@ == self.name@ && r@[k]@.len()
                == self.items@.len() && forall|i: int| 0 <= i < self.items@.len() ==> exists|
                    key: String,
                | #[trigger] r@[k]@[i]@.dom() == set![key] && key@ == self.items@[i].name@
                    && r@[k]@[i]@[key]@ == self.items@[i].value@,
    {
        let mut entries: Vec<HashMap<String, String>> = Vec::new();
        let mut i: usize = 0;
        while i < self.items.len()
            invariant
                i <= self.items@.len(),
                entries@.len() == i,
                forall|t: int| 0 <= t < i ==> exists|key: String| #[trigger] entries@[t]@.dom()
                    == set![key] && key@ == self.items@[t].name@ && entries@[t]@[key]@
                    == self.items@[t].value@,
            decreases self.items.len() - i,
        {
            entries.push(self.items[i].to_hash());
            i = i + 1;
        }
        let mut map: HashMap<String, Vec<HashMap<String, String>>> = HashMap::new();
        let k = self.name.clone();
        insert_entry(&mut map, k, entries);
        assert(map@.dom() =~= set![k]);
        map
    }
}

/// A list as plain text: its name and its items.
pub open spec fn list_view(l: List) -> (Seq<char>, Seq<ItemView>) {
    (l.name@, items_view(l.items@))
}

/// Every item of every list, list by list.
pub open spec fn all_items(lists: Seq<List>) -> Seq<Item>
    decreases lists.len(),
{
    if lists.len() == 0 {
        Seq::empty()
    } else {
        all_items(lists.drop_last()) + lists.last().items@
    }
}

/// `sorted[a]` is `lists[idx[a]]` for distinct indices, and lists counted
/// alike keep their order.
pub open spec fn sorted_from(sorted: Seq<&List>, lists: Seq<List>, idx: Seq<int>) -> bool {
    &&& idx.len() == sorted.len()
    &&& forall|a: int| 0 <= a < idx.len() ==> 0 <= #[trigger] idx[a] < lists.len() && *sorted[a]
        == lists[idx[a]]
    &&& forall|a: int, b: int| 0 <= a < b < idx.len() ==> #[trigger] idx[a] != #[trigger] idx[b]
    &&& forall|a: int, b: int| 0 <= a < b < idx.len() && (#[trigger] sorted[a]).items@.len() == (
    #[trigger] sorted[b]).items@.len() ==> idx[a] < idx[b]
}

/// The bookmark lists kept in one JSON file.
#[derive(Debug, Default)]
pub struct Storage {
    pub json_file_path: String,
    pub lists: Vec<List>,
}

impl Storage {
    /// A storage for the file at `json_file_path` holding `lists`.
    pub fn with_lists(json_file_path: String, lists: Vec<List>) -> (r: Storage)
        ensures
            r.json_file_path == json_file_path,
            r.lists == lists,
    {
        Storage { json_file_path, lists }
    }

    /// The lists, those with more items first; lists with as many items keep
    /// their order.
    pub fn lists(&self) -> (r: Vec<&List>)
        ensures
            r@.len() == self.lists@.len(),
            forall|a: int, b: int| 0 <= a < b < r@.len() ==> (#[trigger] r@[a]).items@.len() >= (
            #[trigger] r@[b]).items@.len(),
            r@.map_values(|l: &List| list_view(*l)).to_multiset() == self.lists@.map_values(
                |l: List| list_view(l),
            ).to_multiset(),
            exists|idx: Seq<int>| #[trigger] sorted_from(r@, self.lists@, idx),
    {
        let mut out: Vec<&List> = Vec::new();
        let ghost mut idx: Seq<int> = Seq::empty();
        let ghost f = |l: &List| list_view(*l);
        let ghost g = |l: List| list_view(l);
        let mut i: usize = 0;
        assert(out@.map_values(f).to_multiset() =~= self.lists@.subrange(0, 0).map_values(g).to_multiset()) by {
            assert(out@.map_values(f) =~= Seq::<(Seq<char>, Seq<ItemView>)>::empty());
            assert(self.lists@.subrange(0, 0).map_values(g) =~= Seq::<(Seq<char>, Seq<ItemView>)>::empty());
        };
        while i < self.lists.len()
            invariant
                i <= self.lists@.len(),
                out@.len() == i,
                f == (|l: &List| list_view(*l)),
                g == (|l: List| list_view(l)),
                forall|a: int, b: int| 0 <= a < b < out@.len() ==> (#[trigger] out@[a]).items@.len()
                    >= (#[trigger] out@[b]).items@.len(),
                out@.map_values(f).to_multiset() == self.lists@.subrange(0, i as int).map_values(
                    g,
                ).to_multiset(),
                idx.len() == out@.len(),
                forall|a: int| 0 <= a < idx.len() ==> 0 <= #[trigger] idx[a] < i && *out@[a]
                    == self.lists@[idx[a]],
                forall|a: int, b: int| 0 <= a < b < idx.len() ==> #[trigger] idx[a] != #[trigger] idx[b],
                forall|a: int, b: int| 0 <= a < b < idx.len() && (#[trigger] out@[a]).items@.len() == (
                #[trigger] out@[b]).items@.len() ==> idx[a] < idx[b],
            decreases self.lists.len() - i,
        {
            let x = &self.lists[i];
            let n = x.items.len();
            let mut p: usize = 0;
            while p < out.len() && out[p].items.len() >= n
                invariant
                    p <= out@.len(),
                    forall|k: int| 0 <= k < p ==> (#[trigger] out@[k]).items@.len() >= n,
                decreases out.len() - p,
            {
                p = p + 1;
            }
            let ghost before = out@;
            let ghost idx0 = idx;
            out.insert(p, x);
            proof {
                idx = idx0.insert(p as int, i as int);
                assert forall|a: int| 0 <= a < idx.len() implies 0 <= #[trigger] idx[a] < i + 1 && *out@[a]
                    == self.lists@[idx[a]] by {
                    if a < p {
                        assert(idx[a] == idx0[a] && out@[a] == before[a]);
                    } else if a > p {
                        assert(idx[a] == idx0[a - 1] && out@[a] == before[a - 1]);
                    }
                }
                assert forall|a: int, b: int| 0 <= a < b < idx.len() implies #[trigger] idx[a] != #[trigger] idx[b] by {
                    let a0 = if a < p { a } else { a - 1 };
                    let b0 = if b < p { b } else { b - 1 };
                    if a != p && b != p {
                        assert(idx[a] == idx0[a0] && idx[b] == idx0[b0]);
                    } else if a == p {
                        assert(idx[b] == idx0[b0]);
                    } else {
                        assert(idx[a] == idx0[a0]);
                    }
                }
                assert forall|a: int, b: int| 0 <= a < b < idx.len() && (#[trigger] out@[a]).items@.len() == (
                #[trigger] out@[b]).items@.len() implies idx[a] < idx[b] by {
                    if a < p && b < p {
                        assert(idx[a] == idx0[a] && idx[b] == idx0[b] && out@[a] == before[a] && out@[b] == before[b]);
                    } else if a < p && b == p {
                        assert(idx[a] == idx0[a]);
                    } else if a < p && b > p {
                        assert(idx[a] == idx0[a] && idx[b] == idx0[b - 1] && out@[a] == before[a] && out@[b] == before[b - 1]);
                    } else if a == p {
                        assert(out@[b] == before[b - 1]);
                        assert(before[p as int].items@.len() < n);
                        if b - 1 > p {
                            assert(before[p as int].items@.len() >= before[b - 1].items@.len());
                        }
                    } else {
                        assert(idx[a] == idx0[a - 1] && idx[b] == idx0[b - 1] && out@[a] == before[a - 1] && out@[b] == before[b - 1]);
                    }
                }
                assert(out@ == before.insert(p as int, x));
                assert forall|a: int, b: int| 0 <= a < b < out@.len() implies (
                #[trigger] out@[a]).items@.len() >= (#[trigger] out@[b]).items@.len() by {
                    if a < p && b == p {
                    } else if a == p && b > p {
                        assert(out@[b] == before[b - 1]);
                        if p < before.len() {
                            assert(before[p as int].items@.len() < n);
                        }
                    } else if a < p && b > p {
                        assert(out@[a] == before[a] && out@[b] == before[b - 1]);
                    } else if a > p {
                        assert(out@[a] == before[a - 1] && out@[b] == before[b - 1]);
                    } else {
                        assert(out@[a] == before[a] && out@[b] == before[b]);
                    }
                }
                assert(out@.map_values(f) =~= before.map_values(f).insert(p as int, list_view(*x)));
                vstd::seq_lib::to_multiset_insert(before.map_values(f), p as int, list_view(*x));
                assert(self.lists@.subrange(0, i + 1).map_values(g) =~= self.lists@.subrange(
                    0,
                    i as int,
                ).map_values(g).push(list_view(*x)));
                vstd::seq_lib::to_multiset_build(self.lists@.subrange(0, i as int).map_values(g), list_view(*x));
            }
            i = i + 1;
        }
        assert(self.lists@.subrange(0, self.lists.len() as int) =~= self.lists@);
        assert(sorted_from(out@, self.lists@, idx));
        out
    }

    /// Whether a list is called `name`.
    pub fn list_exists(&self, name: &str) -> (r: bool)
        ensures
            r == exists|i: int| 0 <= i < self.lists@.len() && (#[trigger] self.lists@[i]).name@ == name@,
    {
        let mut i: usize = 0;
        while i < self.lists.len()
            invariant
                i <= self.lists@.len(),
                forall|t: int| 0 <= t < i ==> (#[trigger] self.lists@[t]).name@ != name@,
            decreases self.lists.len() - i,
        {
            if chars_equal(self.lists[i].name.as_str(), name) {
                return true;
            }
            i = i + 1;
        }
        false
    }

    /// Every item of every list, list by list.
    pub fn items(&self) -> (r: Vec<&Item>)
        ensures
            r@.len() == all_items(self.lists@).len(),
            forall|k: int| 0 <= k < r@.len() ==> *(#[trigger] r@[k]) == all_items(self.lists@)[k],
    {
        let mut out: Vec<&Item> = Vec::new();
        let mut i: usize = 0;
        while i < self.lists.len()
            invariant
                i <= self.lists@.len(),
                out@.len() == all_items(self.lists@.subrange(0, i as int)).len(),
                forall|k: int| 0 <= k < out@.len() ==> *(#[trigger] out@[k]) == all_items(
                    self.lists@.subrange(0, i as int),
                )[k],
            decreases self.lists.len() - i,
        {
            let list = &self.lists[i];
            let ghost done = all_items(self.lists@.subrange(0, i as int));
            assert(self.lists@.subrange(0, i + 1).drop_last() =~= self.lists@.subrange(0, i as int));
            let mut j: usize = 0;
            while j < list.items.len()
                invariant
                    j <= list.items@.len(),
                    out@.len() == done.len() + j,
                    forall|k: int| 0 <= k < out@.len() ==> *(#[trigger] out@[k]) == (done
                        + list.items@)[k],
                decreases list.items.len() - j,
            {
                out.push(&list.items[j]);
                j = j + 1;
            }
            i = i + 1;
        }
        assert(self.lists@.subrange(0, self.lists.len() as int) =~= self.lists@);
        out
    }

    /// Whether some list holds an item called `name`.
    pub fn item_exists(&self, name: &str) -> (r: bool)
        ensures
            r == exists|k: int| 0 <= k < all_items(self.lists@).len() && (#[trigger] all_items(
                self.lists@,
            )[k]).name@ == name@,
    {
        let items = self.items();
        let mut k: usize = 0;
        while k < items.len()
            invariant
                k <= items@.len(),
                items@.len() == all_items(self.lists@).len(),
                forall|t: int| 0 <= t < items@.len() ==> *(#[trigger] items@[t]) == all_items(self.lists@)[t],
                forall|t: int| 0 <= t < k ==> (#[trigger] all_items(self.lists@)[t]).name@ != name@,
            decreases items.len() - k,
        {
            if chars_equal(items[k].name.as_str(), name) {
                assert(*items@[k as int] == all_items(self.lists@)[k as int]);
                return true;
            }
            k = k + 1;
        }
        false
    }
}

} // verus!
