//! The reconciliation engine: each key an up-migration statement touches must
//! be touched again, by a statement of the same category, in its
//! down-migration. Pending keys carry their category, so a `DROP` in the
//! down-migration never answers a `CREATE` in the up-migration.

use vstd::prelude::*;
use crate::statement::{
    Category, EntityKey, KeyView, Patterns, category_keys, keys_view, normalized,
};
use crate::text::{chars_equal, decimal, decimal_string};

verus! {

/// A key together with the category of the statement that named it.
pub type TaggedKey = (Category, KeyView);

/// `pending` with `k` added, unless it is there already.
pub open spec fn insert_key(pending: Seq<TaggedKey>, k: TaggedKey) -> Seq<TaggedKey> {
    if pending.contains(k) {
        pending
    } else {
        pending.push(k)
    }
}

/// `pending` with each of `keys` added in turn.
pub open spec fn insert_keys(pending: Seq<TaggedKey>, keys: Seq<TaggedKey>) -> Seq<TaggedKey>
    decreases keys.len(),
{
    if keys.len() == 0 {
        pending
    } else {
        insert_key(insert_keys(pending, keys.drop_last()), keys.last())
    }
}

/// `pending` without `k`, order otherwise kept.
pub open spec fn without(pending: Seq<TaggedKey>, k: TaggedKey) -> Seq<TaggedKey>
    decreases pending.len(),
{
    if pending.len() == 0 {
        pending
    } else {
        let rest = without(pending.drop_last(), k);
        if pending.last() == k {
            rest
        } else {
            rest.push(pending.last())
        }
    }
}

/// Each key tagged with the category that produced it.
pub open spec fn tagged(category: Category, keys: Seq<KeyView>) -> Seq<TaggedKey> {
    keys.map_values(|k: KeyView| (category, k))
}

/// Consumes the down-migration's entries in order: an entry that is pending
/// (same category, same key) is removed; one that is not is recorded as
/// unmatched. Gives what is still pending and the unmatched entries.
pub open spec fn drain(pending: Seq<TaggedKey>, entries: Seq<TaggedKey>) -> (Seq<TaggedKey>, Seq<TaggedKey>)
    decreases entries.len(),
{
    if entries.len() == 0 {
        (pending, Seq::empty())
    } else {
        let (rest, unmatched) = drain(pending, entries.drop_last());
        let e = entries.last();
        if rest.contains(e) {
            (without(rest, e), unmatched)
        } else {
            (rest, unmatched.push(e))
        }
    }
}

/// The tagged keys an up-migration touches, from normalized text: `CREATE`,
/// `ADD`, `DROP COLUMN`, `RENAME COLUMN`, then `DROP` statements.
pub open spec fn up_entries(normal: Seq<char>) -> Seq<TaggedKey> {
    tagged(Category::Create, category_keys(Category::Create, normal)) + tagged(
        Category::Add,
        category_keys(Category::Add, normal),
    ) + tagged(Category::DropColumn, category_keys(Category::DropColumn, normal)) + tagged(
        Category::RenameColumn,
        category_keys(Category::RenameColumn, normal),
    ) + tagged(Category::Drop, category_keys(Category::Drop, normal))
}

/// The entries of a down-migration, from normalized text, in the order they
/// are consumed: `CREATE`, `DROP COLUMN`, `RENAME COLUMN`, `ADD`, then `DROP`.
pub open spec fn down_entries(normal: Seq<char>) -> Seq<TaggedKey> {
    tagged(Category::Create, category_keys(Category::Create, normal)) + tagged(
        Category::DropColumn,
        category_keys(Category::DropColumn, normal),
    ) + tagged(Category::RenameColumn, category_keys(Category::RenameColumn, normal)) + tagged(
        Category::Add,
        category_keys(Category::Add, normal),
    ) + tagged(Category::Drop, category_keys(Category::Drop, normal))
}

/// The words between the entity name and the version in an unmatched
/// statement's message.
pub open spec fn unmatched_phrase(category: Category) -> Seq<char> {
    match category {
        Category::Create => " not created for down migration "@,
        Category::DropColumn => " not dropped for down migration "@,
        Category::RenameColumn => " not renamed for down migration "@,
        Category::Add => " not added for down migration "@,
        Category::Drop => " not dropped in down migration "@,
    }
}

/// The words after the version in an unmatched statement's message.
pub open spec fn unmatched_tail(category: Category) -> Seq<char> {
    match category {
        Category::Drop => " (added in the up-migration)"@,
        _ => ""@,
    }
}

/// The message for a statement of a category, naming `name`, that found no
/// pending key.
pub open spec fn unmatched_line(category: Category, name: Seq<char>, version: nat) -> Seq<char> {
    name + unmatched_phrase(category) + decimal(version) + unmatched_tail(category)
}

/// The message for a down-migration entry that was not pending.
pub open spec fn unmatched_message(entry: TaggedKey, version: nat) -> Seq<char> {
    unmatched_line(entry.0, entry.1.1, version)
}

/// The message for an entity name of the up-migration that the
/// down-migration never touched.
pub open spec fn leftover_line(name: Seq<char>, version: nat) -> Seq<char> {
    name + " is missing from the down-migration "@ + decimal(version)
}

/// The message for a leftover key.
pub open spec fn leftover_message(k: TaggedKey, version: nat) -> Seq<char> {
    leftover_line(k.1.1, version)
}

/// Every message for one pair: the unmatched entries in order, then the
/// leftover keys in the order they were first added.
pub open spec fn reconcile_messages(up_normal: Seq<char>, down_normal: Seq<char>, version: nat) -> Seq<Seq<char>> {
    let pending = insert_keys(Seq::empty(), up_entries(up_normal));
    let (left, unmatched) = drain(pending, down_entries(down_normal));
    unmatched.map_values(|e: TaggedKey| unmatched_message(e, version)) + left.map_values(
        |k: TaggedKey| leftover_message(k, version),
    )
}

/// Adding a key keeps the keys distinct.
pub proof fn lemma_insert_key_distinct(p: Seq<TaggedKey>, k: TaggedKey)
    requires
        p.no_duplicates(),
    ensures
        insert_key(p, k).no_duplicates(),
{
    if !p.contains(k) {
        let q = p.push(k);
        assert forall|i: int, j: int| 0 <= i < q.len() && 0 <= j < q.len() && i != j implies q[i] != q[j] by {
            if i < p.len() && j < p.len() {
                assert(q[i] == p[i] && q[j] == p[j]);
            } else if i < p.len() {
                assert(q[i] == p[i]);
            } else if j < p.len() {
                assert(q[j] == p[j]);
            }
        }
    }
}

/// What `without` keeps, and that it keeps the keys distinct.
pub proof fn lemma_without(p: Seq<TaggedKey>, k: TaggedKey)
    ensures
        forall|x: TaggedKey| without(p, k).contains(x) <==> (p.contains(x) && x != k),
        p.no_duplicates() ==> without(p, k).no_duplicates(),
    decreases p.len(),
{
    if p.len() > 0 {
        let init = p.drop_last();
        lemma_without(init, k);
        let rest = without(init, k);
        assert forall|x: TaggedKey| without(p, k).contains(x) <==> (p.contains(x) && x != k) by {
            if p.contains(x) && x != k {
                let i = choose|i: int| 0 <= i < p.len() && p[i] == x;
                if i < p.len() - 1 {
                    assert(init[i] == x);
                    assert(init.contains(x));
                }
            }
            if init.contains(x) {
                let i = choose|i: int| 0 <= i < init.len() && init[i] == x;
                assert(p[i] == x);
            }
            if p.last() != k {
                assert(rest.push(p.last())[rest.len() as int] == p.last());
                if rest.contains(x) {
                    let i = choose|i: int| 0 <= i < rest.len() && rest[i] == x;
                    assert(rest.push(p.last())[i] == x);
                }
                if rest.push(p.last()).contains(x) && x != p.last() {
                    let i = choose|i: int| 0 <= i < rest.len() + 1 && rest.push(p.last())[i] == x;
                    assert(rest[i] == x);
                }
            }
        }
        if p.no_duplicates() {
            assert(init.no_duplicates()) by {
                assert forall|i: int, j: int| 0 <= i < init.len() && 0 <= j < init.len() && i != j implies init[i] != init[j] by {
                    assert(init[i] == p[i] && init[j] == p[j]);
                }
            }
            if p.last() != k {
                assert(!rest.contains(p.last())) by {
                    if init.contains(p.last()) {
                        let i = choose|i: int| 0 <= i < init.len() && init[i] == p.last();
                        assert(p[i] == p[p.len() - 1]);
                    }
                }
                let q = rest.push(p.last());
                assert forall|i: int, j: int| 0 <= i < q.len() && 0 <= j < q.len() && i != j implies q[i] != q[j] by {
                    if i < rest.len() && j < rest.len() {
                        assert(q[i] == rest[i] && q[j] == rest[j]);
                    } else if i < rest.len() {
                        assert(q[i] == rest[i]);
                        assert(rest.contains(q[i]));
                    } else if j < rest.len() {
                        assert(q[j] == rest[j]);
                        assert(rest.contains(q[j]));
                    }
                }
            }
        }
    }
}

/// Whether two tagged keys are equal.
pub fn same_entry(a: &(Category, EntityKey), b_category: Category, b: &EntityKey) -> (r: bool)
    ensures
        r == ((a.0, a.1@) == (b_category, b@)),
{
    a.0 == b_category && chars_equal(a.1.kind.as_str(), b.kind.as_str()) && chars_equal(
        a.1.name.as_str(),
        b.name.as_str(),
    )
}

/// The view of a list of tagged keys.
pub open spec fn tagged_view(v: Seq<(Category, EntityKey)>) -> Seq<TaggedKey> {
    v.map_values(|e: (Category, EntityKey)| (e.0, e.1@))
}

/// The keys touched by an up-migration and not yet matched in its
/// down-migration, each with its category, in the order they were first
/// added, each once.
pub struct PendingSet {
    keys: Vec<(Category, EntityKey)>,
}

impl View for PendingSet {
    type V = Seq<TaggedKey>;

    closed spec fn view(&self) -> Seq<TaggedKey> {
        tagged_view(self.keys@)
    }
}

impl PendingSet {
    /// An empty set.
    pub fn new() -> (r: PendingSet)
        ensures
            r@ == Seq::<TaggedKey>::empty(),
            r@.no_duplicates(),
    {
        let r = PendingSet { keys: Vec::new() };
        assert(r@ =~= Seq::<TaggedKey>::empty());
        r
    }

    /// The number of keys.
    pub fn len(&self) -> (r: usize)
        ensures
            r == self@.len(),
    {
        self.keys.len()
    }

    /// The key at position `i`.
    pub fn key_at(&self, i: usize) -> (r: &EntityKey)
        requires
            i < self@.len(),
        ensures
            r@ == self@[i as int].1,
    {
        &self.keys[i].1
    }

    /// Whether `k`, named by a statement of `category`, is in the set.
    pub fn contains(&self, category: Category, k: &EntityKey) -> (r: bool)
        ensures
            r == self@.contains((category, k@)),
    {
        let mut i: usize = 0;
        while i < self.keys.len()
            invariant
                i <= self.keys.len(),
                forall|t: int| 0 <= t < i ==> self@[t] != (category, k@),
            decreases self.keys.len() - i,
        {
            if same_entry(&self.keys[i], category, k) {
                assert(self@[i as int] == (category, k@));
                return true;
            }
            i = i + 1;
        }
        false
    }

    /// Adds `k` under `category` unless it is there already.
    pub fn insert(&mut self, category: Category, k: EntityKey)
        ensures
            final(self)@ == insert_key(old(self)@, (category, k@)),
            old(self)@.no_duplicates() ==> final(self)@.no_duplicates(),
    {
        proof {
            if old(self)@.no_duplicates() {
                lemma_insert_key_distinct(old(self)@, (category, k@));
            }
        }
        if !self.contains(category, &k) {
            let ghost before = self@;
            let ghost kv = k@;
            self.keys.push((category, k));
            assert(self@ =~= before.push((category, kv)));
        }
    }

    /// Removes `k` under `category`.
    pub fn remove(&mut self, category: Category, k: &EntityKey)
        ensures
            final(self)@ == without(old(self)@, (category, k@)),
            old(self)@.no_duplicates() ==> final(self)@.no_duplicates(),
    {
        proof {
            lemma_without(old(self)@, (category, k@));
        }
        let ghost all = self@;
        let mut kept: Vec<(Category, EntityKey)> = Vec::new();
        let mut i: usize = 0;
        assert(tagged_view(kept@) =~= without(all.subrange(0, 0), (category, k@)));
        while i < self.keys.len()
            invariant
                all == tagged_view(self.keys@),
                i <= self.keys.len(),
                tagged_view(kept@) == without(all.subrange(0, i as int), (category, k@)),
            decreases self.keys.len() - i,
        {
            assert(all.subrange(0, i + 1).drop_last() =~= all.subrange(0, i as int));
            if !same_entry(&self.keys[i], category, k) {
                let ghost prev = kept@;
                kept.push((self.keys[i].0, self.keys[i].1.duplicate()));
                assert(tagged_view(kept@) =~= tagged_view(prev).push(all[i as int]));
            }
            i = i + 1;
        }
        assert(all.subrange(0, all.len() as int) =~= all);
        self.keys = kept;
    }
}

/// Adds each key of `keys` to `set` under `category`, in order.
fn insert_all(set: &mut PendingSet, category: Category, keys: Vec<EntityKey>)
    ensures
        final(set)@ == insert_keys(old(set)@, tagged(category, keys_view(keys@))),
        old(set)@.no_duplicates() ==> final(set)@.no_duplicates(),
{
    let ghost start = set@;
    let ghost all = tagged(category, keys_view(keys@));
    let mut i: usize = 0;
    while i < keys.len()
        invariant
            i <= keys.len(),
            all == tagged(category, keys_view(keys@)),
            set@ == insert_keys(start, all.subrange(0, i as int)),
            start.no_duplicates() ==> set@.no_duplicates(),
        decreases keys.len() - i,
    {
        assert(all.subrange(0, i + 1).drop_last() =~= all.subrange(0, i as int));
        assert(all.subrange(0, i + 1).last() == (category, keys@[i as int]@));
        set.insert(category, keys[i].duplicate());
        i = i + 1;
    }
    assert(all.subrange(0, keys.len() as int) =~= all);
}

/// Adds to `set` every key the normalized up-migration text touches, each
/// under the category of the statement that named it.
pub fn parse_up_migration(set: &mut PendingSet, up_cleaned: &str, patterns: &Patterns)
    requires
        patterns.is_standard(),
    ensures
        final(set)@ == insert_keys(old(set)@, up_entries(up_cleaned@)),
        old(set)@.no_duplicates() ==> final(set)@.no_duplicates(),
{
    let ghost start = set@;
    let ghost n = up_cleaned@;
    let create = patterns.extract(Category::Create, up_cleaned);
    let add = patterns.extract(Category::Add, up_cleaned);
    let drop_column = patterns.extract(Category::DropColumn, up_cleaned);
    let rename_column = patterns.extract(Category::RenameColumn, up_cleaned);
    let drop = patterns.extract(Category::Drop, up_cleaned);
    let ghost a = tagged(Category::Create, category_keys(Category::Create, n));
    let ghost b = tagged(Category::Add, category_keys(Category::Add, n));
    let ghost c = tagged(Category::DropColumn, category_keys(Category::DropColumn, n));
    let ghost d = tagged(Category::RenameColumn, category_keys(Category::RenameColumn, n));
    let ghost e = tagged(Category::Drop, category_keys(Category::Drop, n));
    insert_all(set, Category::Create, create);
    insert_all(set, Category::Add, add);
    proof {
        lemma_insert_keys_append(start, a, b);
    }
    insert_all(set, Category::DropColumn, drop_column);
    proof {
        lemma_insert_keys_append(start, a + b, c);
    }
    insert_all(set, Category::RenameColumn, rename_column);
    proof {
        lemma_insert_keys_append(start, a + b + c, d);
    }
    insert_all(set, Category::Drop, drop);
    proof {
        lemma_insert_keys_append(start, a + b + c + d, e);
    }
}

/// Inserting two lists in turn is inserting their concatenation.
pub proof fn lemma_insert_keys_append(p: Seq<TaggedKey>, a: Seq<TaggedKey>, b: Seq<TaggedKey>)
    ensures
        insert_keys(insert_keys(p, a), b) == insert_keys(p, a + b),
    decreases b.len(),
{
    if b.len() == 0 {
        assert(a + b =~= a);
    } else {
        lemma_insert_keys_append(p, a, b.drop_last());
        assert((a + b).drop_last() =~= a + b.drop_last());
        assert((a + b).last() == b.last());
    }
}

/// Draining two lists in turn is draining their concatenation.
pub proof fn lemma_drain_append(p: Seq<TaggedKey>, a: Seq<TaggedKey>, b: Seq<TaggedKey>)
    ensures
        ({
            let (q, u) = drain(p, a);
            let (q2, u2) = drain(q, b);
            drain(p, a + b) == (q2, u + u2)
        }),
    decreases b.len(),
{
    if b.len() == 0 {
        assert(a + b =~= a);
        let (q, u) = drain(p, a);
        assert(u + Seq::<TaggedKey>::empty() =~= u);
    } else {
        lemma_drain_append(p, a, b.drop_last());
        assert((a + b).drop_last() =~= a + b.drop_last());
        assert((a + b).last() == b.last());
        let (q, u) = drain(p, a);
        let (q1, u1) = drain(q, b.drop_last());
        assert((u + u1).push(b.last()) =~= u + u1.push(b.last()));
    }
}

/// The message for an unmatched down-migration statement.
pub fn unmatched_text(category: Category, name: &str, version: usize) -> (r: String)
    ensures
        r@ == unmatched_line(category, name@, version as nat),
{
    let phrase = match category {
        Category::Create => " not created for down migration ",
        Category::DropColumn => " not dropped for down migration ",
        Category::RenameColumn => " not renamed for down migration ",
        Category::Add => " not added for down migration ",
        Category::Drop => " not dropped in down migration ",
    };
    let tail = match category {
        Category::Drop => " (added in the up-migration)",
        _ => "",
    };
    let mut r = name.to_string();
    r.append(phrase);
    let number = decimal_string(version);
    r.append(number.as_str());
    r.append(tail);
    r
}

/// The message for a key that the down-migration never touched.
pub fn leftover_text(name: &str, version: usize) -> (r: String)
    ensures
        r@ == leftover_line(name@, version as nat),
{
    let mut r = name.to_string();
    r.append(" is missing from the down-migration ");
    let number = decimal_string(version);
    r.append(number.as_str());
    r
}

/// Consumes one category's keys from `set`, adding a message for each key
/// that is not pending under that category.
fn drain_category(
    set: &mut PendingSet,
    messages: &mut Vec<String>,
    category: Category,
    keys: Vec<EntityKey>,
    version: usize,
)
    ensures
        ({
            let (q, u) = drain(old(set)@, tagged(category, keys_view(keys@)));
            &&& final(set)@ == q
            &&& final(messages).deep_view() == old(messages).deep_view() + u.map_values(
                |e: TaggedKey| unmatched_message(e, version as nat),
            )
        }),
        old(set)@.no_duplicates() ==> final(set)@.no_duplicates(),
{
    let ghost start = set@;
    let ghost msgs0 = messages.deep_view();
    let ghost entries = tagged(category, keys_view(keys@));
    let mut i: usize = 0;
    assert(entries.subrange(0, 0) =~= Seq::<TaggedKey>::empty());
    assert(msgs0 + Seq::<TaggedKey>::empty().map_values(
        |e: TaggedKey| unmatched_message(e, version as nat),
    ) =~= msgs0);
    while i < keys.len()
        invariant
            i <= keys.len(),
            entries == tagged(category, keys_view(keys@)),
            start.no_duplicates() ==> set@.no_duplicates(),
            ({
                let (q, u) = drain(start, entries.subrange(0, i as int));
                &&& set@ == q
                &&& messages.deep_view() == msgs0 + u.map_values(
                    |e: TaggedKey| unmatched_message(e, version as nat),
                )
            }),
        decreases keys.len() - i,
    {
        let k = &keys[i];
        assert(entries.subrange(0, i + 1).drop_last() =~= entries.subrange(0, i as int));
        assert(entries.subrange(0, i + 1).last() == (category, k@));
        let ghost (q, u) = drain(start, entries.subrange(0, i as int));
        if set.contains(category, k) {
            set.remove(category, k);
        } else {
            let m = unmatched_text(category, k.name.as_str(), version);
            let ghost before = messages.deep_view();
            messages.push(m);
            proof {
                let f = |e: TaggedKey| unmatched_message(e, version as nat);
                assert(u.push((category, k@)).map_values(f) =~= u.map_values(f).push(
                    unmatched_message((category, k@), version as nat),
                ));
                assert(messages.deep_view() =~= before.push(m@));
            }
        }
        i = i + 1;
    }
    assert(entries.subrange(0, keys.len() as int) =~= entries);
}

/// Consumes the keys the normalized down-migration text touches, category by
/// category, and gives a message for each that was not pending under its
/// category.
pub fn parse_down_migration(
    set: &mut PendingSet,
    down_cleaned: &str,
    migration_num: usize,
    patterns: &Patterns,
) -> (r: Vec<String>)
    requires
        patterns.is_standard(),
    ensures
        ({
            let (q, u) = drain(old(set)@, down_entries(down_cleaned@));
            &&& final(set)@ == q
            &&& r.deep_view() == u.map_values(|e: TaggedKey| unmatched_message(e, migration_num as nat))
        }),
        old(set)@.no_duplicates() ==> final(set)@.no_duplicates(),
{
    let ghost start = set@;
    let ghost n = down_cleaned@;
    let ghost a = tagged(Category::Create, category_keys(Category::Create, n));
    let ghost b = tagged(Category::DropColumn, category_keys(Category::DropColumn, n));
    let ghost c = tagged(Category::RenameColumn, category_keys(Category::RenameColumn, n));
    let ghost d = tagged(Category::Add, category_keys(Category::Add, n));
    let ghost e = tagged(Category::Drop, category_keys(Category::Drop, n));
    let ghost f = |x: TaggedKey| unmatched_message(x, migration_num as nat);
    let mut messages: Vec<String> = Vec::new();
    assert(messages.deep_view() =~= Seq::<Seq<char>>::empty());
    let create = patterns.extract(Category::Create, down_cleaned);
    drain_category(set, &mut messages, Category::Create, create, migration_num);
    assert(Seq::<Seq<char>>::empty() + drain(start, a).1.map_values(f) =~= drain(start, a).1.map_values(f));
    let drop_column = patterns.extract(Category::DropColumn, down_cleaned);
    drain_category(set, &mut messages, Category::DropColumn, drop_column, migration_num);
    proof {
        lemma_drain_append(start, a, b);
        lemma_map_append(drain(start, a).1, drain(drain(start, a).0, b).1, f);
    }
    let rename_column = patterns.extract(Category::RenameColumn, down_cleaned);
    drain_category(set, &mut messages, Category::RenameColumn, rename_column, migration_num);
    proof {
        lemma_drain_append(start, a + b, c);
        lemma_map_append(drain(start, a + b).1, drain(drain(start, a + b).0, c).1, f);
    }
    let add = patterns.extract(Category::Add, down_cleaned);
    drain_category(set, &mut messages, Category::Add, add, migration_num);
    proof {
        lemma_drain_append(start, a + b + c, d);
        lemma_map_append(drain(start, a + b + c).1, drain(drain(start, a + b + c).0, d).1, f);
    }
    let drop = patterns.extract(Category::Drop, down_cleaned);
    drain_category(set, &mut messages, Category::Drop, drop, migration_num);
    proof {
        lemma_drain_append(start, a + b + c + d, e);
        lemma_map_append(
            drain(start, a + b + c + d).1,
            drain(drain(start, a + b + c + d).0, e).1,
            f,
        );
    }
    messages
}

/// Mapping a concatenation maps each part.
proof fn lemma_map_append<A, B>(x: Seq<A>, y: Seq<A>, f: spec_fn(A) -> B)
    ensures
        (x + y).map_values(f) == x.map_values(f) + y.map_values(f),
{
    assert((x + y).map_values(f) =~= x.map_values(f) + y.map_values(f));
}

} // verus!
