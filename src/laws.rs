//! Properties of the checker as a whole, proved over the specifications of
//! the classifier, the reconciliation engine and the driver. Texts named
//! `up` and `down` here are already normalized (see `statement::normalized`).

use vstd::prelude::*;
use crate::driver::{
    first_failure, first_unreconciled, lemma_first_failure_prefix, lemma_first_failure_stays,
    run_failure,
};
use crate::pairing::MigrationPair;
use crate::reconcile::{
    TaggedKey, down_entries, drain, insert_keys, leftover_message, reconcile_messages, tagged,
    unmatched_message, up_entries, lemma_without,
};
use crate::statement::{
    Category, KeyView, category_keys, clean_name, drop_list_names, key_of, keys_for_names,
    nonempty_names,
};
use crate::text::{ends_with, split_on, strip_suffixes};

verus! {

/// What `insert_keys` holds.
pub proof fn lemma_insert_keys_contains(p: Seq<TaggedKey>, keys: Seq<TaggedKey>, x: TaggedKey)
    ensures
        insert_keys(p, keys).contains(x) <==> (p.contains(x) || keys.contains(x)),
    decreases keys.len(),
{
    if keys.len() > 0 {
        lemma_insert_keys_contains(p, keys.drop_last(), x);
        let q = insert_keys(p, keys.drop_last());
        if keys.contains(x) {
            let i = choose|i: int| 0 <= i < keys.len() && keys[i] == x;
            if i < keys.len() - 1 {
                assert(keys.drop_last()[i] == x);
            }
        }
        if keys.drop_last().contains(x) {
            let i = choose|i: int| 0 <= i < keys.len() - 1 && keys.drop_last()[i] == x;
            assert(keys[i] == x);
        }
        if !q.contains(keys.last()) {
            assert(q.push(keys.last())[q.len() as int] == keys.last());
            if q.contains(x) {
                let i = choose|i: int| 0 <= i < q.len() && q[i] == x;
                assert(q.push(keys.last())[i] == x);
            }
            if q.push(keys.last()).contains(x) && x != keys.last() {
                let i = choose|i: int| 0 <= i < q.len() + 1 && q.push(keys.last())[i] == x;
                assert(q[i] == x);
            }
        }
    }
}

/// After draining, a key is still pending exactly when it was pending before
/// and no entry named it under its category.
pub proof fn lemma_drain_left(p: Seq<TaggedKey>, entries: Seq<TaggedKey>, x: TaggedKey)
    ensures
        drain(p, entries).0.contains(x) <==> (p.contains(x) && !entries.contains(x)),
    decreases entries.len(),
{
    if entries.len() > 0 {
        let init = entries.drop_last();
        lemma_drain_left(p, init, x);
        let rest = drain(p, init).0;
        let e = entries.last();
        lemma_without(rest, e);
        lemma_concat_contains(init, seq![e], x);
        assert(entries =~= init + seq![e]);
    }
}

/// Membership in a concatenation.
pub proof fn lemma_concat_contains<A>(a: Seq<A>, b: Seq<A>, x: A)
    ensures
        (a + b).contains(x) <==> (a.contains(x) || b.contains(x)),
{
    if a.contains(x) {
        let i = choose|i: int| 0 <= i < a.len() && a[i] == x;
        assert((a + b)[i] == x);
    }
    if b.contains(x) {
        let i = choose|i: int| 0 <= i < b.len() && b[i] == x;
        assert((a + b)[a.len() + i] == x);
    }
    if (a + b).contains(x) {
        let i = choose|i: int| 0 <= i < a.len() + b.len() && (a + b)[i] == x;
        if i < a.len() {
            assert(a[i] == x);
        } else {
            assert(b[i - a.len()] == x);
        }
    }
}

/// A tagged list holds exactly its keys under its category.
pub proof fn lemma_tagged_contains(c: Category, keys: Seq<KeyView>, x: TaggedKey)
    ensures
        tagged(c, keys).contains(x) <==> (x.0 == c && keys.contains(x.1)),
{
    let t = tagged(c, keys);
    if t.contains(x) {
        let i = choose|i: int| 0 <= i < t.len() && t[i] == x;
        assert(keys[i] == x.1);
    }
    if x.0 == c && keys.contains(x.1) {
        let i = choose|i: int| 0 <= i < keys.len() && keys[i] == x.1;
        assert(t[i] == x);
    }
}

/// The tagged keys of an up-migration are those its categories find.
pub proof fn lemma_up_entries_contains(normal: Seq<char>, x: TaggedKey)
    ensures
        up_entries(normal).contains(x) <==> category_keys(x.0, normal).contains(x.1),
{
    let a = tagged(Category::Create, category_keys(Category::Create, normal));
    let b = tagged(Category::Add, category_keys(Category::Add, normal));
    let c = tagged(Category::DropColumn, category_keys(Category::DropColumn, normal));
    let d = tagged(Category::RenameColumn, category_keys(Category::RenameColumn, normal));
    let e = tagged(Category::Drop, category_keys(Category::Drop, normal));
    lemma_concat_contains(a, b, x);
    lemma_concat_contains(a + b, c, x);
    lemma_concat_contains(a + b + c, d, x);
    lemma_concat_contains(a + b + c + d, e, x);
    lemma_tagged_contains(Category::Create, category_keys(Category::Create, normal), x);
    lemma_tagged_contains(Category::Add, category_keys(Category::Add, normal), x);
    lemma_tagged_contains(Category::DropColumn, category_keys(Category::DropColumn, normal), x);
    lemma_tagged_contains(Category::RenameColumn, category_keys(Category::RenameColumn, normal), x);
    lemma_tagged_contains(Category::Drop, category_keys(Category::Drop, normal), x);
    match x.0 {
        Category::Create => {},
        Category::Add => {},
        Category::DropColumn => {},
        Category::RenameColumn => {},
        Category::Drop => {},
    }
}

/// The entries of a down-migration are the tagged keys its categories find.
pub proof fn lemma_down_entries_contains(normal: Seq<char>, x: TaggedKey)
    ensures
        down_entries(normal).contains(x) <==> category_keys(x.0, normal).contains(x.1),
{
    let a = tagged(Category::Create, category_keys(Category::Create, normal));
    let b = tagged(Category::DropColumn, category_keys(Category::DropColumn, normal));
    let c = tagged(Category::RenameColumn, category_keys(Category::RenameColumn, normal));
    let d = tagged(Category::Add, category_keys(Category::Add, normal));
    let e = tagged(Category::Drop, category_keys(Category::Drop, normal));
    lemma_concat_contains(a, b, x);
    lemma_concat_contains(a + b, c, x);
    lemma_concat_contains(a + b + c, d, x);
    lemma_concat_contains(a + b + c + d, e, x);
    lemma_tagged_contains(Category::Create, category_keys(Category::Create, normal), x);
    lemma_tagged_contains(Category::Add, category_keys(Category::Add, normal), x);
    lemma_tagged_contains(Category::DropColumn, category_keys(Category::DropColumn, normal), x);
    lemma_tagged_contains(Category::RenameColumn, category_keys(Category::RenameColumn, normal), x);
    lemma_tagged_contains(Category::Drop, category_keys(Category::Drop, normal), x);
    match x.0 {
        Category::Create => {},
        Category::Add => {},
        Category::DropColumn => {},
        Category::RenameColumn => {},
        Category::Drop => {},
    }
}

/// Round trip, leftover side: when every statement of the up-migration has a
/// statement of the same category naming the same entity in the
/// down-migration, no key is left over, and the only messages are those of
/// unmatched down-migration statements.
pub proof fn lemma_round_trip_leaves_nothing(up: Seq<char>, down: Seq<char>, version: nat)
    requires
        forall|c: Category, k: KeyView| #[trigger] category_keys(c, up).contains(k) ==> category_keys(
            c,
            down,
        ).contains(k),
    ensures
        drain(insert_keys(Seq::empty(), up_entries(up)), down_entries(down)).0.len() == 0,
        reconcile_messages(up, down, version) == drain(
            insert_keys(Seq::empty(), up_entries(up)),
            down_entries(down),
        ).1.map_values(|e: TaggedKey| unmatched_message(e, version)),
{
    let pending = insert_keys(Seq::empty(), up_entries(up));
    let left = drain(pending, down_entries(down)).0;
    if left.len() > 0 {
        let x = left[0];
        assert(left.contains(x));
        lemma_drain_left(pending, down_entries(down), x);
        lemma_insert_keys_contains(Seq::empty(), up_entries(up), x);
        lemma_up_entries_contains(up, x);
        lemma_down_entries_contains(down, x);
        assert(category_keys(x.0, up).contains(x.1));
    }
    let (l, u) = drain(pending, down_entries(down));
    let f = |e: TaggedKey| unmatched_message(e, version);
    let g = |k: TaggedKey| leftover_message(k, version);
    assert(l.map_values(g) =~= Seq::<Seq<char>>::empty());
    assert(reconcile_messages(up, down, version) =~= u.map_values(f) + l.map_values(g));
}

/// Draining entries that are all pending and pairwise distinct leaves none
/// unmatched.
pub proof fn lemma_drain_all_matched(p: Seq<TaggedKey>, entries: Seq<TaggedKey>)
    requires
        entries.no_duplicates(),
        forall|x: TaggedKey| #[trigger] entries.contains(x) ==> p.contains(x),
    ensures
        drain(p, entries).1.len() == 0,
    decreases entries.len(),
{
    if entries.len() > 0 {
        let init = entries.drop_last();
        let e = entries.last();
        assert(init.no_duplicates()) by {
            assert forall|i: int, j: int| 0 <= i < init.len() && 0 <= j < init.len() && i != j implies init[i] != init[j] by {
                assert(init[i] == entries[i] && init[j] == entries[j]);
            }
        }
        assert forall|x: TaggedKey| #[trigger] init.contains(x) implies p.contains(x) by {
            let i = choose|i: int| 0 <= i < init.len() && init[i] == x;
            assert(entries[i] == x);
            assert(entries.contains(x));
        }
        lemma_drain_all_matched(p, init);
        assert(entries[entries.len() - 1] == e);
        assert(entries.contains(e));
        assert(!init.contains(e)) by {
            if init.contains(e) {
                let i = choose|i: int| 0 <= i < init.len() && init[i] == e;
                assert(entries[i] == entries[entries.len() - 1]);
            }
        }
        lemma_drain_left(p, init, e);
    }
}

/// Round trip: when the down-migration holds, for each statement of the
/// up-migration, one statement of the same category naming the same entity,
/// and nothing else, the pair reconciles with no message at all.
pub proof fn lemma_round_trip_reconciles(up: Seq<char>, down: Seq<char>, version: nat)
    requires
        forall|c: Category, k: KeyView| #[trigger] category_keys(c, up).contains(k) <==> category_keys(
            c,
            down,
        ).contains(k),
        down_entries(down).no_duplicates(),
    ensures
        reconcile_messages(up, down, version).len() == 0,
{
    lemma_round_trip_leaves_nothing(up, down, version);
    let pending = insert_keys(Seq::empty(), up_entries(up));
    assert forall|x: TaggedKey| #[trigger] down_entries(down).contains(x) implies pending.contains(x) by {
        lemma_down_entries_contains(down, x);
        lemma_up_entries_contains(up, x);
        lemma_insert_keys_contains(Seq::empty(), up_entries(up), x);
    }
    lemma_drain_all_matched(pending, down_entries(down));
}

/// Leftover detection: a key that an up-migration statement of some category
/// touches and that no down-migration statement of the same category names
/// is reported as missing, with the pair's version. In particular a `CREATE`
/// in the up-migration answered only by a `DROP` in the down-migration fails.
pub proof fn lemma_leftover_reported(up: Seq<char>, down: Seq<char>, version: nat, c: Category, k: KeyView)
    requires
        category_keys(c, up).contains(k),
        !category_keys(c, down).contains(k),
    ensures
        reconcile_messages(up, down, version).contains(leftover_message((c, k), version)),
        reconcile_messages(up, down, version).len() > 0,
{
    let x = (c, k);
    let pending = insert_keys(Seq::empty(), up_entries(up));
    let entries = down_entries(down);
    let (l, u) = drain(pending, entries);
    lemma_up_entries_contains(up, x);
    lemma_down_entries_contains(down, x);
    lemma_insert_keys_contains(Seq::empty(), up_entries(up), x);
    lemma_drain_left(pending, entries, x);
    let i = choose|i: int| 0 <= i < l.len() && l[i] == x;
    let f = |e: TaggedKey| unmatched_message(e, version);
    let g = |k: TaggedKey| leftover_message(k, version);
    let all = u.map_values(f) + l.map_values(g);
    assert(all == reconcile_messages(up, down, version));
    assert(all[u.len() + i] == leftover_message(x, version));
}

/// Without commas, splitting gives the whole sequence.
proof fn lemma_split_without_sep(s: Seq<char>, sep: char)
    requires
        !s.contains(sep),
    ensures
        split_on(s, sep) == seq![s],
    decreases s.len(),
{
    if s.len() > 0 {
        assert(!s.drop_last().contains(sep)) by {
            if s.drop_last().contains(sep) {
                let i = choose|i: int| 0 <= i < s.len() - 1 && s.drop_last()[i] == sep;
                assert(s[i] == sep);
            }
        };
        lemma_split_without_sep(s.drop_last(), sep);
        assert(s.drop_last().push(s.last()) =~= s);
        assert(seq![s.drop_last()].update(0, s.drop_last().push(s.last())) =~= seq![s]);
    } else {
        assert(s =~= Seq::<char>::empty());
    }
}

/// CASCADE stripping: a `DROP` list with one entry names the same entities
/// with or without a trailing ` cascade`.
pub proof fn lemma_cascade_stripped(name: Seq<char>)
    requires
        !name.contains(','),
    ensures
        drop_list_names(name + " cascade"@) == drop_list_names(name),
{
    let suffix = " cascade"@;
    reveal_strlit(" cascade");
    let longer = name + suffix;
    assert(!longer.contains(',')) by {
        if longer.contains(',') {
            let i = choose|i: int| 0 <= i < longer.len() && longer[i] == ',';
            if i < name.len() {
                assert(name[i] == ',');
            } else {
                assert(suffix[i - name.len()] == ',');
            }
        }
    };
    lemma_split_without_sep(name, ',');
    lemma_split_without_sep(longer, ',');
    assert(longer.subrange(longer.len() - suffix.len(), longer.len() as int) =~= suffix);
    assert(ends_with(longer, suffix));
    assert(longer.subrange(0, longer.len() - suffix.len()) =~= name);
    assert(strip_suffixes(longer, suffix) == strip_suffixes(name, suffix));
    assert(clean_name(longer) == clean_name(name));
    assert(seq![longer].drop_last() =~= Seq::<Seq<char>>::empty());
    assert(seq![name].drop_last() =~= Seq::<Seq<char>>::empty());
}

/// The names of a `DROP` list are exactly its non-empty cleaned entries.
pub proof fn lemma_nonempty_names_contains(pieces: Seq<Seq<char>>, n: Seq<char>)
    ensures
        nonempty_names(pieces).contains(n) <==> (n.len() > 0 && pieces.map_values(
            |p: Seq<char>| clean_name(p),
        ).contains(n)),
    decreases pieces.len(),
{
    let cleaned = pieces.map_values(|p: Seq<char>| clean_name(p));
    if pieces.len() > 0 {
        let init = pieces.drop_last();
        lemma_nonempty_names_contains(init, n);
        let ci = init.map_values(|p: Seq<char>| clean_name(p));
        assert(cleaned =~= ci.push(clean_name(pieces.last())));
        lemma_concat_contains(ci, seq![clean_name(pieces.last())], n);
        assert(ci.push(clean_name(pieces.last())) =~= ci + seq![clean_name(pieces.last())]);
        let rest = nonempty_names(init);
        let name = clean_name(pieces.last());
        if name.len() > 0 {
            lemma_concat_contains(rest, seq![name], n);
            assert(rest.push(name) =~= rest + seq![name]);
        }
    } else {
        assert(cleaned =~= Seq::<Seq<char>>::empty());
    }
}

/// Order-insensitivity: two `DROP` lists whose cleaned entries form the same
/// set name the same set of keys, whatever the order of their entries.
pub proof fn lemma_drop_list_order_free(kind: Seq<char>, a: Seq<char>, b: Seq<char>)
    requires
        split_on(a, ',').map_values(|p: Seq<char>| clean_name(p)).to_set() == split_on(
            b,
            ',',
        ).map_values(|p: Seq<char>| clean_name(p)).to_set(),
    ensures
        keys_for_names(kind, drop_list_names(a)).to_set() == keys_for_names(
            kind,
            drop_list_names(b),
        ).to_set(),
{
    let ka = keys_for_names(kind, drop_list_names(a));
    let kb = keys_for_names(kind, drop_list_names(b));
    assert forall|x: KeyView| ka.to_set().contains(x) == kb.to_set().contains(x) by {
        lemma_nonempty_names_contains(split_on(a, ','), x.1);
        lemma_nonempty_names_contains(split_on(b, ','), x.1);
        let ca = split_on(a, ',').map_values(|p: Seq<char>| clean_name(p));
        let cb = split_on(b, ',').map_values(|p: Seq<char>| clean_name(p));
        assert(ca.to_set().contains(x.1) == ca.contains(x.1));
        assert(cb.to_set().contains(x.1) == cb.contains(x.1));
        lemma_keys_for_names_contains(kind, drop_list_names(a), x);
        lemma_keys_for_names_contains(kind, drop_list_names(b), x);
    }
    assert(ka.to_set() =~= kb.to_set());
}

/// A key is among the keys for some names exactly when its kind matches
/// and its name is one of them.
proof fn lemma_keys_for_names_contains(kind: Seq<char>, names: Seq<Seq<char>>, x: KeyView)
    ensures
        keys_for_names(kind, names).contains(x) <==> (x.0 == kind && names.contains(x.1)),
{
    let ks = keys_for_names(kind, names);
    if ks.contains(x) {
        let i = choose|i: int| 0 <= i < ks.len() && ks[i] == x;
        assert(names[i] == x.1);
    }
    if x.0 == kind && names.contains(x.1) {
        let i = choose|i: int| 0 <= i < names.len() && names[i] == x.1;
        assert(ks[i] == key_of(kind, names[i]));
        assert(ks[i] == x);
    }
}

/// Idempotence: the driver's verdict depends only on the contents of the
/// files, so two runs over texts with equal contents reach the same verdict.
pub proof fn lemma_verdict_repeatable(
    pairs: Seq<MigrationPair>,
    first: Seq<(String, String)>,
    second: Seq<(String, String)>,
    skip: Seq<usize>,
    k: nat,
)
    requires
        k <= pairs.len(),
        first.len() == pairs.len(),
        second.len() == pairs.len(),
        forall|j: int| 0 <= j < pairs.len() ==> (#[trigger] first[j]).0@ == second[j].0@ && first[j].1@
            == second[j].1@,
    ensures
        first_unreconciled(pairs, first, skip, k) == first_unreconciled(pairs, second, skip, k),
    decreases k,
{
    if k > 0 {
        lemma_verdict_repeatable(pairs, first, second, skip, (k - 1) as nat);
        let j = k - 1;
        assert(first[j as int].0@ == second[j as int].0@);
    }
}

/// Idempotence and fail-fast: the verdict of a run (`run_failure` over the
/// texts `Verifier::advance` records, which are the texts its caller handed
/// in for each reconciled pair) is a function of the file names, the skip
/// list and the texts of the pairs it reached. Two runs whose texts agree on
/// every pair up to the first failing one reach the same verdict, whatever
/// the later files hold; two runs on the same texts reach the same verdict.
pub proof fn lemma_run_verdict_repeatable(
    names: Seq<Seq<char>>,
    first: Seq<(Seq<char>, Seq<char>)>,
    second: Seq<(Seq<char>, Seq<char>)>,
    skip: Seq<usize>,
    k: nat,
)
    requires
        names.len() % 2 == 0,
        k <= names.len() / 2,
        first_failure(names, first, skip, k) is Some || k == names.len() / 2,
        forall|j: int| 0 <= j < k ==> #[trigger] first[j] == second[j],
    ensures
        run_failure(names, first, skip) == run_failure(names, second, skip),
{
    lemma_first_failure_prefix(names, first, second, skip, k);
    if first_failure(names, first, skip, k) is Some {
        lemma_first_failure_stays(names, first, skip, k, names.len() / 2);
        lemma_first_failure_stays(names, second, skip, k, names.len() / 2);
    }
}

} // verus!
