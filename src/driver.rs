//! The verification driver: checks the pairs of a directory in order, one
//! pair at a time, and stops at the first pair that fails for any reason,
//! whether its naming, its numbering or its reconciliation.

use vstd::prelude::*;
use crate::pairing::{CheckError, Failure, MigrationPair, check_pair, pair_built_from, pair_failure, sort_file_names};
use crate::text::names_sorted;
use crate::reconcile::{
    PendingSet, leftover_message, leftover_text, parse_down_migration, parse_up_migration,
    reconcile_messages,
};
use crate::statement::{Patterns, normalized, regex_compiles_all};

verus! {

/// The messages for one pair given the raw texts of its two files; empty when
/// the pair reconciles.
pub open spec fn pair_messages(up_text: Seq<char>, down_text: Seq<char>, version: nat) -> Seq<Seq<char>> {
    reconcile_messages(normalized(up_text), normalized(down_text), version)
}

/// Whether the pair with this version is left out of reconciliation.
pub open spec fn skipped(version: usize, skip: Seq<usize>) -> bool {
    skip.contains(version)
}

/// The failure of the first pair among the first `k` that is not skipped
/// and does not reconcile; `texts[j]` holds the up and down texts of pair `j`.
pub open spec fn first_unreconciled(
    pairs: Seq<MigrationPair>,
    texts: Seq<(String, String)>,
    skip: Seq<usize>,
    k: nat,
) -> Option<Failure>
    decreases k,
{
    if k == 0 {
        None
    } else {
        match first_unreconciled(pairs, texts, skip, (k - 1) as nat) {
            Some(f) => Some(f),
            None => {
                let j = k - 1;
                let v = pairs[j].version;
                let m = pair_messages(texts[j].0@, texts[j].1@, v as nat);
                if !skipped(v, skip) && m.len() > 0 {
                    Some(Failure::Unreconciled(v as nat, m))
                } else {
                    None
                }
            },
        }
    }
}

/// Reconciles one pair: every key the up-migration touches must be touched by
/// a same-category statement of the down-migration. Gives one message per
/// unmatched down-migration statement, then one per leftover key.
pub fn reconcile_pair(patterns: &Patterns, up_text: &str, down_text: &str, version: usize) -> (r: Vec<String>)
    requires
        patterns.is_standard(),
    ensures
        r.deep_view() == pair_messages(up_text@, down_text@, version as nat),
{
    let up = patterns.normalize(up_text);
    let down = patterns.normalize(down_text);
    let mut set = PendingSet::new();
    parse_up_migration(&mut set, up.as_str(), patterns);
    let ghost pending = set@;
    let mut messages = parse_down_migration(&mut set, down.as_str(), version, patterns);
    let ghost unmatched = messages.deep_view();
    let ghost f = |k: crate::reconcile::TaggedKey| leftover_message(k, version as nat);
    let mut i: usize = 0;
    while i < set.len()
        invariant
            i <= set@.len(),
            messages.deep_view() == unmatched + set@.subrange(0, i as int).map_values(f),
            f == (|k: crate::reconcile::TaggedKey| leftover_message(k, version as nat)),
        decreases set@.len() - i,
    {
        let k = set.key_at(i);
        let m = leftover_text(k.name.as_str(), version);
        let ghost before = messages.deep_view();
        messages.push(m);
        proof {
            assert(set@.subrange(0, i + 1).map_values(f) =~= set@.subrange(0, i as int).map_values(
                f,
            ).push(leftover_message(set@[i as int], version as nat)));
            assert(messages.deep_view() =~= before.push(m@));
        }
        i = i + 1;
    }
    assert(set@.subrange(0, set@.len() as int) =~= set@);
    messages
}

/// Whether `version` is on the skip list.
pub fn is_skipped(version: usize, skip: &Vec<usize>) -> (r: bool)
    ensures
        r == skipped(version, skip@),
{
    let mut i: usize = 0;
    while i < skip.len()
        invariant
            i <= skip.len(),
            forall|t: int| 0 <= t < i ==> skip@[t] != version,
        decreases skip.len() - i,
    {
        if skip[i] == version {
            assert(skip@[i as int] == version);
            return true;
        }
        i = i + 1;
    }
    false
}

/// Reconciles pairs that the pairer already accepted, in order, leaving out
/// the versions on `skip`, and stops at the first pair that does not
/// reconcile. A whole run, where a naming failure of a later pair must not
/// hide an earlier reconciliation failure, goes through `Verifier`. `texts[j]` holds the
/// up-migration and down-migration texts of `pairs[j]`.
pub fn verify_pairs(
    patterns: &Patterns,
    pairs: &Vec<MigrationPair>,
    texts: &Vec<(String, String)>,
    skip: &Vec<usize>,
) -> (r: Result<(), CheckError>)
    requires
        patterns.is_standard(),
        texts.len() == pairs.len(),
    ensures
        match first_unreconciled(pairs@, texts@, skip@, pairs.len() as nat) {
            Some(f) => (r matches Err(e) && e@ == f),
            None => r is Ok,
        },
{
    let mut j: usize = 0;
    while j < pairs.len()
        invariant
            patterns.is_standard(),
            texts.len() == pairs.len(),
            j <= pairs.len(),
            first_unreconciled(pairs@, texts@, skip@, j as nat) is None,
        decreases pairs.len() - j,
    {
        let version = pairs[j].version;
        if !is_skipped(version, skip) {
            let messages = reconcile_pair(patterns, texts[j].0.as_str(), texts[j].1.as_str(), version);
            if messages.len() > 0 {
                let e = CheckError::Unreconciled { version, messages };
                proof {
                    lemma_first_unreconciled_stays(pairs@, texts@, skip@, (j + 1) as nat, pairs.len() as nat);
                }
                return Err(e);
            }
        }
        j = j + 1;
    }
    Ok(())
}

/// Once a failure is found among the first `k` pairs, it stays the first.
proof fn lemma_first_unreconciled_stays(
    pairs: Seq<MigrationPair>,
    texts: Seq<(String, String)>,
    skip: Seq<usize>,
    k: nat,
    m: nat,
)
    requires
        k <= m,
        first_unreconciled(pairs, texts, skip, k) is Some,
    ensures
        first_unreconciled(pairs, texts, skip, m) == first_unreconciled(pairs, texts, skip, k),
    decreases m - k,
{
    if k < m {
        lemma_first_unreconciled_stays(pairs, texts, skip, k, (m - 1) as nat);
    }
}

/// What is wrong with pair `j` of the sorted names (down-file at `2j`,
/// up-file at `2j + 1`, version `j + 1`), given the texts of its up and down
/// files: a naming or numbering failure, or, unless its version is skipped,
/// the messages of a failed reconciliation.
pub open spec fn pair_verdict(
    names: Seq<Seq<char>>,
    j: int,
    texts: (Seq<char>, Seq<char>),
    skip: Seq<usize>,
) -> Option<Failure> {
    match pair_failure(names, 2 * j + 1) {
        Some(f) => Some(f),
        None => {
            let m = pair_messages(texts.0, texts.1, (j + 1) as nat);
            if skipped((j + 1) as usize, skip) || m.len() == 0 {
                None
            } else {
                Some(Failure::Unreconciled((j + 1) as nat, m))
            }
        },
    }
}

/// The first failure among the first `k` pairs, taken in order; `texts[j]`
/// holds the texts of pair `j`.
pub open spec fn first_failure(
    names: Seq<Seq<char>>,
    texts: Seq<(Seq<char>, Seq<char>)>,
    skip: Seq<usize>,
    k: nat,
) -> Option<Failure>
    decreases k,
{
    if k == 0 {
        None
    } else {
        match first_failure(names, texts, skip, (k - 1) as nat) {
            Some(f) => Some(f),
            None => pair_verdict(names, k - 1, texts[k - 1], skip),
        }
    }
}

/// The verdict on a whole sorted listing: an odd number of files fails at
/// once; otherwise the first pair, in order, with any kind of failure
/// decides, and pairs after it do not count.
pub open spec fn run_failure(
    names: Seq<Seq<char>>,
    texts: Seq<(Seq<char>, Seq<char>)>,
    skip: Seq<usize>,
) -> Option<Failure> {
    if names.len() % 2 == 1 {
        Some(Failure::OddFileCount(names.len() as nat))
    } else {
        first_failure(names, texts, skip, names.len() / 2)
    }
}

/// The verdict over the first `k` pairs depends only on their texts.
pub proof fn lemma_first_failure_prefix(
    names: Seq<Seq<char>>,
    a: Seq<(Seq<char>, Seq<char>)>,
    b: Seq<(Seq<char>, Seq<char>)>,
    skip: Seq<usize>,
    k: nat,
)
    requires
        forall|j: int| 0 <= j < k ==> #[trigger] a[j] == b[j],
    ensures
        first_failure(names, a, skip, k) == first_failure(names, b, skip, k),
    decreases k,
{
    if k > 0 {
        lemma_first_failure_prefix(names, a, b, skip, (k - 1) as nat);
        assert(a[k - 1] == b[k - 1]);
    }
}

/// A failure among the first `k` pairs stays the first for longer prefixes.
pub proof fn lemma_first_failure_stays(
    names: Seq<Seq<char>>,
    texts: Seq<(Seq<char>, Seq<char>)>,
    skip: Seq<usize>,
    k: nat,
    m: nat,
)
    requires
        k <= m,
        first_failure(names, texts, skip, k) is Some,
    ensures
        first_failure(names, texts, skip, m) == first_failure(names, texts, skip, k),
    decreases m - k,
{
    if k < m {
        lemma_first_failure_stays(names, texts, skip, k, (m - 1) as nat);
    }
}

/// What one step of a verification run asks for or reports.
pub enum Step {
    /// The texts of this pair's up and down files are needed next.
    Read(MigrationPair),
    /// The pair passed; go on.
    Passed,
    /// Every pair passed.
    Finished,
    /// The run failed, on the first failing pair in order.
    Failed(CheckError),
}

/// A verification run over a migration listing, one pair at a time, so that
/// files are read only when their pair is reached.
pub struct Verifier {
    patterns: Patterns,
    names: Vec<String>,
    skip: Vec<usize>,
    next: usize,
    seen: Ghost<Seq<(Seq<char>, Seq<char>)>>,
}

impl Verifier {
    /// The sorted file names.
    pub closed spec fn names_view(&self) -> Seq<Seq<char>> {
        self.names.deep_view()
    }

    /// The versions left out of reconciliation.
    pub closed spec fn skip_view(&self) -> Seq<usize> {
        self.skip@
    }

    /// How many pairs have passed.
    pub closed spec fn position(&self) -> nat {
        self.next as nat
    }

    /// The texts the passed pairs were checked with (empty for skipped
    /// pairs).
    pub closed spec fn texts_seen(&self) -> Seq<(Seq<char>, Seq<char>)> {
        self.seen@
    }

    /// Every pair before the current one passed.
    pub closed spec fn wf(&self) -> bool {
        &&& self.patterns.is_standard()
        &&& self.seen@.len() == self.next
        &&& (self.names@.len() % 2 == 1 ==> self.next == 0)
        &&& (self.names@.len() % 2 == 0 ==> self.next <= self.names@.len() / 2 && first_failure(
            self.names.deep_view(),
            self.seen@,
            self.skip@,
            self.next as nat,
        ) is None)
    }

    /// Starts a run over `files` (in any order; they are sorted here),
    /// leaving out of reconciliation the versions in `skip`. `None` when a
    /// pattern does not compile.
    pub fn new(files: &Vec<String>, skip: Vec<usize>) -> (r: Option<Verifier>)
        ensures
            r is Some <==> regex_compiles_all(),
            r matches Some(v) ==> {
                &&& v.wf()
                &&& v.position() == 0
                &&& names_sorted(v.names_view())
                &&& v.names_view().to_multiset() == files.deep_view().to_multiset()
                &&& v.skip_view() == skip@
            },
    {
        let patterns = Patterns::new()?;
        let names = sort_file_names(files);
        let v = Verifier { patterns, names, skip, next: 0, seen: Ghost(Seq::empty()) };
        Some(v)
    }

    /// Takes the next step. With no texts, a pair that must be reconciled is
    /// answered by `Read`; the caller reads its two files and calls again
    /// with their texts (up-file first). A `Failed` step carries the first
    /// failure of the run in pair order, and ends the run.
    #[verifier::rlimit(40)]
    pub fn advance(&mut self, texts: Option<(String, String)>) -> (r: Step)
        requires
            old(self).wf(),
        ensures
            final(self).names_view() == old(self).names_view(),
            final(self).skip_view() == old(self).skip_view(),
            old(self).names_view().len() % 2 == 1 ==> (r matches Step::Failed(e) && e@
                == Failure::OddFileCount(old(self).names_view().len() as nat)),
            (r is Passed || r is Failed) && texts is Some && old(self).names_view().len() % 2 == 0
                && pair_failure(
                old(self).names_view(),
                2 * old(self).position() as int + 1,
            ) is None && !skipped((old(self).position() + 1) as usize, old(self).skip_view())
                ==> final(self).texts_seen()[old(self).position() as int] == (
                texts.unwrap().0@,
                texts.unwrap().1@,
            ),
            match r {
                Step::Read(pair) => {
                    &&& texts is None
                    &&& final(self).wf()
                    &&& final(self).position() == old(self).position()
                    &&& final(self).texts_seen() == old(self).texts_seen()
                    &&& pair_failure(old(self).names_view(), 2 * old(self).position() as int + 1) is None
                    &&& pair_built_from(pair, old(self).names_view(), old(self).position() as int)
                    &&& !skipped(pair.version, old(self).skip_view())
                },
                Step::Passed => {
                    &&& final(self).wf()
                    &&& final(self).position() == old(self).position() + 1
                    &&& final(self).texts_seen().subrange(0, old(self).position() as int)
                        == old(self).texts_seen()
                },
                Step::Finished => {
                    &&& final(self).wf()
                    &&& run_failure(old(self).names_view(), old(self).texts_seen(), old(self).skip_view())
                        is None
                },
                Step::Failed(e) => {
                    &&& run_failure(final(self).names_view(), final(self).texts_seen(), final(self).skip_view())
                        == Some(e@)
                    &&& final(self).texts_seen().subrange(0, old(self).position() as int)
                        == old(self).texts_seen()
                },
            },
    {
        let ghost given = texts;
        let n = self.names.len();
        if n % 2 != 0 {
            return Step::Failed(CheckError::OddFileCount { count: n });
        }
        if self.next == n / 2 {
            return Step::Finished;
        }
        let ghost old_seen = self.seen@;
        let ghost names = self.names.deep_view();
        let j = self.next;
        let pair = match check_pair(&self.patterns, &self.names, 2 * j + 1) {
            Ok(p) => p,
            Err(e) => {
                let ghost t = (Seq::<char>::empty(), Seq::<char>::empty());
                self.seen = Ghost(old_seen.push(t));
                self.next = j + 1;
                proof {
                    assert(self.seen@.subrange(0, j as int) =~= old_seen);
                    lemma_first_failure_prefix(names, old_seen, self.seen@, self.skip@, j as nat);
                    lemma_first_failure_stays(names, self.seen@, self.skip@, (j + 1) as nat, (n / 2) as nat);
                }
                return Step::Failed(e);
            },
        };
        if is_skipped(pair.version, &self.skip) {
            let ghost t = (Seq::<char>::empty(), Seq::<char>::empty());
            self.seen = Ghost(old_seen.push(t));
            self.next = j + 1;
            proof {
                assert(self.seen@.subrange(0, j as int) =~= old_seen);
                lemma_first_failure_prefix(names, old_seen, self.seen@, self.skip@, j as nat);
                assert(self.seen@[j as int] == t);
            }
            return Step::Passed;
        }
        match texts {
            None => Step::Read(pair),
            Some((up, down)) => {
                let messages = reconcile_pair(&self.patterns, up.as_str(), down.as_str(), pair.version);
                let ghost t = (up@, down@);
                self.seen = Ghost(old_seen.push(t));
                self.next = j + 1;
                proof {
                    assert(self.seen@.subrange(0, j as int) =~= old_seen);
                    lemma_first_failure_prefix(names, old_seen, self.seen@, self.skip@, j as nat);
                    assert(self.seen@[j as int] == t);
                    assert(t == (given.unwrap().0@, given.unwrap().1@));
                }
                if messages.len() > 0 {
                    proof {
                        lemma_first_failure_stays(names, self.seen@, self.skip@, (j + 1) as nat, (n / 2) as nat);
                    }
                    Step::Failed(CheckError::Unreconciled { version: pair.version, messages })
                } else {
                    Step::Passed
                }
            },
        }
    }
}

} // verus!
