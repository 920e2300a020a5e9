//! Word frequencies of a text: letters only, case folded, most frequent
//! first.

use vstd::prelude::*;
use vstd::utf8::encode_utf8;
use crate::pattern::{Pattern, lower_of, lowercase, regex_compiles, regex_replaced};
use crate::text::{chars_equal, decimal, decimal_string, split_at_white_space, split_white};

verus! {

/// Every character that is neither a lower-case ASCII letter nor white space.
pub const NON_LETTER_PATTERN: &'static str = r"[^a-z\s]";

/// A word and how often it occurs.
pub type Count = (Seq<char>, nat);

/// The text words are read from: lower-cased, then stripped of every
/// character that is not a letter or white space.
pub open spec fn letters_only(content: Seq<char>) -> Seq<char> {
    regex_replaced(NON_LETTER_PATTERN@, lower_of(content), ""@)
}

/// `counts` with one more occurrence of `w`: its entry is bumped, or a new
/// entry is added at the end.
pub open spec fn bump(counts: Seq<Count>, w: Seq<char>) -> Seq<Count>
    decreases counts.len(),
{
    if counts.len() == 0 {
        seq![(w, 1nat)]
    } else if counts[0].0 == w {
        counts.update(0, (w, counts[0].1 + 1))
    } else {
        seq![counts[0]] + bump(counts.skip(1), w)
    }
}

/// The counts of the non-empty pieces, words in order of first occurrence.
pub open spec fn tally(pieces: Seq<Seq<char>>) -> Seq<Count>
    decreases pieces.len(),
{
    if pieces.len() == 0 {
        Seq::empty()
    } else if pieces.last().len() == 0 {
        tally(pieces.drop_last())
    } else {
        bump(tally(pieces.drop_last()), pieces.last())
    }
}

/// `sorted` with `c` placed after every entry counted at least as often.
pub open spec fn insert_by_count(sorted: Seq<Count>, c: Count) -> Seq<Count>
    decreases sorted.len(),
{
    if sorted.len() == 0 {
        seq![c]
    } else if sorted[0].1 < c.1 {
        seq![c] + sorted
    } else {
        seq![sorted[0]] + insert_by_count(sorted.skip(1), c)
    }
}

/// The counts from most to least frequent; equal counts keep their order.
pub open spec fn by_frequency(counts: Seq<Count>) -> Seq<Count>
    decreases counts.len(),
{
    if counts.len() == 0 {
        Seq::empty()
    } else {
        insert_by_count(by_frequency(counts.drop_last()), counts.last())
    }
}

/// The report line for one count.
pub open spec fn count_line(c: Count) -> Seq<char> {
    c.0 + ": "@ + decimal(c.1) + "\n"@
}

/// The UTF-8 bytes of the report lines, in order.
pub open spec fn report_bytes(counts: Seq<Count>) -> Seq<u8>
    decreases counts.len(),
{
    if counts.len() == 0 {
        Seq::empty()
    } else {
        report_bytes(counts.drop_last()) + encode_utf8(count_line(counts.last()))
    }
}

/// The report for a text: one `word: count` line per word.
pub open spec fn word_report(content: Seq<char>) -> Seq<u8> {
    report_bytes(by_frequency(tally(split_white(letters_only(content)))))
}

/// Counts as plain values.
pub open spec fn counts_view(v: Seq<(String, usize)>) -> Seq<Count> {
    v.map_values(|e: (String, usize)| (e.0@, e.1 as nat))
}

/// Adds one occurrence of `w`.
fn add_word(counts: &mut Vec<(String, usize)>, w: &String, bound: usize)
    requires
        bound >= 1,
        forall|j: int| 0 <= j < old(counts)@.len() ==> (#[trigger] old(counts)@[j]).1 < bound,
    ensures
        counts_view(final(counts)@) == bump(counts_view(old(counts)@), w@),
        forall|j: int| 0 <= j < final(counts)@.len() ==> (#[trigger] final(counts)@[j]).1 <= bound,
{
    let ghost start = counts_view(counts@);
    let mut j: usize = 0;
    assert(start.skip(0) =~= start);
    assert(start.subrange(0, 0) + bump(start, w@) =~= bump(start, w@));
    while j < counts.len()
        invariant
            start == counts_view(counts@),
            start == counts_view(old(counts)@),
            j <= counts@.len(),
            forall|t: int| 0 <= t < counts@.len() ==> (#[trigger] counts@[t]).1 < bound,
            start.subrange(0, j as int) + bump(start.skip(j as int), w@) == bump(start, w@),
        decreases counts.len() - j,
    {
        if chars_equal(counts[j].0.as_str(), w.as_str()) {
            let n = counts[j].1 + 1;
            let word = counts[j].0.clone();
            let ghost before = counts@;
            counts.set(j, (word, n));
            proof {
                let rest = start.skip(j as int);
                assert(rest[0] == start[j as int]);
                assert(rest[0].0 == w@);
                assert(bump(rest, w@) == rest.update(0, (w@, rest[0].1 + 1)));
                assert(counts_view(counts@) =~= start.subrange(0, j as int) + rest.update(0, (w@, rest[0].1 + 1)));
                assert forall|t: int| 0 <= t < counts@.len() implies (#[trigger] counts@[t]).1 <= bound by {
                    if t != j {
                        assert(counts@[t] == before[t]);
                    }
                }
                assert(start.subrange(0, j as int) + bump(rest, w@) == bump(start, w@));
                assert(counts_view(counts@) == bump(start, w@));
            }
            return;
        }
        proof {
            assert(start.skip(j as int)[0] == start[j as int]);
            assert(start.skip(j as int).skip(1) =~= start.skip(j + 1));
            assert(start.subrange(0, j + 1) =~= start.subrange(0, j as int) + seq![start[j as int]]);
            assert(start.subrange(0, j + 1) + bump(start.skip(j + 1), w@) =~= start.subrange(0, j as int) + (seq![start[j as int]] + bump(start.skip(j + 1), w@)));
        }
        j = j + 1;
    }
    let ghost before = counts@;
    counts.push((w.clone(), 1));
    proof {
        assert forall|t: int| 0 <= t < counts@.len() implies (#[trigger] counts@[t]).1 <= bound by {
            if t < before.len() {
                assert(counts@[t] == before[t]);
            }
        }
        assert(start.skip(j as int) =~= Seq::<Count>::empty());
        assert(start.subrange(0, j as int) =~= start);
        assert(counts_view(counts@) =~= start + seq![(w@, 1nat)]);
    }
}

/// Places `c` after every entry counted at least as often.
fn place_by_count(sorted: &mut Vec<(String, usize)>, c: (String, usize))
    ensures
        counts_view(final(sorted)@) == insert_by_count(counts_view(old(sorted)@), (c.0@, c.1 as nat)),
{
    let ghost start = counts_view(sorted@);
    let ghost x = (c.0@, c.1 as nat);
    let mut p: usize = 0;
    assert(start.skip(0) =~= start);
    assert(start.subrange(0, 0) + insert_by_count(start, x) =~= insert_by_count(start, x));
    while p < sorted.len() && sorted[p].1 >= c.1
        invariant
            start == counts_view(sorted@),
            start == counts_view(old(sorted)@),
            x == (c.0@, c.1 as nat),
            p <= sorted@.len(),
            start.subrange(0, p as int) + insert_by_count(start.skip(p as int), x) == insert_by_count(start, x),
        decreases sorted.len() - p,
    {
        proof {
            let rest = start.skip(p as int);
            assert(rest[0] == start[p as int]);
            assert(start[p as int] == (sorted@[p as int].0@, sorted@[p as int].1 as nat));
            assert(!(rest[0].1 < x.1));
            assert(insert_by_count(rest, x) == seq![rest[0]] + insert_by_count(rest.skip(1), x));
            assert(rest.skip(1) =~= start.skip(p + 1));
            assert(start.subrange(0, p + 1) + insert_by_count(start.skip(p + 1), x) =~= start.subrange(0, p as int) + (seq![start[p as int]] + insert_by_count(start.skip(p + 1), x)));
        }
        p = p + 1;
    }
    sorted.insert(p, c);
    proof {
        if p < start.len() {
            assert(start.skip(p as int)[0] == start[p as int]);
        }
        assert(counts_view(sorted@) =~= start.subrange(0, p as int) + (seq![x] + start.skip(p as int)));
        if p == start.len() {
            assert(start.skip(p as int) =~= Seq::<Count>::empty());
            assert(seq![x] + start.skip(p as int) =~= seq![x]);
        }
    }
}

/// Writes a line for each word of `content` to `output`, most frequent word
/// first: letters only, lower case, `word: count`. Fails only when the
/// letter pattern does not compile.
pub fn count_words(output: &mut Vec<u8>, content: String) -> (r: Result<(), String>)
    ensures
        r is Ok <==> regex_compiles(NON_LETTER_PATTERN@),
        r is Ok ==> final(output)@ == old(output)@ + word_report(content@),
        r is Err ==> final(output)@ == old(output)@,
{
    let pattern = match Pattern::new(NON_LETTER_PATTERN) {
        Some(p) => p,
        None => {
            return Err("the letter pattern does not compile".to_string());
        },
    };
    let lower = lowercase(content.as_str());
    let cleaned = pattern.replace_all(lower.as_str(), "");
    let pieces = split_at_white_space(cleaned.as_str());
    let mut counts: Vec<(String, usize)> = Vec::new();
    let mut i: usize = 0;
    assert(pieces.deep_view().subrange(0, 0) =~= Seq::<Seq<char>>::empty());
    assert(counts_view(counts@) =~= Seq::<Count>::empty());
    while i < pieces.len()
        invariant
            i <= pieces@.len(),
            pieces.deep_view() == split_white(letters_only(content@)),
            counts_view(counts@) == tally(pieces.deep_view().subrange(0, i as int)),
            forall|j: int| 0 <= j < counts@.len() ==> (#[trigger] counts@[j]).1 <= i,
        decreases pieces.len() - i,
    {
        assert(pieces.deep_view().subrange(0, i + 1).drop_last() =~= pieces.deep_view().subrange(0, i as int));
        if pieces[i].as_str().unicode_len() > 0 {
            add_word(&mut counts, &pieces[i], i + 1);
        }
        i = i + 1;
    }
    assert(pieces.deep_view().subrange(0, pieces.len() as int) =~= pieces.deep_view());
    let mut sorted: Vec<(String, usize)> = Vec::new();
    let ghost all = counts_view(counts@);
    let mut k: usize = 0;
    assert(counts_view(sorted@) =~= by_frequency(all.subrange(0, 0)));
    while k < counts.len()
        invariant
            k <= counts@.len(),
            all == counts_view(counts@),
            counts_view(sorted@) == by_frequency(all.subrange(0, k as int)),
        decreases counts.len() - k,
    {
        assert(all.subrange(0, k + 1).drop_last() =~= all.subrange(0, k as int));
        let c = (counts[k].0.clone(), counts[k].1);
        place_by_count(&mut sorted, c);
        k = k + 1;
    }
    assert(all.subrange(0, counts.len() as int) =~= all);
    let ghost start = output@;
    let ghost report = counts_view(sorted@);
    let mut m: usize = 0;
    assert(output@ =~= start + report_bytes(report.subrange(0, 0)));
    while m < sorted.len()
        invariant
            m <= sorted@.len(),
            report == counts_view(sorted@),
            output@ == start + report_bytes(report.subrange(0, m as int)),
        decreases sorted.len() - m,
    {
        let mut line = sorted[m].0.clone();
        line.append(": ");
        let number = decimal_string(sorted[m].1);
        line.append(number.as_str());
        line.append("\n");
        let bytes = line.as_str().as_bytes();
        let ghost before = output@;
        let mut b: usize = 0;
        while b < bytes.len()
            invariant
                b <= bytes@.len(),
                output@ == before + bytes@.subrange(0, b as int),
            decreases bytes.len() - b,
        {
            output.push(bytes[b]);
            assert(output@ =~= before + bytes@.subrange(0, b + 1));
            b = b + 1;
        }
        proof {
            assert(bytes@.subrange(0, bytes@.len() as int) =~= bytes@);
            assert(line@ == count_line(report[m as int]));
            assert(report.subrange(0, m + 1).drop_last() =~= report.subrange(0, m as int));
            assert(output@ =~= start + report_bytes(report.subrange(0, m + 1)));
        }
        m = m + 1;
    }
    assert(report.subrange(0, sorted.len() as int) =~= report);
    Ok(())
}

} // verus!
