//! The migration pairer: checks the file names of a sorted directory listing
//! and groups them into down/up pairs with gapless version numbers.

use vstd::prelude::*;
use crate::pattern::{Pattern, regex_captures};
use crate::statement::{Patterns, UP_FILE_PATTERN, DOWN_FILE_PATTERN};
use crate::text::{
    all_digits, chars_equal, decimal, decimal_string, digits_value, names_sorted, parse_digits,
    sort_lexically, split_at_char, split_on,
};

verus! {

/// Which half of a pair a file is.
#[derive(Clone, Copy, Debug, PartialEq, Eq, Structural)]
pub enum Side {
    Up,
    Down,
}

/// A migration file whose name follows `NNNNN_name.up.sql` or
/// `NNNNN_name.down.sql`.
#[derive(Clone, Debug)]
pub struct MigrationFile {
    /// The whole file name.
    pub raw_name: String,
    /// The number its name starts with.
    pub version: usize,
    /// The name without the `.up.sql` or `.down.sql` ending.
    pub base_name: String,
    pub side: Side,
}

/// A down-migration and the up-migration it undoes.
#[derive(Clone, Debug)]
pub struct MigrationPair {
    pub version: usize,
    pub up_file: MigrationFile,
    pub down_file: MigrationFile,
}

/// Why a run of the checker failed, as plain values.
pub enum Failure {
    /// The number of files is odd.
    OddFileCount(nat),
    /// A file name does not follow the naming rule.
    BadFileName(Seq<char>),
    /// The up and down files of a pair have different base names.
    NameMismatch(Seq<char>, Seq<char>),
    /// The version digits of a base name are not ASCII digits.
    BadVersion(Seq<char>),
    /// A version number is out of place; the one given is missing.
    NumberingGap(nat),
    /// The pair with this version does not reconcile; one message per
    /// offending key.
    Unreconciled(nat, Seq<Seq<char>>),
}

/// Why a run of the checker failed.
#[derive(Clone, Debug)]
pub enum CheckError {
    OddFileCount { count: usize },
    BadFileName { file: String },
    NameMismatch { up: String, down: String },
    BadVersion { base: String },
    NumberingGap { missing: usize },
    Unreconciled { version: usize, messages: Vec<String> },
}

impl View for CheckError {
    type V = Failure;

    open spec fn view(&self) -> Failure {
        match self {
            CheckError::OddFileCount { count } => Failure::OddFileCount(*count as nat),
            CheckError::BadFileName { file } => Failure::BadFileName(file@),
            CheckError::NameMismatch { up, down } => Failure::NameMismatch(up@, down@),
            CheckError::BadVersion { base } => Failure::BadVersion(base@),
            CheckError::NumberingGap { missing } => Failure::NumberingGap(*missing as nat),
            CheckError::Unreconciled { version, messages } => Failure::Unreconciled(
                *version as nat,
                messages.deep_view(),
            ),
        }
    }
}

/// The base name in `name` when it matches the file-name pattern `pattern`.
pub open spec fn file_base(pattern: Seq<char>, name: Seq<char>) -> Option<Seq<char>> {
    let found = regex_captures(pattern, name);
    if found.len() > 0 && found[0].len() > 0 {
        Some(found[0][0])
    } else {
        None
    }
}

/// The characters of a base name before its first underscore.
pub open spec fn version_digits(base: Seq<char>) -> Seq<char> {
    split_on(base, '_')[0]
}

/// Whether the version digits of a base name can be read as a `usize`.
pub open spec fn version_readable(base: Seq<char>) -> bool {
    all_digits(version_digits(base)) && digits_value(version_digits(base)) <= usize::MAX
}

/// The version number of a base name.
pub open spec fn version_of(base: Seq<char>) -> nat {
    digits_value(version_digits(base))
}

/// The version reported missing when the pair with version `v` is out of
/// place.
pub open spec fn missing_before(v: nat) -> nat {
    if v > 0 {
        (v - 1) as nat
    } else {
        0
    }
}

/// What is wrong with the pair whose up-file sits at position `i` of the
/// sorted names (its down-file at `i - 1`), if anything.
pub open spec fn pair_failure(names: Seq<Seq<char>>, i: int) -> Option<Failure> {
    let up = names[i];
    let down = names[i - 1];
    match file_base(UP_FILE_PATTERN@, up) {
        None => Some(Failure::BadFileName(up)),
        Some(up_base) => match file_base(DOWN_FILE_PATTERN@, down) {
            None => Some(Failure::BadFileName(down)),
            Some(down_base) => if up_base != down_base {
                Some(Failure::NameMismatch(up_base, down_base))
            } else if !version_readable(up_base) {
                Some(Failure::BadVersion(up_base))
            } else if version_of(up_base) + version_of(down_base) != i + 1 {
                Some(Failure::NumberingGap(missing_before(version_of(up_base))))
            } else {
                None
            },
        },
    }
}

/// The first failure among the first `k` pairs.
pub open spec fn first_pair_failure(names: Seq<Seq<char>>, k: nat) -> Option<Failure>
    decreases k,
{
    if k == 0 {
        None
    } else {
        match first_pair_failure(names, (k - 1) as nat) {
            Some(f) => Some(f),
            None => pair_failure(names, 2 * k - 1),
        }
    }
}

/// `p` is the pair built from names `2 * j` (down) and `2 * j + 1` (up).
pub open spec fn pair_built_from(p: MigrationPair, names: Seq<Seq<char>>, j: int) -> bool {
    let up = names[2 * j + 1];
    let down = names[2 * j];
    &&& p.version == j + 1
    &&& p.up_file.raw_name@ == up
    &&& p.down_file.raw_name@ == down
    &&& file_base(UP_FILE_PATTERN@, up) == Some(p.up_file.base_name@)
    &&& file_base(DOWN_FILE_PATTERN@, down) == Some(p.down_file.base_name@)
    &&& p.up_file.base_name@ == p.down_file.base_name@
    &&& p.up_file.version == p.version && p.down_file.version == p.version
    &&& p.up_file.side == Side::Up && p.down_file.side == Side::Down
}

/// The base name of a file name that matches `pattern`.
fn base_name_of(pattern: &Pattern, name: &str) -> (r: Option<String>)
    ensures
        r matches Some(b) ==> file_base(pattern.source_view(), name@) == Some(b@),
        r is None ==> file_base(pattern.source_view(), name@) is None,
{
    let found = pattern.captures(name);
    if found.len() > 0 && found[0].len() > 0 {
        Some(found[0][0].clone())
    } else {
        None
    }
}

/// Reads the version number at the start of a base name.
pub fn parse_version(base: &str) -> (r: Option<usize>)
    ensures
        r is Some <==> version_readable(base@),
        r matches Some(v) ==> v as nat == version_of(base@),
{
    let pieces = split_at_char(base, '_');
    proof {
        lemma_split_nonempty(base@, '_');
    }
    parse_digits(pieces[0].as_str())
}

/// Splitting always gives at least one piece.
proof fn lemma_split_nonempty(s: Seq<char>, sep: char)
    ensures
        split_on(s, sep).len() > 0,
    decreases s.len(),
{
    if s.len() > 0 {
        lemma_split_nonempty(s.drop_last(), sep);
    }
}

/// Checks the pair whose up-file is at position `i`.
pub fn check_pair(patterns: &Patterns, names: &Vec<String>, i: usize) -> (r: Result<MigrationPair, CheckError>)
    requires
        patterns.is_standard(),
        1 <= i < names.len(),
        i % 2 == 1,
    ensures
        match r {
            Ok(p) => pair_failure(names.deep_view(), i as int) is None && pair_built_from(
                p,
                names.deep_view(),
                (i as int - 1) / 2,
            ),
            Err(e) => pair_failure(names.deep_view(), i as int) == Some(e@),
        },
{
    let up = &names[i];
    let down = &names[i - 1];
    let up_base = match base_name_of(&patterns.up_file, up.as_str()) {
        Some(b) => b,
        None => {
            return Err(CheckError::BadFileName { file: up.clone() });
        },
    };
    let down_base = match base_name_of(&patterns.down_file, down.as_str()) {
        Some(b) => b,
        None => {
            return Err(CheckError::BadFileName { file: down.clone() });
        },
    };
    if !chars_equal(up_base.as_str(), down_base.as_str()) {
        return Err(CheckError::NameMismatch { up: up_base, down: down_base });
    }
    let version = match parse_version(up_base.as_str()) {
        Some(v) => v,
        None => {
            return Err(CheckError::BadVersion { base: up_base });
        },
    };
    if version as u128 + version as u128 != i as u128 + 1 {
        let missing = if version > 0 { version - 1 } else { 0 };
        return Err(CheckError::NumberingGap { missing });
    }
    let up_file = MigrationFile {
        raw_name: up.clone(),
        version,
        base_name: up_base.clone(),
        side: Side::Up,
    };
    let down_file = MigrationFile {
        raw_name: down.clone(),
        version,
        base_name: down_base,
        side: Side::Down,
    };
    Ok(MigrationPair { version, up_file, down_file })
}

/// Groups sorted file names into down/up pairs: the file at each odd position
/// must be an up-migration and the one before it the matching
/// down-migration, and the pair at position `j` must have version `j + 1`.
/// Stops at the first problem.
pub fn pair_migrations(patterns: &Patterns, names: &Vec<String>) -> (r: Result<Vec<MigrationPair>, CheckError>)
    requires
        patterns.is_standard(),
    ensures
        names.len() % 2 == 1 ==> (r matches Err(e) && e@ == Failure::OddFileCount(names.len() as nat)),
        names.len() % 2 == 0 ==> match first_pair_failure(names.deep_view(), names.len() as nat / 2) {
            Some(f) => (r matches Err(e) && e@ == f),
            None => (r matches Ok(pairs) && pairs.len() == names.len() / 2 && forall|j: int|
                0 <= j < pairs.len() ==> pair_built_from(#[trigger] pairs[j], names.deep_view(), j)),
        },
{
    if names.len() % 2 != 0 {
        return Err(CheckError::OddFileCount { count: names.len() });
    }
    let mut pairs: Vec<MigrationPair> = Vec::new();
    let mut k: usize = 0;
    while k < names.len() / 2
        invariant
            patterns.is_standard(),
            names.len() % 2 == 0,
            k <= names.len() / 2,
            pairs.len() == k,
            first_pair_failure(names.deep_view(), k as nat) is None,
            forall|j: int| 0 <= j < k ==> pair_built_from(#[trigger] pairs[j], names.deep_view(), j),
        decreases names.len() / 2 - k,
    {
        let p = match check_pair(patterns, names, 2 * k + 1) {
            Ok(p) => p,
            Err(e) => {
                proof {
                    lemma_first_failure_stays(names.deep_view(), (k + 1) as nat, names.len() as nat / 2);
                }
                return Err(e);
            },
        };
        pairs.push(p);
        k = k + 1;
    }
    Ok(pairs)
}

/// A failure among the first `k` pairs stays the first failure of any
/// longer prefix.
proof fn lemma_first_failure_stays(names: Seq<Seq<char>>, k: nat, m: nat)
    requires
        k <= m,
        first_pair_failure(names, k) is Some,
    ensures
        first_pair_failure(names, m) == first_pair_failure(names, k),
    decreases m - k,
{
    if k < m {
        lemma_first_failure_stays(names, k, (m - 1) as nat);
    }
}

/// The messages that report a failure.
pub open spec fn failure_messages(f: Failure) -> Seq<Seq<char>> {
    match f {
        Failure::OddFileCount(_) => seq!["missing a migration file (total number is not even)"@],
        Failure::BadFileName(file) => seq![file + " is not formatted correctly"@],
        Failure::NameMismatch(up, down) => seq![
            "migration names "@ + up + " and "@ + down + " don't match"@,
        ],
        Failure::BadVersion(base) => seq![base + " does not start with a version number"@],
        Failure::NumberingGap(missing) => seq![
            "migration numbers are wrong, missing "@ + decimal(missing),
        ],
        Failure::Unreconciled(_, messages) => messages,
    }
}

impl CheckError {
    /// The messages that report this failure, one per line of output.
    pub fn messages(&self) -> (r: Vec<String>)
        ensures
            r.deep_view() == failure_messages(self@),
    {
        let mut r: Vec<String> = Vec::new();
        match self {
            CheckError::OddFileCount { .. } => {
                r.push("missing a migration file (total number is not even)".to_string());
            },
            CheckError::BadFileName { file } => {
                let mut m = file.clone();
                m.append(" is not formatted correctly");
                r.push(m);
            },
            CheckError::NameMismatch { up, down } => {
                let mut m = "migration names ".to_string();
                m.append(up.as_str());
                m.append(" and ");
                m.append(down.as_str());
                m.append(" don't match");
                r.push(m);
            },
            CheckError::BadVersion { base } => {
                let mut m = base.clone();
                m.append(" does not start with a version number");
                r.push(m);
            },
            CheckError::NumberingGap { missing } => {
                let mut m = "migration numbers are wrong, missing ".to_string();
                let number = decimal_string(*missing);
                m.append(number.as_str());
                r.push(m);
            },
            CheckError::Unreconciled { messages, .. } => {
                let mut i: usize = 0;
                while i < messages.len()
                    invariant
                        i <= messages.len(),
                        r.deep_view() == messages.deep_view().subrange(0, i as int),
                    decreases messages.len() - i,
                {
                    let ghost prev = r.deep_view();
                    let m = messages[i].clone();
                    r.push(m);
                    assert(r.deep_view() =~= prev.push(m@));
                    assert(messages.deep_view()[i as int] == m@);
                    assert(r.deep_view() =~= messages.deep_view().subrange(0, i + 1));
                    i = i + 1;
                }
                assert(messages.deep_view().subrange(0, messages.len() as int)
                    =~= messages.deep_view());
                return r;
            },
        }
        assert(r.deep_view() =~= failure_messages(self@));
        r
    }
}

/// Sorts file names in ascending lexicographic order, as `str`'s `Ord`
/// orders them.
pub fn sort_file_names(names: &Vec<String>) -> (r: Vec<String>)
    ensures
        names_sorted(r.deep_view()),
        r.deep_view().to_multiset() == names.deep_view().to_multiset(),
{
    sort_lexically(names)
}

} // verus!
