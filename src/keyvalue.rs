//! The command runner of a small key-value tool: `get <key>` and
//! `set <key> <value>` against a storage that its user supplies.

use vstd::prelude::*;
use vstd::utf8::encode_utf8;
use crate::text::{chars_equal, split_at_char, split_on};

verus! {

/// Where keys and values are kept.
pub trait Storage {
    /// Stores `value` under `key`.
    fn set(&self, key: &str, value: &str) -> Result<(), String>;

    /// The value last stored under `key`, if any.
    fn get(&self, key: &str) -> Result<Option<String>, String>;
}

/// Runs one command against a storage.
pub struct Runner<T: Storage> {
    pub database: T,
}

/// The command word of an argument list (after the program name).
pub open spec fn command_of(args: Seq<String>) -> Seq<char> {
    args[1]@
}

/// Writes `value` and a line break to `output`, as UTF-8.
pub fn write_line(output: &mut Vec<u8>, value: &String)
    ensures
        final(output)@ == old(output)@ + encode_utf8(value@) + seq![10u8],
{
    let bytes = value.as_str().as_bytes();
    let ghost start = output@;
    let mut i: usize = 0;
    while i < bytes.len()
        invariant
            i <= bytes@.len(),
            output@ == start + bytes@.subrange(0, i as int),
        decreases bytes.len() - i,
    {
        output.push(bytes[i]);
        assert(output@ =~= start + bytes@.subrange(0, i + 1));
        i = i + 1;
    }
    output.push(10u8);
    assert(bytes@.subrange(0, bytes@.len() as int) =~= bytes@);
    assert(output@ =~= start + bytes@ + seq![10u8]);
}

impl<T: Storage> Runner<T> {
    pub fn new(database: T) -> (r: Self)
        ensures
            r.database == database,
    {
        Runner { database }
    }

    /// Runs the command in `args` (program name, command, key, value): `set`
    /// stores the value; `get` writes the value and a newline to `output`,
    /// or fails when there is none. Errors of the storage are passed on.
    pub fn run(&self, output: &mut Vec<u8>, args: Vec<String>) -> (r: Result<(), String>)
        ensures
            args.len() < 3 ==> (r matches Err(m) && m@ == "not enough args to run"@),
            args.len() >= 3 && command_of(args@) != "set"@ && command_of(args@) != "get"@ ==> (
            r matches Err(m) && m@ == "command not recognized"@),
            args.len() == 3 && command_of(args@) == "set"@ ==> (r matches Err(m) && m@
                == "not enough args for set"@),
            args.len() < 3 || command_of(args@) != "get"@ ==> final(output)@ == old(output)@,
            args.len() >= 3 && command_of(args@) == "get"@ && r is Ok ==> exists|v: String|
                final(output)@ == old(output)@ + encode_utf8(#[trigger] v@) + seq![10u8],
    {
        if args.len() < 3 {
            return Err("not enough args to run".to_string());
        }
        proof {
            reveal_strlit("set");
            reveal_strlit("get");
        }
        if chars_equal(args[1].as_str(), "set") {
            assert("set"@[0] != "get"@[0]);
            assert("set"@ != "get"@);
            if args.len() < 4 {
                return Err("not enough args for set".to_string());
            }
            self.database.set(args[2].as_str(), args[3].as_str())?;
            Ok(())
        } else if chars_equal(args[1].as_str(), "get") {
            match self.database.get(args[2].as_str())? {
                Some(v) => {
                    write_line(output, &v);
                    Ok(())
                },
                None => Err("not found".to_string()),
            }
        } else {
            Err("command not recognized".to_string())
        }
    }
}

/// A line of the database file without its line break, as `str::lines`
/// gives it: one trailing carriage return is dropped.
pub open spec fn without_cr(line: Seq<char>) -> Seq<char> {
    if line.len() > 0 && line.last() == '\r' {
        line.drop_last()
    } else {
        line
    }
}

/// The value the last `key:value` line for `key` among `lines` holds (the
/// text between the first and second colon), or empty text.
pub open spec fn last_value(lines: Seq<Seq<char>>, key: Seq<char>) -> Seq<char>
    decreases lines.len(),
{
    if lines.len() == 0 {
        Seq::empty()
    } else {
        let parts = split_on(without_cr(lines.last()), ':');
        if parts.len() >= 2 && parts[0] == key {
            parts[1]
        } else {
            last_value(lines.drop_last(), key)
        }
    }
}

/// The value stored for `key` in database text: that of its last line, or
/// `None` when there is none or it is empty.
pub open spec fn stored_value(contents: Seq<char>, key: Seq<char>) -> Option<Seq<char>> {
    let v = last_value(split_on(contents, '\n'), key);
    if v.len() == 0 {
        None
    } else {
        Some(v)
    }
}

/// A key-value database kept as `key:value` lines in a file.
pub struct FileDatabase {
    pub file: String,
}

impl FileDatabase {
    pub fn new(path: String) -> (r: Self)
        ensures
            r.file == path,
    {
        FileDatabase { file: path }
    }

    /// The line that records `value` under `key`.
    pub fn record(key: &str, value: &str) -> (r: String)
        ensures
            r@ == key@ + ":"@ + value@ + "\n"@,
    {
        let mut r = key.to_string();
        r.append(":");
        r.append(value);
        r.append("\n");
        r
    }

    /// The value that the database text `contents` holds for `key`: the
    /// second field of the last line whose first field is `key`.
    pub fn find_value(contents: &str, key: &str) -> (r: Option<String>)
        ensures
            match stored_value(contents@, key@) {
                Some(v) => (r matches Some(s) && s@ == v),
                None => r is None,
            },
    {
        let lines = split_at_char(contents, '\n');
        let mut last = String::new();
        let mut i: usize = 0;
        assert(lines.deep_view().subrange(0, 0) =~= Seq::<Seq<char>>::empty());
        while i < lines.len()
            invariant
                i <= lines@.len(),
                lines.deep_view() == split_on(contents@, '\n'),
                last@ == last_value(lines.deep_view().subrange(0, i as int), key@),
            decreases lines.len() - i,
        {
            let raw = lines[i].as_str();
            let n = raw.unicode_len();
            let line = if n > 0 && raw.get_char(n - 1) == '\r' {
                raw.substring_char(0, n - 1)
            } else {
                raw
            };
            proof {
                assert(line@ =~= without_cr(raw@));
                assert(lines.deep_view().subrange(0, i + 1).drop_last() =~= lines.deep_view().subrange(0, i as int));
            }
            let parts = split_at_char(line, ':');
            if parts.len() >= 2 && chars_equal(parts[0].as_str(), key) {
                last = parts[1].clone();
            }
            i = i + 1;
        }
        assert(lines.deep_view().subrange(0, lines.len() as int) =~= lines.deep_view());
        if last.unicode_len() == 0 {
            None
        } else {
            Some(last)
        }
    }
}

} // verus!
