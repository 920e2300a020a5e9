//! The statement classifier and the entity-key normalizer: which schema
//! entities a migration's SQL touches, read from the matches of five
//! statement patterns.

use vstd::prelude::*;
use crate::pattern::{Pattern, regex_captures, regex_compiles, regex_replaced, lower_of, lowercase};
use crate::text::{
    chars_equal, split_at_char, split_on, strip_suffix_repeatedly, strip_suffixes,
    trim_leading_white_space, trim_start, trim_end, trim_trailing_white_space,
};

verus! {

/// Runs of two or more white-space characters.
pub const MULTI_SPACE_PATTERN: &'static str = r"\s{2,}";

/// A well-formed up-migration file name (five ASCII digits, an underscore,
/// word characters); the group is the base name.
pub const UP_FILE_PATTERN: &'static str = r"^(?<up_name>[0-9]{5}_[\w]+)\.up\.sql$";

/// A well-formed down-migration file name; the group is the base name.
pub const DOWN_FILE_PATTERN: &'static str = r"^(?<down_name>[0-9]{5}_[\w]+)\.down\.sql$";

/// `create [or replace] <kind> [if not exists] <name>`.
pub const CREATE_PATTERN: &'static str = r"create (?:or replace )?(\w+) (?:if not exists\s+)?(\w+)";

/// `add <kind> [if not exists] <name>`.
pub const ADD_PATTERN: &'static str = r"add (\w+) (?:if not exists\s+)?(\w+)";

/// `drop <kind> [if exists] <name-list>`.
pub const DROP_PATTERN: &'static str = r"drop (\w+) (?:if exists\s+)?([\w,\s]+)";

/// `drop column [if exists] <name>`.
pub const DROP_COLUMN_PATTERN: &'static str = r"drop column (?:if exists\s+)?([\w]+)";

/// `rename column [if exists] <name>`.
pub const RENAME_COLUMN_PATTERN: &'static str = r"rename column (?:if exists )?(\w+)";

/// The five kinds of statement that the classifier recognises.
#[derive(Clone, Copy, Debug, PartialEq, Eq, Structural)]
pub enum Category {
    Create,
    Add,
    DropColumn,
    RenameColumn,
    Drop,
}

/// A schema entity: its kind (`table`, `type`, `column` or `view`) and name.
#[derive(Clone, Debug)]
pub struct EntityKey {
    pub kind: String,
    pub name: String,
}

/// An entity key as plain character sequences: (kind, name).
pub type KeyView = (Seq<char>, Seq<char>);

impl View for EntityKey {
    type V = KeyView;

    open spec fn view(&self) -> KeyView {
        (self.kind@, self.name@)
    }
}

impl EntityKey {
    /// A copy of the key.
    pub fn duplicate(&self) -> (r: EntityKey)
        ensures
            r@ == self@,
    {
        EntityKey { kind: self.kind.clone(), name: self.name.clone() }
    }
}

/// The views of a list of keys.
pub open spec fn keys_view(keys: Seq<EntityKey>) -> Seq<KeyView> {
    keys.map_values(|k: EntityKey| k@)
}

/// The entity kinds that the checker follows.
pub open spec fn is_entity_kind(kind: Seq<char>) -> bool {
    kind == "table"@ || kind == "type"@ || kind == "column"@ || kind == "view"@
}

/// One entry of a `DROP` name list, without trailing ` cascade` words and
/// trimmed of white space at both ends.
pub open spec fn clean_name(piece: Seq<char>) -> Seq<char> {
    trim_end(trim_start(strip_suffixes(piece, " cascade"@)))
}

/// The cleaned pieces, leaving out those that come out empty.
pub open spec fn nonempty_names(pieces: Seq<Seq<char>>) -> Seq<Seq<char>>
    decreases pieces.len(),
{
    if pieces.len() == 0 {
        Seq::empty()
    } else {
        let rest = nonempty_names(pieces.drop_last());
        let name = clean_name(pieces.last());
        if name.len() == 0 {
            rest
        } else {
            rest.push(name)
        }
    }
}

/// The entity names in a comma-separated `DROP` name list.
pub open spec fn drop_list_names(list: Seq<char>) -> Seq<Seq<char>> {
    nonempty_names(split_on(list, ','))
}

/// The key for a kind and a name.
pub open spec fn key_of(kind: Seq<char>, name: Seq<char>) -> KeyView {
    (kind, name)
}

/// One key of the given kind for each name.
pub open spec fn keys_for_names(kind: Seq<char>, names: Seq<Seq<char>>) -> Seq<KeyView> {
    names.map_values(|n: Seq<char>| key_of(kind, n))
}

/// The keys that one match of a category's pattern contributes; `groups` are
/// its capture groups.
pub open spec fn match_keys(category: Category, groups: Seq<Seq<char>>) -> Seq<KeyView> {
    match category {
        Category::Create | Category::Add => if groups.len() >= 2 && is_entity_kind(groups[0]) {
            seq![key_of(groups[0], groups[1])]
        } else {
            Seq::empty()
        },
        Category::DropColumn | Category::RenameColumn => if groups.len() >= 1 {
            seq![key_of("column"@, groups[0])]
        } else {
            Seq::empty()
        },
        Category::Drop => if groups.len() >= 2 && is_entity_kind(groups[0]) && groups[0]
            != "column"@ {
            keys_for_names(groups[0], drop_list_names(groups[1]))
        } else {
            Seq::empty()
        },
    }
}

/// The keys of all matches of a category's pattern, in order.
pub open spec fn scan_keys(category: Category, matches: Seq<Seq<Seq<char>>>) -> Seq<KeyView>
    decreases matches.len(),
{
    if matches.len() == 0 {
        Seq::empty()
    } else {
        scan_keys(category, matches.drop_last()) + match_keys(category, matches.last())
    }
}

/// The source of the pattern for a category.
pub open spec fn category_pattern(category: Category) -> Seq<char> {
    match category {
        Category::Create => CREATE_PATTERN@,
        Category::Add => ADD_PATTERN@,
        Category::DropColumn => DROP_COLUMN_PATTERN@,
        Category::RenameColumn => RENAME_COLUMN_PATTERN@,
        Category::Drop => DROP_PATTERN@,
    }
}

/// Migration text as the classifier reads it: runs of white space made one
/// space, then lower case.
pub open spec fn normalized(text: Seq<char>) -> Seq<char> {
    lower_of(regex_replaced(MULTI_SPACE_PATTERN@, text, " "@))
}

/// The keys of a category found in already normalized text.
pub open spec fn category_keys(category: Category, normal: Seq<char>) -> Seq<KeyView> {
    scan_keys(category, regex_captures(category_pattern(category), normal))
}

/// Whether the `regex` crate accepts every pattern of the checker.
pub open spec fn regex_compiles_all() -> bool {
    &&& regex_compiles(MULTI_SPACE_PATTERN@)
    &&& regex_compiles(UP_FILE_PATTERN@)
    &&& regex_compiles(DOWN_FILE_PATTERN@)
    &&& regex_compiles(CREATE_PATTERN@)
    &&& regex_compiles(ADD_PATTERN@)
    &&& regex_compiles(DROP_PATTERN@)
    &&& regex_compiles(DROP_COLUMN_PATTERN@)
    &&& regex_compiles(RENAME_COLUMN_PATTERN@)
}

/// The checker's compiled patterns.
pub struct Patterns {
    pub multi_space: Pattern,
    pub up_file: Pattern,
    pub down_file: Pattern,
    pub create: Pattern,
    pub add: Pattern,
    pub drop: Pattern,
    pub drop_column: Pattern,
    pub rename_column: Pattern,
}

impl Patterns {
    /// Each pattern was compiled from its constant.
    pub open spec fn is_standard(&self) -> bool {
        &&& self.multi_space.source_view() == MULTI_SPACE_PATTERN@
        &&& self.up_file.source_view() == UP_FILE_PATTERN@
        &&& self.down_file.source_view() == DOWN_FILE_PATTERN@
        &&& self.create.source_view() == CREATE_PATTERN@
        &&& self.add.source_view() == ADD_PATTERN@
        &&& self.drop.source_view() == DROP_PATTERN@
        &&& self.drop_column.source_view() == DROP_COLUMN_PATTERN@
        &&& self.rename_column.source_view() == RENAME_COLUMN_PATTERN@
    }

    /// Compiles every pattern once; `None` if the `regex` crate refuses one.
    pub fn new() -> (r: Option<Patterns>)
        ensures
            r is Some <==> {
                &&& regex_compiles(MULTI_SPACE_PATTERN@)
                &&& regex_compiles(UP_FILE_PATTERN@)
                &&& regex_compiles(DOWN_FILE_PATTERN@)
                &&& regex_compiles(CREATE_PATTERN@)
                &&& regex_compiles(ADD_PATTERN@)
                &&& regex_compiles(DROP_PATTERN@)
                &&& regex_compiles(DROP_COLUMN_PATTERN@)
                &&& regex_compiles(RENAME_COLUMN_PATTERN@)
            },
            r matches Some(p) ==> p.is_standard(),
    {
        let multi_space = Pattern::new(MULTI_SPACE_PATTERN)?;
        let up_file = Pattern::new(UP_FILE_PATTERN)?;
        let down_file = Pattern::new(DOWN_FILE_PATTERN)?;
        let create = Pattern::new(CREATE_PATTERN)?;
        let add = Pattern::new(ADD_PATTERN)?;
        let drop = Pattern::new(DROP_PATTERN)?;
        let drop_column = Pattern::new(DROP_COLUMN_PATTERN)?;
        let rename_column = Pattern::new(RENAME_COLUMN_PATTERN)?;
        Some(
            Patterns {
                multi_space,
                up_file,
                down_file,
                create,
                add,
                drop,
                drop_column,
                rename_column,
            },
        )
    }

    /// The compiled pattern of a category.
    pub fn of_category(&self, category: Category) -> (r: &Pattern)
        requires
            self.is_standard(),
        ensures
            r.source_view() == category_pattern(category),
    {
        match category {
            Category::Create => &self.create,
            Category::Add => &self.add,
            Category::DropColumn => &self.drop_column,
            Category::RenameColumn => &self.rename_column,
            Category::Drop => &self.drop,
        }
    }

    /// Collapses every run of two or more white-space characters into one
    /// space, then lower-cases the text.
    pub fn normalize(&self, text: &str) -> (r: String)
        requires
            self.is_standard(),
        ensures
            r@ == normalized(text@),
    {
        let collapsed = self.multi_space.replace_all(text, " ");
        lowercase(collapsed.as_str())
    }

    /// The keys of one category that normalized text holds, in order of
    /// their matches.
    pub fn extract(&self, category: Category, normal: &str) -> (r: Vec<EntityKey>)
        requires
            self.is_standard(),
        ensures
            keys_view(r@) == category_keys(category, normal@),
    {
        let matches = self.of_category(category).captures(normal);
        keys_from_matches(category, &matches)
    }
}

/// The key for an entity kind and name.
pub fn get_key(entity: &str, name: &str) -> (r: EntityKey)
    ensures
        r@ == key_of(entity@, name@),
{
    EntityKey { kind: entity.to_string(), name: name.to_string() }
}

/// Splits a `DROP` name list at commas, strips trailing ` cascade` words
/// from each entry, trims it of white space at both ends, and leaves out the
/// entries that come out empty.
pub fn remove_cascade(name: &str) -> (r: Vec<String>)
    ensures
        r.deep_view() == drop_list_names(name@),
{
    let pieces = split_at_char(name, ',');
    let mut out: Vec<String> = Vec::new();
    let mut i: usize = 0;
    while i < pieces.len()
        invariant
            i <= pieces.len(),
            out.deep_view() == nonempty_names(pieces.deep_view().subrange(0, i as int)),
        decreases pieces.len() - i,
    {
        let stripped = strip_suffix_repeatedly(pieces[i].as_str(), " cascade");
        let leading = trim_leading_white_space(stripped.as_str());
        let cleaned = trim_trailing_white_space(leading.as_str());
        let ghost before = out.deep_view();
        proof {
            assert(pieces.deep_view().subrange(0, i + 1).drop_last() =~= pieces.deep_view().subrange(
                0,
                i as int,
            ));
        }
        if cleaned.unicode_len() > 0 {
            out.push(cleaned);
            assert(out.deep_view() =~= before.push(cleaned@));
        }
        i = i + 1;
    }
    assert(pieces.deep_view().subrange(0, pieces.len() as int) =~= pieces.deep_view());
    out
}

/// Whether `kind` is one of the entity kinds the checker follows.
pub fn entity_kind_allowed(kind: &str) -> (r: bool)
    ensures
        r == is_entity_kind(kind@),
{
    chars_equal(kind, "table") || chars_equal(kind, "type") || chars_equal(kind, "column")
        || chars_equal(kind, "view")
}

/// The keys that one match contributes.
fn keys_of_match(category: Category, groups: &Vec<String>) -> (r: Vec<EntityKey>)
    ensures
        keys_view(r@) == match_keys(category, groups.deep_view()),
{
    let mut out: Vec<EntityKey> = Vec::new();
    proof {
        assert(keys_view(out@) =~= Seq::<KeyView>::empty());
    }
    match category {
        Category::Create | Category::Add => {
            if groups.len() >= 2 && entity_kind_allowed(groups[0].as_str()) {
                out.push(get_key(groups[0].as_str(), groups[1].as_str()));
                assert(keys_view(out@) =~= seq![key_of(groups[0]@, groups[1]@)]);
            }
        },
        Category::DropColumn | Category::RenameColumn => {
            if groups.len() >= 1 {
                out.push(get_key("column", groups[0].as_str()));
                assert(keys_view(out@) =~= seq![key_of("column"@, groups[0]@)]);
            }
        },
        Category::Drop => {
            if groups.len() >= 2 && entity_kind_allowed(groups[0].as_str()) && !chars_equal(
                groups[0].as_str(),
                "column",
            ) {
                let names = remove_cascade(groups[1].as_str());
                let mut j: usize = 0;
                while j < names.len()
                    invariant
                        groups.len() >= 2,
                        j <= names.len(),
                        names.deep_view() == drop_list_names(groups[1]@),
                        keys_view(out@) == keys_for_names(
                            groups[0]@,
                            names.deep_view().subrange(0, j as int),
                        ),
                    decreases names.len() - j,
                {
                    let ghost prev = out@;
                    let k = get_key(groups[0].as_str(), names[j].as_str());
                    out.push(k);
                    assert(keys_view(out@) =~= keys_view(prev).push(k@));
                    assert(keys_view(out@) =~= keys_for_names(
                        groups[0]@,
                        names.deep_view().subrange(0, j + 1),
                    ));
                    j = j + 1;
                }
                assert(names.deep_view().subrange(0, names.len() as int) =~= names.deep_view());
            }
        },
    }
    out
}

/// The keys of all matches of a category's pattern, in order.
pub fn keys_from_matches(category: Category, matches: &Vec<Vec<String>>) -> (r: Vec<EntityKey>)
    ensures
        keys_view(r@) == scan_keys(category, matches.deep_view()),
{
    let mut out: Vec<EntityKey> = Vec::new();
    let mut i: usize = 0;
    proof {
        assert(keys_view(out@) =~= Seq::<KeyView>::empty());
    }
    while i < matches.len()
        invariant
            i <= matches.len(),
            keys_view(out@) == scan_keys(category, matches.deep_view().subrange(0, i as int)),
        decreases matches.len() - i,
    {
        let found = keys_of_match(category, &matches[i]);
        let ghost before = out@;
        let mut j: usize = 0;
        while j < found.len()
            invariant
                j <= found.len(),
                keys_view(out@) == keys_view(before) + keys_view(found@.subrange(0, j as int)),
            decreases found.len() - j,
        {
            let ghost prev = out@;
            out.push(found[j].duplicate());
            assert(keys_view(out@) =~= keys_view(prev).push(found@[j as int]@));
            assert(keys_view(found@.subrange(0, j + 1)) =~= keys_view(found@.subrange(0, j as int)).push(found@[j as int]@));
            assert(keys_view(out@) =~= keys_view(before) + keys_view(found@.subrange(0, j + 1)));
            j = j + 1;
        }
        proof {
            assert(found@.subrange(0, found.len() as int) =~= found@);
            assert(matches.deep_view().subrange(0, i + 1).drop_last() =~= matches.deep_view().subrange(
                0,
                i as int,
            ));
        }
        i = i + 1;
    }
    assert(matches.deep_view().subrange(0, matches.len() as int) =~= matches.deep_view());
    out
}

} // verus!
