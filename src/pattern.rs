//! Regular-expression matching and case folding, taken from the `regex`
//! crate and from std. Everything else in the library reasons about their
//! results through the names declared here.

use vstd::prelude::*;

verus! {

/// The `regex` crate's compiled expression, carried as an opaque value.
#[verifier::external_type_specification]
#[verifier::external_body]
pub struct ExRegex(regex::Regex);

/// For each successive non-overlapping match of `pattern` in `text`, the text of
/// each capture group after the whole match, in group order (an empty sequence
/// for a group that took no part in the match).
pub uninterp spec fn regex_captures(pattern: Seq<char>, text: Seq<char>) -> Seq<Seq<Seq<char>>>;

/// `text` with every non-overlapping match of `pattern` replaced by `replacement`.
pub uninterp spec fn regex_replaced(
    pattern: Seq<char>,
    text: Seq<char>,
    replacement: Seq<char>,
) -> Seq<char>;

/// Whether the `regex` crate accepts `source` as an expression.
pub uninterp spec fn regex_compiles(source: Seq<char>) -> bool;

/// `s` in lower case, by the Unicode rules of `str::to_lowercase`.
pub uninterp spec fn lower_of(s: Seq<char>) -> Seq<char>;

/// A regular expression together with the source it was compiled from. Only
/// `Pattern::new` builds one, so `compiled` is always `source` compiled.
pub struct Pattern {
    source: String,
    compiled: regex::Regex,
}

impl Pattern {
    /// The source text of the expression.
    pub closed spec fn source_view(&self) -> Seq<char> {
        self.source@
    }

    /// Compiles `source`; `None` when the `regex` crate refuses it.
    pub fn new(source: &str) -> (r: Option<Pattern>)
        ensures
            r is Some <==> regex_compiles(source@),
            r matches Some(p) ==> p.source_view() == source@,
    {
        match compile(source) {
            Some(compiled) => Some(Pattern { source: source.to_string(), compiled }),
            None => None,
        }
    }

    /// All matches in `text`, each as the list of its capture groups.
    pub fn captures(&self, text: &str) -> (r: Vec<Vec<String>>)
        ensures
            r.deep_view() == regex_captures(self.source_view(), text@),
    {
        captures_of(self, text)
    }

    /// `text` with every match replaced by `replacement`.
    pub fn replace_all(&self, text: &str, replacement: &str) -> (r: String)
        ensures
            r@ == regex_replaced(self.source_view(), text@, replacement@),
    {
        replaced(self, text, replacement)
    }
}

/// Relies on `regex::Regex::new`: it compiles `source`, or fails on a pattern
/// that is invalid or too large.
#[verifier::external_body]
fn compile(source: &str) -> (r: Option<regex::Regex>)
    ensures
        r is Some <==> regex_compiles(source@),
{
    regex::Regex::new(source).ok()
}

/// Relies on `regex::Regex::captures_iter`: it yields the successive
/// non-overlapping matches of the compiled expression, leftmost first, and
/// `Captures::iter` gives the whole match followed by each group.
#[verifier::external_body]
fn captures_of(p: &Pattern, text: &str) -> (r: Vec<Vec<String>>)
    ensures
        r.deep_view() == regex_captures(p.source@, text@),
{
    p.compiled.captures_iter(text).map(|c| {
        c.iter().skip(1).map(|g| g.map_or(String::new(), |m| m.as_str().to_string())).collect()
    }).collect()
}

/// Relies on `regex::Regex::replace_all`: it replaces every non-overlapping
/// match of the compiled expression.
#[verifier::external_body]
fn replaced(p: &Pattern, text: &str, replacement: &str) -> (r: String)
    ensures
        r@ == regex_replaced(p.source@, text@, replacement@),
{
    p.compiled.replace_all(text, replacement).into_owned()
}

/// Relies on `str::to_lowercase`: the result depends on the characters alone,
/// and an empty string stays empty.
#[verifier::external_body]
pub fn lowercase(s: &str) -> (r: String)
    ensures
        r@ == lower_of(s@),
        s@.len() == 0 ==> r@.len() == 0,
{
    s.to_lowercase()
}

} // verus!
