//! Picking a post of a news listing from what a reader typed: a prefix of
//! its title or of its short id, case folded.

use vstd::prelude::*;
use crate::pattern::{lower_of, lowercase};
use crate::text::{has_prefix, starts_with};

verus! {

/// A post of the listing.
#[derive(Debug, Clone)]
pub struct Post {
    pub short_id: String,
    pub title: String,
    pub url: String,
    pub comment_count: u32,
    pub tags: Vec<String>,
}

/// Why no single post was picked.
#[derive(Debug, Clone, PartialEq)]
pub enum MatchError {
    /// More than one title or id starts with the input; these did.
    Multiple { matches: Vec<String> },
    /// No title or id starts with the input.
    NotFound,
}

/// What one post contributes: the titles and ids that start with `input`
/// (each compared in lower case).
pub open spec fn post_hits(p: Post, input: Seq<char>) -> Seq<Seq<char>> {
    (if starts_with(lower_of(p.title@), input) { seq![p.title@] } else { Seq::empty() })
        + (if starts_with(lower_of(p.short_id@), input) { seq![p.short_id@] } else { Seq::empty() })
}

/// The hits among `posts`, in order.
pub open spec fn all_hits(posts: Seq<Post>, input: Seq<char>) -> Seq<Seq<char>>
    decreases posts.len(),
{
    if posts.len() == 0 {
        Seq::empty()
    } else {
        all_hits(posts.drop_last(), input) + post_hits(posts.last(), input)
    }
}

/// What the last post with a hit leads to: its short id for comments, its
/// link otherwise.
pub open spec fn last_pick(posts: Seq<Post>, input: Seq<char>, for_comments: bool) -> Seq<char>
    decreases posts.len(),
{
    if posts.len() == 0 {
        Seq::empty()
    } else if post_hits(posts.last(), input).len() > 0 {
        if for_comments { posts.last().short_id@ } else { posts.last().url@ }
    } else {
        last_pick(posts.drop_last(), input, for_comments)
    }
}

/// The post that `input` picks: its short id when `for_comments`, else its
/// link. Exactly one title or id may start with `input`.
pub fn check_for_matches(input: &str, posts: &Vec<Post>, for_comments: bool) -> (r: Result<String, MatchError>)
    ensures
        all_hits(posts@, input@).len() == 0 ==> r == Err::<String, MatchError>(MatchError::NotFound),
        all_hits(posts@, input@).len() > 1 ==> (r matches Err(MatchError::Multiple { matches })
            && matches.deep_view() == all_hits(posts@, input@)),
        all_hits(posts@, input@).len() == 1 ==> (r matches Ok(s) && s@ == last_pick(posts@, input@, for_comments)),
{
    let mut matches: Vec<String> = Vec::new();
    let mut out = String::new();
    let mut i: usize = 0;
    assert(posts@.subrange(0, 0) =~= Seq::<Post>::empty());
    assert(matches.deep_view() =~= Seq::<Seq<char>>::empty());
    while i < posts.len()
        invariant
            i <= posts@.len(),
            matches.deep_view() == all_hits(posts@.subrange(0, i as int), input@),
            out@ == last_pick(posts@.subrange(0, i as int), input@, for_comments),
        decreases posts.len() - i,
    {
        let post = &posts[i];
        let ghost before = matches.deep_view();
        assert(posts@.subrange(0, i + 1).drop_last() =~= posts@.subrange(0, i as int));
        let title = lowercase(post.title.as_str());
        let by_title = has_prefix(title.as_str(), input);
        if by_title {
            matches.push(post.title.clone());
            out = if for_comments { post.short_id.clone() } else { post.url.clone() };
        }
        let ghost mid = matches.deep_view();
        let id = lowercase(post.short_id.as_str());
        let by_id = has_prefix(id.as_str(), input);
        if by_id {
            matches.push(post.short_id.clone());
            out = if for_comments { post.short_id.clone() } else { post.url.clone() };
        }
        proof {
            let t: Seq<Seq<char>> = if by_title { seq![post.title@] } else { Seq::empty() };
            let d: Seq<Seq<char>> = if by_id { seq![post.short_id@] } else { Seq::empty() };
            assert(mid =~= before + t);
            assert(matches.deep_view() =~= mid + d);
            assert(post_hits(*post, input@) == t + d);
            assert(matches.deep_view() =~= before + (t + d));
        }
        i = i + 1;
    }
    assert(posts@.subrange(0, posts.len() as int) =~= posts@);
    if matches.len() > 1 {
        return Err(MatchError::Multiple { matches });
    }
    if matches.len() == 0 {
        return Err(MatchError::NotFound);
    }
    Ok(out)
}

} // verus!
