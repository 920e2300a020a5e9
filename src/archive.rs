//! Query URLs for the web archive's CDX search service.

use vstd::prelude::*;
use crate::text::{decimal, decimal_string};

verus! {

/// The search endpoint; the query follows it.
pub const CDX_BASE: &'static str = "http://web.archive.org/cdx/search/cdx?url=";

/// The output format and fields asked for.
pub const CDX_PARAMS: &'static str = "&output=json&fl=original,timestamp,statuscode,mimetype,digest,length";

/// An optional `&name=value` parameter.
pub open spec fn optional_param(name: Seq<char>, value: Option<Seq<char>>) -> Seq<char> {
    match value {
        Some(v) => name + v,
        None => Seq::empty(),
    }
}

/// The search URL for `query` and its options, in the order collapse,
/// from, to, limit.
pub open spec fn query_url(
    query: Seq<char>,
    unique: bool,
    from_date: Option<Seq<char>>,
    to_date: Option<Seq<char>>,
    limit: Option<nat>,
) -> Seq<char> {
    CDX_BASE@ + query + CDX_PARAMS@ + (if unique { "&collapse=digest"@ } else { Seq::empty() })
        + optional_param("&from="@, from_date) + optional_param("&to="@, to_date) + optional_param(
        "&limit="@,
        match limit {
            Some(l) => Some(decimal(l)),
            None => None,
        },
    )
}

/// The search URL for `query`: duplicates collapsed when `unique`, and
/// optional first and last timestamps and a result limit.
pub fn get_query_url(
    query: &str,
    unique: bool,
    from_date: Option<String>,
    to_date: Option<String>,
    limit: Option<usize>,
) -> (r: String)
    ensures
        r@ == query_url(
            query@,
            unique,
            match from_date {
                Some(f) => Some(f@),
                None => None,
            },
            match to_date {
                Some(t) => Some(t@),
                None => None,
            },
            match limit {
                Some(l) => Some(l as nat),
                None => None,
            },
        ),
{
    let mut url = CDX_BASE.to_string();
    url.append(query);
    url.append(CDX_PARAMS);
    if unique {
        url.append("&collapse=digest");
    }
    if let Some(from) = &from_date {
        url.append("&from=");
        url.append(from.as_str());
    }
    if let Some(to) = &to_date {
        url.append("&to=");
        url.append(to.as_str());
    }
    if let Some(l) = limit {
        url.append("&limit=");
        let digits = decimal_string(l);
        url.append(digits.as_str());
    }
    proof {
        let e = Seq::<char>::empty();
        assert(url@ =~= query_url(
            query@,
            unique,
            match from_date {
                Some(f) => Some(f@),
                None => None,
            },
            match to_date {
                Some(t) => Some(t@),
                None => None,
            },
            match limit {
                Some(l) => Some(l as nat),
                None => None,
            },
        ));
    }
    url
}

} // verus!
