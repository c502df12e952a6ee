//! The parts of a request: the path of the page and the fields of its query.

use vstd::prelude::*;
use crate::text::str_eq;

verus! {

/// The name/value pairs that `form_urlencoded::parse` decodes from the
/// bytes of a query string.
pub uninterp spec fn form_pairs(query: Seq<char>) -> Seq<(Seq<char>, Seq<char>)>;

/// The path segments (where the URL has a path that can be split) and the
/// query that `url::Url::parse` finds in an absolute URL; `None` where the
/// URL does not parse.
pub uninterp spec fn url_parts(url: Seq<char>) -> Option<(Option<Seq<Seq<char>>>, Option<Seq<char>>)>;

/// The view of decoded pairs.
pub open spec fn pairs_view(pairs: Seq<(String, String)>) -> Seq<(Seq<char>, Seq<char>)> {
    pairs.map_values(|p: (String, String)| (p.0@, p.1@))
}

/// The view of a list of strings.
pub open spec fn strings_view(v: Seq<String>) -> Seq<Seq<char>> {
    v.map_values(|s: String| s@)
}

/// Calls `url::form_urlencoded::parse` on the bytes of `query` and collects
/// the decoded pairs. Its result is named `form_pairs`.
#[verifier::external_body]
fn parse_form(query: &str) -> (r: Vec<(String, String)>)
    ensures
        pairs_view(r@) == form_pairs(query@),
{
    url::form_urlencoded::parse(query.as_bytes()).map(|(k, v)| (k.into_owned(), v.into_owned())).collect()
}

/// Calls `url::Url::parse` on `url`, and of the result `path_segments` and
/// `query`. Its result is named `url_parts`.
#[verifier::external_body]
fn parse_url(url: &str) -> (r: Option<(Option<Vec<String>>, Option<String>)>)
    ensures
        match r {
            None => url_parts(url@) is None,
            Some((segs, q)) => url_parts(url@) == Some((
                match segs { None => None, Some(v) => Some(strings_view(v@)) },
                match q { None => None, Some(s) => Some(s@) },
            )),
        },
{
    match url::Url::parse(url) {
        Ok(u) => Some((
            u.path_segments().map(|s| s.map(|x| x.to_string()).collect()),
            u.query().map(|q| q.to_string()),
        )),
        Err(_) => None,
    }
}

/// The value of the last pair named `key`, as a map filled from the pairs in
/// order holds it.
pub open spec fn last_value(pairs: Seq<(Seq<char>, Seq<char>)>, key: Seq<char>) -> Option<Seq<char>>
    decreases pairs.len(),
{
    if pairs.len() == 0 {
        None
    } else if pairs.last().0 == key {
        Some(pairs.last().1)
    } else {
        last_value(pairs.drop_last(), key)
    }
}

/// The fields of a query; none where the request has no query.
pub open spec fn query_fields(query: Option<Seq<char>>) -> Seq<(Seq<char>, Seq<char>)> {
    match query {
        None => Seq::empty(),
        Some(q) => form_pairs(q),
    }
}

/// The decoded fields of the query of a request.
pub fn query_pairs(query: &Option<String>) -> (r: Vec<(String, String)>)
    ensures
        pairs_view(r@) == query_fields(match query { None => None, Some(q) => Some(q@) }),
{
    match query {
        None => {
            let r: Vec<(String, String)> = Vec::new();
            assert(pairs_view(r@) =~= Seq::<(Seq<char>, Seq<char>)>::empty());
            r
        },
        Some(q) => parse_form(q.as_str()),
    }
}

/// The value of the last field named `key`.
pub fn field_value(pairs: &Vec<(String, String)>, key: &str) -> (r: Option<String>)
    ensures
        match r {
            None => last_value(pairs_view(pairs@), key@) is None,
            Some(v) => last_value(pairs_view(pairs@), key@) == Some(v@),
        },
{
    let ghost pv = pairs_view(pairs@);
    let mut i: usize = pairs.len();
    assert(pv.take(i as int) =~= pv);
    while i > 0
        invariant
            i <= pairs.len(),
            pv == pairs_view(pairs@),
            last_value(pv, key@) == last_value(pv.take(i as int), key@),
        decreases i,
    {
        proof {
            assert(pv.take(i as int).drop_last() =~= pv.take(i - 1));
            assert(pv.take(i as int).last() == (pairs@[i - 1].0@, pairs@[i - 1].1@));
        }
        if str_eq(pairs[i - 1].0.as_str(), key) {
            return Some(pairs[i - 1].1.clone());
        }
        i = i - 1;
    }
    assert(pv.take(0) =~= Seq::<(Seq<char>, Seq<char>)>::empty());
    None
}

/// The URL under which a request for `path` (given without its leading
/// slash) is parsed.
pub open spec fn request_url(path: Seq<char>) -> Seq<char> {
    "http://localhost/"@ + path
}

/// The path segments and the query of a request for `path`; no segment and
/// no query where the URL does not parse.
pub open spec fn request_parts(path: Seq<char>) -> (Seq<Seq<char>>, Option<Seq<char>>) {
    match url_parts(request_url(path)) {
        None => (Seq::empty(), None),
        Some((segs, q)) => (
            match segs { None => Seq::empty(), Some(s) => s },
            q,
        ),
    }
}

/// Splits the path of a request (without its leading slash) into its
/// segments and its query.
pub fn parse_path(path: &str) -> (r: (Vec<String>, Option<String>))
    ensures
        (strings_view(r.0@), match r.1 { None => None, Some(q) => Some(q@) }) == request_parts(path@),
{
    let mut url = String::new();
    url.append("http://localhost/");
    url.append(path);
    match parse_url(url.as_str()) {
        None => {
            let v: Vec<String> = Vec::new();
            assert(strings_view(v@) =~= Seq::<Seq<char>>::empty());
            (v, None)
        },
        Some((segs, q)) => {
            let v = match segs {
                None => {
                    let v: Vec<String> = Vec::new();
                    assert(strings_view(v@) =~= Seq::<Seq<char>>::empty());
                    v
                },
                Some(v) => v,
            };
            (v, q)
        },
    }
}

} // verus!
