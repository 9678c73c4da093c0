//! Absolute URLs, parsed and resolved by the `url` crate. A `ParsedUrl` keeps the
//! parts that the library reads as plain values beside the parsed URL.
use vstd::prelude::*;

verus! {

#[verifier::external_type_specification]
#[verifier::external_body]
pub struct ExternalUrl(url::Url);

/// The parts of a URL that the library reads: its serialization, its path,
/// and the name-value pairs of its query (percent-decoded, in order).
pub struct UrlView {
    pub href: Seq<char>,
    pub path: Seq<char>,
    pub query_pairs: Seq<(Seq<char>, Seq<char>)>,
}

/// What `url::Url::parse` yields for a string, seen through its parts.
pub uninterp spec fn parsed_url(s: Seq<char>) -> Option<UrlView>;

/// What `url::Url::join` yields for a base URL and a reference.
pub uninterp spec fn joined_url(base: UrlView, reference: Seq<char>) -> Option<UrlView>;

/// The URL after `url::Url::set_path`.
pub uninterp spec fn url_with_path(base: UrlView, path: Seq<char>) -> UrlView;

/// An absolute URL.
#[derive(Debug)]
pub struct ParsedUrl {
    inner: url::Url,
    href: String,
    path: String,
    query_pairs: Vec<(String, String)>,
}

/// Wraps `url::Url::parse`. The result depends on `s` alone and is left as
/// the name `parsed_url`; the parts of the parsed URL are copied out.
#[verifier::external_body]
pub(crate) fn parse_url(s: &str) -> (r: Option<ParsedUrl>)
    ensures
        r matches Some(u) ==> parsed_url(s@) == Some(u@),
        r is None ==> parsed_url(s@) is None,
{
    let u = url::Url::parse(s).ok()?;
    Some(ParsedUrl {
        href: u.as_str().to_string(),
        path: u.path().to_string(),
        query_pairs: u.query_pairs().into_owned().collect(),
        inner: u,
    })
}

/// Wraps `url::Url::join`: the reference resolved against the base. The
/// result depends on the base and the reference alone and is left as the name
/// `joined_url`.
#[verifier::external_body]
pub(crate) fn join_url(base: &ParsedUrl, reference: &str) -> (r: Option<ParsedUrl>)
    ensures
        r matches Some(u) ==> joined_url(base@, reference@) == Some(u@),
        r is None ==> joined_url(base@, reference@) is None,
{
    let u = base.inner.join(reference).ok()?;
    Some(ParsedUrl {
        href: u.as_str().to_string(),
        path: u.path().to_string(),
        query_pairs: u.query_pairs().into_owned().collect(),
        inner: u,
    })
}

/// Wraps `url::Url::set_path` on a copy of the base. The result depends on
/// the base and the path alone and is left as the name `url_with_path`.
#[verifier::external_body]
pub(crate) fn set_url_path(base: &ParsedUrl, path: &str) -> (r: ParsedUrl)
    ensures
        r@ == url_with_path(base@, path@),
{
    let mut u = base.inner.clone();
    u.set_path(path);
    ParsedUrl {
        href: u.as_str().to_string(),
        path: u.path().to_string(),
        query_pairs: u.query_pairs().into_owned().collect(),
        inner: u,
    }
}

/// Wraps `url::Url::clone`. Nothing is stated of the copy: the parts that the
/// library reads are copied beside it.
#[verifier::external_body]
fn clone_inner(u: &url::Url) -> url::Url {
    u.clone()
}

fn copy_pairs(v: &Vec<(String, String)>) -> (r: Vec<(String, String)>)
    ensures
        r.deep_view() == v.deep_view(),
{
    let mut r: Vec<(String, String)> = Vec::new();
    let mut i: usize = 0;
    while i < v.len()
        invariant
            i <= v.len(),
            r.deep_view() == v.deep_view().take(i as int),
        decreases v.len() - i,
    {
        let a = v[i].0.clone();
        let b = v[i].1.clone();
        let ghost before = r.deep_view();
        r.push((a, b));
        assert(r.deep_view() =~= before.push((a@, b@)));
        assert(v.deep_view()[i as int] == (v@[i as int].0@, v@[i as int].1@));
        i = i + 1;
        assert(r.deep_view() =~= v.deep_view().take(i as int));
    }
    assert(v.deep_view().take(v.len() as int) =~= v.deep_view());
    r
}

impl ParsedUrl {
    pub closed spec fn view(&self) -> UrlView {
        UrlView {
            href: self.href@,
            path: self.path@,
            query_pairs: self.query_pairs.deep_view(),
        }
    }

    /// The serialization of the URL.
    pub fn as_str(&self) -> (s: &str)
        ensures
            s@ == self@.href,
    {
        self.href.as_str()
    }

    /// The path of the URL.
    pub fn path(&self) -> (s: &str)
        ensures
            s@ == self@.path,
    {
        self.path.as_str()
    }

    /// The decoded name-value pairs of the query, in order.
    pub fn query_pairs(&self) -> (r: &[(String, String)])
        ensures
            r.deep_view() == self@.query_pairs,
    {
        self.query_pairs.as_slice()
    }
}

impl Clone for ParsedUrl {
    fn clone(&self) -> (r: Self)
        ensures
            r@ == self@,
    {
        ParsedUrl {
            inner: clone_inner(&self.inner),
            href: self.href.clone(),
            path: self.path.clone(),
            query_pairs: copy_pairs(&self.query_pairs),
        }
    }
}

} // verus!
