//! A handler that redirects requests whose path a regular expression
//! rewrites.
use vstd::prelude::*;

use crate::handler::{Action, Error};
use crate::headers::header_line;
use crate::request::Request;
use crate::response::{status_line, Response};
use crate::text::{push_str, str_eq, trim, trim_str, Text};
use vstd::utf8::encode_utf8;

verus! {

#[verifier::external_type_specification]
#[verifier::external_body]
pub struct ExRegex(regex::Regex);

/// Whether `regex::Regex::new` accepts a pattern.
pub uninterp spec fn regex_valid(pattern: Seq<char>) -> bool;

/// What `Regex::replace` makes of a text: the first match of the pattern
/// replaced by the replacement, with `$n` groups expanded.
pub uninterp spec fn regex_replaced(pattern: Seq<char>, text: Seq<char>, replacement: Seq<char>) -> Seq<
    char,
>;

/// A compiled regular expression with the pattern it was compiled from.
pub struct Pattern {
    re: regex::Regex,
    source: String,
}

impl Pattern {
    pub closed spec fn view(&self) -> Seq<char> {
        self.source@
    }
}

/// Wraps `regex::Regex::new`: a compiled pattern when the pattern is
/// accepted. Whether it is accepted depends on the pattern alone and is left
/// as the name `regex_valid`.
#[verifier::external_body]
fn compile(pattern: &str) -> (r: Option<Pattern>)
    ensures
        r is Some <==> regex_valid(pattern@),
        r matches Some(p) ==> p@ == pattern@,
{
    regex::Regex::new(pattern).ok().map(|re| Pattern { re, source: pattern.to_string() })
}

/// Wraps `Regex::replace`. The result depends on the pattern, the text and
/// the replacement alone and is left as the name `regex_replaced`.
#[verifier::external_body]
fn replace(p: &Pattern, text: &str, replacement: &str) -> (r: String)
    ensures
        r@ == regex_replaced(p@, text@, replacement@),
{
    p.re.replace(text, replacement).into_owned()
}

/// Redirects to the rewritten path when the rewrite changes it.
pub struct Rewriter {
    url_match_re: Pattern,
    substitution: String,
}

impl Rewriter {
    pub closed spec fn pattern(&self) -> Seq<char> {
        self.url_match_re@
    }

    pub closed spec fn substitution(&self) -> Seq<char> {
        self.substitution@
    }

    /// A rewriter; the error names a pattern that does not compile.
    pub fn new<P: Text, S: Text>(url_match_re: P, substitution: S) -> (r: Result<Rewriter, String>)
        ensures
            regex_valid(url_match_re.text()) ==> (r matches Ok(w) && w.pattern() == url_match_re.text()
                && w.substitution() == substitution.text()),
            !regex_valid(url_match_re.text()) ==> (r matches Err(e) && e@ == "bad regex: "@
                + url_match_re.text()),
    {
        let pattern = url_match_re.to_text();
        match compile(pattern.as_str()) {
            Some(re) => Ok(Rewriter { url_match_re: re, substitution: substitution.to_text() }),
            None => {
                let mut e = String::new();
                push_str(&mut e, "bad regex: ");
                push_str(&mut e, pattern.as_str());
                Err(e)
            },
        }
    }

    /// The response for a request path: a `301 Moved Permanently` to the
    /// rewritten path, or nothing when the rewrite leaves the path as it is.
    pub open spec fn response_for(&self, path: Seq<char>) -> Option<Seq<char>> {
        let location = regex_replaced(self.pattern(), path, self.substitution());
        if location == path {
            None
        } else {
            Some(redirect_text(location))
        }
    }

    /// The response text for a request path (see `response_for`).
    pub fn response_text(&self, path: &str) -> (r: Option<String>)
        ensures
            r matches Some(t) ==> self.response_for(path@) == Some(t@),
            r is None ==> self.response_for(path@) is None,
    {
        let location = replace(&self.url_match_re, path, self.substitution.as_str());
        if str_eq(location.as_str(), path) {
            return None;
        }
        let response = Response::new(crate::status::from(crate::status::MOVED_PERMANENTLY));
        let mut t = response.serialize_status();
        push_str(&mut t, "\r\n");
        push_str(&mut t, "Location");
        push_str(&mut t, ": ");
        let v = trim_str(location.as_str());
        push_str(&mut t, v.as_str());
        push_str(&mut t, "\r\n\r\n");
        assert(t@ =~= redirect_text(location@));
        Some(t)
    }

    /// Handles a request: writes the redirect for its path, if there is one,
    /// as UTF-8 bytes after what the writer already holds, and is done.
    pub fn handle(&self, r: &Request, w: &mut Vec<u8>) -> (res: Result<Action, Error>)
        requires
            r@.url is Some,
        ensures
            res == Ok::<Action, Error>(Action::Done),
            final(w)@ == old(w)@ + match self.response_for(r@.url->0.path) {
                Some(t) => encode_utf8(t),
                None => Seq::<u8>::empty(),
            },
    {
        let path = r.abs_path();
        match self.response_text(path.as_str()) {
            Some(t) => {
                let bytes = t.as_str().as_bytes();
                let ghost start = w@;
                let mut i: usize = 0;
                while i < bytes.len()
                    invariant
                        i <= bytes@.len(),
                        w@ == start + bytes@.take(i as int),
                    decreases bytes@.len() - i,
                {
                    w.push(bytes[i]);
                    i = i + 1;
                    assert(w@ =~= start + bytes@.take(i as int));
                }
                assert(bytes@.take(bytes@.len() as int) =~= bytes@);
            },
            None => {
                assert(w@ =~= old(w)@ + Seq::<u8>::empty());
            },
        }
        Ok(Action::Done)
    }
}

/// A `301 Moved Permanently` response to a location, with the `Location`
/// header written as this name is spelled, and no body.
pub open spec fn redirect_text(location: Seq<char>) -> Seq<char> {
    status_line((301u16, "Moved Permanently"@)) + "\r\n"@ + header_line("Location"@, trim(location))
        + "\r\n\r\n"@
}

} // verus!
