//! HTTP requests.
use vstd::prelude::*;

use crate::body::{Body, BodyModel};
use crate::headers::{first_value, put, serialized, values_or_empty, EntriesView, Headers};
use crate::router::{param_insert, Params, ParamsView};
use crate::text::{
    chars_of, decimal, lowercase, push_number, push_str, trim, trimmed_pieces, trimmed_split,
    utf8_lossy, Text,
};
use crate::message::{Message, MessageView};
use crate::parser::{fresh_parser, parse_keeps_message_kind, parse_outcome, Outcome, RequestParser, State};
use crate::url::{parse_url, parsed_url, set_url_path, url_with_path, ParsedUrl, UrlView};

verus! {

#[derive(Debug, Clone, Copy, PartialEq, Eq, Hash, Structural)]
pub enum Method {
    GET,
    POST,
    PUT,
    HEAD,
    OPTIONS,
    CONNECT,
    DELETE,
    TRACE,
    PATCH,
}

/// The name under which a method is written in a request line.
pub open spec fn method_name(m: Method) -> Seq<char> {
    match m {
        Method::GET => "GET"@,
        Method::POST => "POST"@,
        Method::PUT => "PUT"@,
        Method::HEAD => "HEAD"@,
        Method::OPTIONS => "OPTIONS"@,
        Method::CONNECT => "CONNECT"@,
        Method::DELETE => "DELETE"@,
        Method::TRACE => "TRACE"@,
        Method::PATCH => "PATCH"@,
    }
}

/// The method with the given name, if it is one of the nine known methods.
pub open spec fn method_named(s: Seq<char>) -> Option<Method> {
    if s == "GET"@ {
        Some(Method::GET)
    } else if s == "HEAD"@ {
        Some(Method::HEAD)
    } else if s == "POST"@ {
        Some(Method::POST)
    } else if s == "PUT"@ {
        Some(Method::PUT)
    } else if s == "OPTIONS"@ {
        Some(Method::OPTIONS)
    } else if s == "CONNECT"@ {
        Some(Method::CONNECT)
    } else if s == "DELETE"@ {
        Some(Method::DELETE)
    } else if s == "TRACE"@ {
        Some(Method::TRACE)
    } else if s == "PATCH"@ {
        Some(Method::PATCH)
    } else {
        None
    }
}

impl Method {
    /// The name of the method.
    pub fn as_str(&self) -> (s: &'static str)
        ensures
            s@ == method_name(*self),
    {
        match self {
            Method::GET => "GET",
            Method::POST => "POST",
            Method::PUT => "PUT",
            Method::HEAD => "HEAD",
            Method::OPTIONS => "OPTIONS",
            Method::CONNECT => "CONNECT",
            Method::DELETE => "DELETE",
            Method::TRACE => "TRACE",
            Method::PATCH => "PATCH",
        }
    }

    /// Looks a method up by its exact name.
    pub fn from_name(s: &str) -> (r: Option<Method>)
        ensures
            r == method_named(s@),
    {
        let names: [&'static str; 9] = [
            "GET",
            "HEAD",
            "POST",
            "PUT",
            "OPTIONS",
            "CONNECT",
            "DELETE",
            "TRACE",
            "PATCH",
        ];
        let methods: [Method; 9] = [
            Method::GET,
            Method::HEAD,
            Method::POST,
            Method::PUT,
            Method::OPTIONS,
            Method::CONNECT,
            Method::DELETE,
            Method::TRACE,
            Method::PATCH,
        ];
        let mut i: usize = 0;
        while i < 9
            invariant
                i <= 9,
                names@ == seq!["GET", "HEAD", "POST", "PUT", "OPTIONS", "CONNECT", "DELETE", "TRACE", "PATCH"],
                methods@ == seq![Method::GET, Method::HEAD, Method::POST, Method::PUT, Method::OPTIONS, Method::CONNECT, Method::DELETE, Method::TRACE, Method::PATCH],
                forall|j: int| 0 <= j < i ==> s@ != names@[j]@,
            decreases 9 - i,
        {
            if crate::text::str_eq(s, names[i]) {
                proof {
                    reveal_strlit("GET");
                    reveal_strlit("HEAD");
                    reveal_strlit("POST");
                    reveal_strlit("PUT");
                    reveal_strlit("OPTIONS");
                    reveal_strlit("CONNECT");
                    reveal_strlit("DELETE");
                    reveal_strlit("TRACE");
                    reveal_strlit("PATCH");
                }
                return Some(methods[i]);
            }
            i = i + 1;
        }
        proof {
            reveal_strlit("GET");
            reveal_strlit("HEAD");
            reveal_strlit("POST");
            reveal_strlit("PUT");
            reveal_strlit("OPTIONS");
            reveal_strlit("CONNECT");
            reveal_strlit("DELETE");
            reveal_strlit("TRACE");
            reveal_strlit("PATCH");
        }
        None
    }
}

pub struct RequestView {
    pub method: Method,
    pub handler_path: Option<Seq<char>>,
    pub base_url: Seq<char>,
    pub url: Option<UrlView>,
    pub version: Seq<char>,
    pub headers: EntriesView,
    pub body: BodyModel,
    pub params: ParamsView,
}

/// An HTTP request.
#[derive(Debug)]
pub struct Request {
    method: Method,
    pub handler_path: Option<String>,
    base_url: String,
    url: Option<ParsedUrl>,
    version: String,
    pub headers: Headers,
    pub body: Body,
    pub params: Params,
}

/// The name-value pairs inserted in order; a later value for a name replaces
/// the earlier one.
pub open spec fn pairs_to_params(pairs: Seq<(Seq<char>, Seq<char>)>) -> ParamsView
    decreases pairs.len(),
{
    if pairs.len() == 0 {
        Seq::<(Seq<char>, Seq<char>)>::empty()
    } else {
        let prev = pairs_to_params(pairs.drop_last());
        param_insert(prev, pairs.last().0, pairs.last().1)
    }
}

/// The form fields of an `application/x-www-form-urlencoded` body: pieces
/// separated by `&`, each with exactly one `=`; other pieces are skipped.
pub open spec fn form_params(pieces: Seq<Seq<char>>) -> ParamsView
    decreases pieces.len(),
{
    if pieces.len() == 0 {
        Seq::<(Seq<char>, Seq<char>)>::empty()
    } else {
        let prev = form_params(pieces.drop_last());
        let kv = crate::text::split(pieces.last(), '=');
        if kv.len() == 2 {
            param_insert(prev, kv[0], kv[1])
        } else {
            prev
        }
    }
}

/// The cookies of a `cookie` header: `;`-separated `name=value` pieces, each
/// trimmed.
pub open spec fn cookie_params(pieces: Seq<Seq<char>>) -> ParamsView
    decreases pieces.len(),
{
    if pieces.len() == 0 {
        Seq::<(Seq<char>, Seq<char>)>::empty()
    } else {
        let prev = cookie_params(pieces.drop_last());
        let kv = trimmed_split(pieces.last(), '=');
        param_insert(prev, kv[0], kv[1])
    }
}

/// Whether every piece of a `cookie` header has a `=`.
pub open spec fn cookie_pieces_ok(header: Seq<char>) -> bool {
    forall|i: int|
        0 <= i < trimmed_split(header, ';').len() ==> #[trigger] crate::text::split(
            trimmed_split(header, ';')[i],
            '=',
        ).len() >= 2
}

/// The URL that `set_path` gives: the base URL (or, failing it,
/// `http://UNSET`) with the path replaced.
pub open spec fn url_for_path(base: Seq<char>, path: Seq<char>, old_url: Option<UrlView>) -> Option<UrlView> {
    match parsed_url(base) {
        Some(u) => Some(url_with_path(u, path)),
        None => match parsed_url("http://UNSET"@) {
            Some(u) => Some(url_with_path(u, path)),
            None => old_url,
        },
    }
}

/// The request line and the header block of a request.
pub open spec fn request_head(r: RequestView) -> Seq<char> {
    method_name(r.method) + " "@ + r.url->0.path + " HTTP/1.1\r\n"@ + serialized(r.headers)
}

fn copy_opt_string(s: &Option<String>) -> (r: Option<String>)
    ensures
        r matches Some(x) ==> s matches Some(y) && x@ == y@,
        r is None ==> s is None,
{
    match s {
        Some(x) => Some(x.clone()),
        None => None,
    }
}

/// The trimmed name and value of one `name=value` piece of a `cookie` header.
fn cookie_pair(piece: &String) -> (r: (String, String))
    requires
        crate::text::split(piece@, '=').len() >= 2,
    ensures
        r.0@ == trimmed_split(piece@, '=')[0],
        r.1@ == trimmed_split(piece@, '=')[1],
{
    let pc = chars_of(piece.as_str());
    let kv = trimmed_pieces(pc.as_slice(), '=');
    assert(kv@.map_values(|x: String| x@).len() == kv@.len());
    assert(kv@.map_values(|x: String| x@)[0] == kv@[0]@);
    assert(kv@.map_values(|x: String| x@)[1] == kv@[1]@);
    (kv[0].clone(), kv[1].clone())
}

impl Request {
    pub closed spec fn view(&self) -> RequestView {
        RequestView {
            method: self.method,
            handler_path: match self.handler_path {
                Some(h) => Some(h@),
                None => None,
            },
            base_url: self.base_url@,
            url: match self.url {
                Some(u) => Some(u@),
                None => None,
            },
            version: self.version@,
            headers: self.headers@,
            body: self.body@,
            params: self.params@,
        }
    }

    /// An empty GET request whose paths are resolved against `base_url`.
    pub fn new<T: Text>(base_url: T) -> (r: Request)
        ensures
            r@.method == Method::GET,
            r@.handler_path is None,
            r@.base_url == base_url.text(),
            r@.url is None,
            r@.version.len() == 0,
            r@.headers.len() == 0,
            r@.body == (BodyModel::Full { content: Seq::<u8>::empty(), expected: 0 }),
            r@.params.len() == 0,
    {
        Request {
            base_url: base_url.to_text(),
            handler_path: None,
            url: None,
            method: Method::GET,
            version: String::new(),
            headers: Headers::new(),
            body: Body::new(),
            params: Params::new(),
        }
    }

    /// Parses a whole request from text with a request parser; the error is
    /// `could not parse buffer` when the parser fails. Text on which the
    /// parser cannot go on is left out.
    pub fn from<T: Text>(buf: T) -> (r: Result<Request, String>)
        requires
            !(parse_outcome(
                fresh_parser(State::StartRequest),
                vstd::utf8::encode_utf8(buf.text()),
            ) is Panicked),
        ensures
            parse_outcome(fresh_parser(State::StartRequest), vstd::utf8::encode_utf8(buf.text()))
                matches Outcome::Failed(_, _) ==> r matches Err(e) && e@
                == "could not parse buffer"@,
            parse_outcome(fresh_parser(State::StartRequest), vstd::utf8::encode_utf8(buf.text()))
                matches Outcome::Running(q) ==> r matches Ok(req) && q.message
                == MessageView::Request(req@),
    {
        let text = buf.to_text();
        let bytes = text.as_str().as_bytes_vec();
        assert(bytes@ == vstd::utf8::encode_utf8(buf.text()));
        let mut parser = RequestParser::new();
        proof {
            parse_keeps_message_kind(fresh_parser(State::StartRequest), bytes@);
        }
        match parser.parse_buf(bytes.as_slice()) {
            Ok(()) => {},
            Err(_) => {
                return Err("could not parse buffer".to_string());
            },
        }
        let m = parser.get_message();
        match m {
            Message::Request(req) => Ok(req),
            _ => Err("could not parse buffer".to_string()),
        }
    }

    pub fn set_method(&mut self, method: Method)
        ensures
            final(self)@ == (RequestView { method, ..old(self)@ }),
    {
        self.method = method;
    }

    pub fn method(&self) -> (m: Method)
        ensures
            m == self@.method,
    {
        self.method
    }

    pub fn set_handler_path(&mut self, handler: String)
        ensures
            final(self)@ == (RequestView { handler_path: Some(handler@), ..old(self)@ }),
    {
        self.handler_path = Some(handler);
    }

    pub fn handler_path(&self) -> (r: &Option<String>)
        ensures
            r matches Some(h) ==> self@.handler_path == Some(h@),
            r is None ==> self@.handler_path is None,
    {
        &self.handler_path
    }

    pub fn set_version<T: Text>(&mut self, version: T)
        ensures
            final(self)@ == (RequestView { version: version.text(), ..old(self)@ }),
    {
        self.version = version.to_text();
    }

    pub fn version(&self) -> (r: &String)
        ensures
            r@ == self@.version,
    {
        &self.version
    }

    /// Replaces the body with the UTF-8 bytes of the text.
    pub fn set_body<T: Text>(&mut self, body: T)
        ensures
            final(self)@ == (RequestView {
                body: BodyModel::Full {
                    content: vstd::utf8::encode_utf8(body.text()),
                    expected: vstd::utf8::encode_utf8(body.text()).len(),
                },
                ..old(self)@
            }),
    {
        self.body = Body::from_text(body);
    }

    /// Switches the body to chunked encoding and adds `transfer-encoding:
    /// chunked`.
    pub fn set_chunked(&mut self)
        ensures
            final(self)@ == (RequestView {
                body: BodyModel::Chunked { chunks: Seq::<Seq<u8>>::empty(), complete: false },
                headers: put(old(self)@.headers, lowercase("transfer-encoding"@), seq![trim("chunked"@)]),
                ..old(self)@
            }),
    {
        self.body.set_chunked();
        self.headers.set("transfer-encoding", "chunked");
    }

    pub fn url(&self) -> (r: &Option<ParsedUrl>)
        ensures
            r matches Some(u) ==> self@.url == Some(u@),
            r is None ==> self@.url is None,
    {
        &self.url
    }

    pub fn set_url(&mut self, url: ParsedUrl)
        ensures
            final(self)@ == (RequestView { url: Some(url@), ..old(self)@ }),
    {
        self.url = Some(url);
    }

    pub fn set_base_url<T: Text>(&mut self, base_url: T)
        ensures
            final(self)@ == (RequestView { base_url: base_url.text(), ..old(self)@ }),
    {
        self.base_url = base_url.to_text();
    }

    /// Sets the URL to the base URL with the given path.
    pub fn set_path<T: Text>(&mut self, path: T)
        ensures
            final(self)@ == (RequestView {
                url: url_for_path(old(self)@.base_url, path.text(), old(self)@.url),
                ..old(self)@
            }),
    {
        let p = path.to_text();
        let base = match parse_url(self.base_url.as_str()) {
            Some(u) => Some(u),
            None => parse_url("http://UNSET"),
        };
        match base {
            Some(u) => {
                self.url = Some(set_url_path(&u, p.as_str()));
            },
            None => {},
        }
    }

    /// Replaces the values of a header with a single value.
    pub fn set_header<K: Text, V: Text>(&mut self, key: K, val: V)
        ensures
            final(self)@ == (RequestView {
                headers: put(old(self)@.headers, lowercase(key.text()), seq![trim(val.text())]),
                ..old(self)@
            }),
    {
        self.headers.set(key, val);
    }

    /// Appends a value to a header.
    pub fn push_header<K: Text, V: Text>(&mut self, key: K, val: V)
        ensures
            final(self)@ == (RequestView {
                headers: put(
                    old(self)@.headers,
                    lowercase(key.text()),
                    values_or_empty(old(self)@.headers, lowercase(key.text())).push(trim(val.text())),
                ),
                ..old(self)@
            }),
    {
        self.headers.add(key, val);
    }

    /// The headers, for changing them.
    pub fn headers_mut(&mut self) -> (r: &mut Headers)
        ensures
            r@ == old(self)@.headers,
            final(self)@ == (RequestView { headers: final(r)@, ..old(self)@ }),
    {
        &mut self.headers
    }

    /// The body, for changing it.
    pub(crate) fn body_mut(&mut self) -> (r: &mut Body)
        ensures
            r@ == old(self)@.body,
            final(self)@ == (RequestView { body: final(r)@, ..old(self)@ }),
    {
        &mut self.body
    }

    pub fn headers(&self) -> (r: &Headers)
        ensures
            r@ == self@.headers,
    {
        &self.headers
    }

    /// The body received so far, read as UTF-8.
    pub fn body_text(&self) -> (s: String)
        ensures
            s@ == crate::response::body_text(self@.body),
    {
        let bytes = self.body.try_content();
        crate::text::from_utf8_lossy(bytes.as_slice())
    }

    /// The form fields of the body, when the request has a `content-type`
    /// header: parsed when it is `application/x-www-form-urlencoded`, empty
    /// otherwise.
    pub fn post_params(&self) -> (r: Option<Params>)
        ensures
            match first_value(self@.headers, "content-type"@) {
                None => r is None,
                Some(ct) => r matches Some(p) && p@ == (if ct == "application/x-www-form-urlencoded"@ {
                    form_params(crate::text::split(crate::response::body_text(self@.body), '&'))
                } else {
                    Seq::<(Seq<char>, Seq<char>)>::empty()
                }),
            },
    {
        match self.headers.first_value("content-type") {
            Some(ct) => {
                let mut result = Params::new();
                if crate::text::str_eq(ct.as_str(), "application/x-www-form-urlencoded") {
                    let body = self.body_text();
                    let bc = chars_of(body.as_str());
                    let parts = crate::text::split_chars(bc.as_slice(), '&');
                    let ghost pv = parts@.map_values(|x: String| x@);
                    let mut i: usize = 0;
                    while i < parts.len()
                        invariant
                            i <= parts.len(),
                            pv == parts@.map_values(|x: String| x@),
                            result@ == form_params(pv.take(i as int)),
                        decreases parts.len() - i,
                    {
                        assert(pv[i as int] == parts@[i as int]@);
                        assert(pv.take(i + 1).drop_last() =~= pv.take(i as int));
                        let pc = chars_of(parts[i].as_str());
                        let kv = crate::text::split_chars(pc.as_slice(), '=');
                        if kv.len() == 2 {
                            assert(kv@.map_values(|x: String| x@)[0] == kv@[0]@);
                            assert(kv@.map_values(|x: String| x@)[1] == kv@[1]@);
                            result.insert(kv[0].clone(), kv[1].clone());
                        }
                        i = i + 1;
                    }
                    assert(pv.take(parts.len() as int) =~= pv);
                }
                Some(result)
            },
            None => None,
        }
    }

    /// The decoded query pairs of the URL, if it has been set.
    pub fn query_params(&self) -> (r: Option<Params>)
        ensures
            match self@.url {
                None => r is None,
                Some(u) => r matches Some(p) && p@ == pairs_to_params(u.query_pairs),
            },
    {
        match &self.url {
            Some(u) => {
                let pairs = u.query_pairs();
                let mut result = Params::new();
                let mut i: usize = 0;
                while i < pairs.len()
                    invariant
                        i <= pairs.len(),
                        pairs.deep_view() == u@.query_pairs,
                        result@ == pairs_to_params(u@.query_pairs.take(i as int)),
                    decreases pairs.len() - i,
                {
                    let (ref a, ref b) = pairs[i];
                    assert(pairs.deep_view()[i as int] == (a@, b@));
                    assert(u@.query_pairs.take(i + 1).drop_last() =~= u@.query_pairs.take(i as int));
                    result.insert(a.clone(), b.clone());
                    i = i + 1;
                }
                assert(u@.query_pairs.take(pairs.len() as int) =~= u@.query_pairs);
                Some(result)
            },
            None => None,
        }
    }

    /// The cookies of the `cookie` header. Every `;`-separated piece of the
    /// header must hold a `=`.
    pub fn cookies(&self) -> (r: Option<Params>)
        requires
            first_value(self@.headers, "cookie"@) matches Some(c) ==> cookie_pieces_ok(c),
        ensures
            match first_value(self@.headers, "cookie"@) {
                None => r is None,
                Some(c) => r matches Some(p) && p@ == cookie_params(trimmed_split(c, ';')),
            },
    {
        match self.headers.first_value("cookie") {
            Some(c) => {
                let cc = chars_of(c.as_str());
                let pieces = trimmed_pieces(cc.as_slice(), ';');
                let ghost pv = pieces@.map_values(|x: String| x@);
                let mut map = Params::new();
                let mut i: usize = 0;
                while i < pieces.len()
                    invariant
                        i <= pieces.len(),
                        pv == pieces@.map_values(|x: String| x@),
                        pv == trimmed_split(c@, ';'),
                        cookie_pieces_ok(c@),
                        map@ == cookie_params(pv.take(i as int)),
                    decreases pieces.len() - i,
                {
                    assert(pv[i as int] == pieces@[i as int]@);
                    assert(pv.take(i + 1).drop_last() =~= pv.take(i as int));
                    assert(crate::text::split(pv[i as int], '=').len() >= 2);
                    let (k, v) = cookie_pair(&pieces[i]);
                    map.insert(k, v);
                    i = i + 1;
                }
                assert(pv.take(pieces.len() as int) =~= pv);
                Some(map)
            },
            None => None,
        }
    }

    /// The path of the URL.
    pub fn abs_path(&self) -> (s: String)
        requires
            self@.url is Some,
        ensures
            s@ == self@.url->0.path,
    {
        match &self.url {
            Some(u) => u.path().to_string(),
            None => String::new(),
        }
    }

    /// The first value of the `host` header.
    pub fn host(&self) -> (r: Option<&String>)
        ensures
            r matches Some(h) ==> first_value(self@.headers, "host"@) == Some(h@),
            r is None ==> first_value(self@.headers, "host"@) is None,
    {
        self.headers.first_value("host")
    }

    /// The path below the handler's path, or the whole path when no handler
    /// path is set. The handler path must be a prefix of the path.
    pub fn path(&self) -> (s: String)
        requires
            self@.url is Some,
            self@.handler_path matches Some(h) ==> h.is_prefix_of(self@.url->0.path),
        ensures
            s@ == match self@.handler_path {
                Some(h) => self@.url->0.path.skip(h.len() as int),
                None => self@.url->0.path,
            },
    {
        let p = self.abs_path();
        match &self.handler_path {
            Some(h) => {
                let pc = chars_of(p.as_str());
                let n = h.unicode_len();
                assert(n <= pc.len());
                crate::text::string_of_range(pc.as_slice(), n, pc.len())
            },
            None => p,
        }
    }

    /// The request line and the header block, separated by CRLF.
    pub fn serialize_headers(&self) -> (s: String)
        requires
            self@.url is Some,
        ensures
            s@ == request_head(self@),
    {
        let mut r = String::new();
        push_str(&mut r, self.method.as_str());
        push_str(&mut r, " ");
        let p = self.abs_path();
        push_str(&mut r, p.as_str());
        push_str(&mut r, " HTTP/1.1\r\n");
        let h = self.headers.serialize();
        push_str(&mut r, h.as_str());
        r
    }

    /// The whole request as text: the head, CRLF, and, when the body is not
    /// empty, a `Content-Length` line (counting characters), an empty line
    /// and the body.
    pub fn serialize(&self) -> (s: String)
        requires
            self@.url is Some,
        ensures
            ({
                let b = crate::response::body_text(self@.body);
                s@ == request_head(self@) + "\r\n"@ + (if b.len() > 0 {
                    "Content-Length: "@ + decimal(b.len()) + "\r\n\r\n"@ + b
                } else {
                    Seq::<char>::empty()
                })
            }),
    {
        let mut r = self.serialize_headers();
        push_str(&mut r, "\r\n");
        let b = self.body_text();
        let n = b.unicode_len();
        if n > 0 {
            push_str(&mut r, "Content-Length: ");
            push_number(&mut r, n as u64, 10);
            push_str(&mut r, "\r\n\r\n");
            push_str(&mut r, b.as_str());
        }
        r
    }
}

impl Clone for Request {
    fn clone(&self) -> (r: Self)
        ensures
            r@ == self@,
    {
        Request {
            method: self.method,
            handler_path: copy_opt_string(&self.handler_path),
            base_url: self.base_url.clone(),
            url: match &self.url {
                Some(u) => Some(u.clone()),
                None => None,
            },
            version: self.version.clone(),
            headers: self.headers.clone(),
            body: self.body.clone(),
            params: self.params.copy(),
        }
    }
}

impl Default for Request {
    fn default() -> (r: Request)
        ensures
            r@.base_url == "http://UNSET"@,
            r@.url is None,
            r@.method == Method::GET,
    {
        Request::new("http://UNSET")
    }
}


/// Each method is written by its own name, the one a request line carries
/// (`GET`, `HEAD`, `POST`, `PUT`, `OPTIONS`, `CONNECT`, `DELETE`, `TRACE`,
/// `PATCH`), and is read back from that name and from no other text.
pub proof fn method_names()
    ensures
        method_name(Method::GET) == "GET"@,
        method_name(Method::HEAD) == "HEAD"@,
        method_name(Method::POST) == "POST"@,
        method_name(Method::PUT) == "PUT"@,
        method_name(Method::OPTIONS) == "OPTIONS"@,
        method_name(Method::CONNECT) == "CONNECT"@,
        method_name(Method::DELETE) == "DELETE"@,
        method_name(Method::TRACE) == "TRACE"@,
        method_name(Method::PATCH) == "PATCH"@,
        forall|m: Method| #[trigger] method_named(method_name(m)) == Some(m),
        forall|s: Seq<char>|
            #[trigger] method_named(s) matches Some(m) ==> s == method_name(m),
{
    reveal_strlit("GET");
    reveal_strlit("HEAD");
    reveal_strlit("POST");
    reveal_strlit("PUT");
    reveal_strlit("OPTIONS");
    reveal_strlit("CONNECT");
    reveal_strlit("DELETE");
    reveal_strlit("TRACE");
    reveal_strlit("PATCH");
    assert forall|m: Method| #[trigger] method_named(method_name(m)) == Some(m) by {
        match m {
            Method::GET => {
            },
            Method::HEAD => {
                assert("HEAD"@[0] != "GET"@[0] || "HEAD"@.len() != "GET"@.len() || "HEAD"@[1] != "GET"@[1] || "HEAD"@[2] != "GET"@[2]);
            },
            Method::POST => {
                assert("POST"@[0] != "GET"@[0] || "POST"@.len() != "GET"@.len() || "POST"@[1] != "GET"@[1] || "POST"@[2] != "GET"@[2]);
                assert("POST"@[0] != "HEAD"@[0] || "POST"@.len() != "HEAD"@.len() || "POST"@[1] != "HEAD"@[1] || "POST"@[2] != "HEAD"@[2]);
            },
            Method::PUT => {
                assert("PUT"@[0] != "GET"@[0] || "PUT"@.len() != "GET"@.len() || "PUT"@[1] != "GET"@[1] || "PUT"@[2] != "GET"@[2]);
                assert("PUT"@[0] != "HEAD"@[0] || "PUT"@.len() != "HEAD"@.len() || "PUT"@[1] != "HEAD"@[1] || "PUT"@[2] != "HEAD"@[2]);
                assert("PUT"@[0] != "POST"@[0] || "PUT"@.len() != "POST"@.len() || "PUT"@[1] != "POST"@[1] || "PUT"@[2] != "POST"@[2]);
            },
            Method::OPTIONS => {
                assert("OPTIONS"@[0] != "GET"@[0] || "OPTIONS"@.len() != "GET"@.len() || "OPTIONS"@[1] != "GET"@[1] || "OPTIONS"@[2] != "GET"@[2]);
                assert("OPTIONS"@[0] != "HEAD"@[0] || "OPTIONS"@.len() != "HEAD"@.len() || "OPTIONS"@[1] != "HEAD"@[1] || "OPTIONS"@[2] != "HEAD"@[2]);
                assert("OPTIONS"@[0] != "POST"@[0] || "OPTIONS"@.len() != "POST"@.len() || "OPTIONS"@[1] != "POST"@[1] || "OPTIONS"@[2] != "POST"@[2]);
                assert("OPTIONS"@[0] != "PUT"@[0] || "OPTIONS"@.len() != "PUT"@.len() || "OPTIONS"@[1] != "PUT"@[1] || "OPTIONS"@[2] != "PUT"@[2]);
            },
            Method::CONNECT => {
                assert("CONNECT"@[0] != "GET"@[0] || "CONNECT"@.len() != "GET"@.len() || "CONNECT"@[1] != "GET"@[1] || "CONNECT"@[2] != "GET"@[2]);
                assert("CONNECT"@[0] != "HEAD"@[0] || "CONNECT"@.len() != "HEAD"@.len() || "CONNECT"@[1] != "HEAD"@[1] || "CONNECT"@[2] != "HEAD"@[2]);
                assert("CONNECT"@[0] != "POST"@[0] || "CONNECT"@.len() != "POST"@.len() || "CONNECT"@[1] != "POST"@[1] || "CONNECT"@[2] != "POST"@[2]);
                assert("CONNECT"@[0] != "PUT"@[0] || "CONNECT"@.len() != "PUT"@.len() || "CONNECT"@[1] != "PUT"@[1] || "CONNECT"@[2] != "PUT"@[2]);
                assert("CONNECT"@[0] != "OPTIONS"@[0] || "CONNECT"@.len() != "OPTIONS"@.len() || "CONNECT"@[1] != "OPTIONS"@[1] || "CONNECT"@[2] != "OPTIONS"@[2]);
            },
            Method::DELETE => {
                assert("DELETE"@[0] != "GET"@[0] || "DELETE"@.len() != "GET"@.len() || "DELETE"@[1] != "GET"@[1] || "DELETE"@[2] != "GET"@[2]);
                assert("DELETE"@[0] != "HEAD"@[0] || "DELETE"@.len() != "HEAD"@.len() || "DELETE"@[1] != "HEAD"@[1] || "DELETE"@[2] != "HEAD"@[2]);
                assert("DELETE"@[0] != "POST"@[0] || "DELETE"@.len() != "POST"@.len() || "DELETE"@[1] != "POST"@[1] || "DELETE"@[2] != "POST"@[2]);
                assert("DELETE"@[0] != "PUT"@[0] || "DELETE"@.len() != "PUT"@.len() || "DELETE"@[1] != "PUT"@[1] || "DELETE"@[2] != "PUT"@[2]);
                assert("DELETE"@[0] != "OPTIONS"@[0] || "DELETE"@.len() != "OPTIONS"@.len() || "DELETE"@[1] != "OPTIONS"@[1] || "DELETE"@[2] != "OPTIONS"@[2]);
                assert("DELETE"@[0] != "CONNECT"@[0] || "DELETE"@.len() != "CONNECT"@.len() || "DELETE"@[1] != "CONNECT"@[1] || "DELETE"@[2] != "CONNECT"@[2]);
            },
            Method::TRACE => {
                assert("TRACE"@[0] != "GET"@[0] || "TRACE"@.len() != "GET"@.len() || "TRACE"@[1] != "GET"@[1] || "TRACE"@[2] != "GET"@[2]);
                assert("TRACE"@[0] != "HEAD"@[0] || "TRACE"@.len() != "HEAD"@.len() || "TRACE"@[1] != "HEAD"@[1] || "TRACE"@[2] != "HEAD"@[2]);
                assert("TRACE"@[0] != "POST"@[0] || "TRACE"@.len() != "POST"@.len() || "TRACE"@[1] != "POST"@[1] || "TRACE"@[2] != "POST"@[2]);
                assert("TRACE"@[0] != "PUT"@[0] || "TRACE"@.len() != "PUT"@.len() || "TRACE"@[1] != "PUT"@[1] || "TRACE"@[2] != "PUT"@[2]);
                assert("TRACE"@[0] != "OPTIONS"@[0] || "TRACE"@.len() != "OPTIONS"@.len() || "TRACE"@[1] != "OPTIONS"@[1] || "TRACE"@[2] != "OPTIONS"@[2]);
                assert("TRACE"@[0] != "CONNECT"@[0] || "TRACE"@.len() != "CONNECT"@.len() || "TRACE"@[1] != "CONNECT"@[1] || "TRACE"@[2] != "CONNECT"@[2]);
                assert("TRACE"@[0] != "DELETE"@[0] || "TRACE"@.len() != "DELETE"@.len() || "TRACE"@[1] != "DELETE"@[1] || "TRACE"@[2] != "DELETE"@[2]);
            },
            Method::PATCH => {
                assert("PATCH"@[0] != "GET"@[0] || "PATCH"@.len() != "GET"@.len() || "PATCH"@[1] != "GET"@[1] || "PATCH"@[2] != "GET"@[2]);
                assert("PATCH"@[0] != "HEAD"@[0] || "PATCH"@.len() != "HEAD"@.len() || "PATCH"@[1] != "HEAD"@[1] || "PATCH"@[2] != "HEAD"@[2]);
                assert("PATCH"@[0] != "POST"@[0] || "PATCH"@.len() != "POST"@.len() || "PATCH"@[1] != "POST"@[1] || "PATCH"@[2] != "POST"@[2]);
                assert("PATCH"@[0] != "PUT"@[0] || "PATCH"@.len() != "PUT"@.len() || "PATCH"@[1] != "PUT"@[1] || "PATCH"@[2] != "PUT"@[2]);
                assert("PATCH"@[0] != "OPTIONS"@[0] || "PATCH"@.len() != "OPTIONS"@.len() || "PATCH"@[1] != "OPTIONS"@[1] || "PATCH"@[2] != "OPTIONS"@[2]);
                assert("PATCH"@[0] != "CONNECT"@[0] || "PATCH"@.len() != "CONNECT"@.len() || "PATCH"@[1] != "CONNECT"@[1] || "PATCH"@[2] != "CONNECT"@[2]);
                assert("PATCH"@[0] != "DELETE"@[0] || "PATCH"@.len() != "DELETE"@.len() || "PATCH"@[1] != "DELETE"@[1] || "PATCH"@[2] != "DELETE"@[2]);
                assert("PATCH"@[0] != "TRACE"@[0] || "PATCH"@.len() != "TRACE"@.len() || "PATCH"@[1] != "TRACE"@[1] || "PATCH"@[2] != "TRACE"@[2]);
            },
        }
    }
}

} // verus!
