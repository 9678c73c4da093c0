//! HTTP responses.
use vstd::prelude::*;

use crate::body::{Body, BodyModel, IntoBody};
use crate::cookie::{Cookie, CookieView};
use crate::headers::{put, serialized, values_or_empty, EntriesView, Headers};
use crate::status::{self, Status};
use crate::text::{
    chars_of, decimal, lowercase, push_number, push_str, splitn_ws, splitn_whitespace, trim,
    trimmed_pieces, trimmed_split, utf8_lossy, Text,
};

verus! {

pub struct ResponseView {
    pub version: Seq<char>,
    pub status: (u16, Seq<char>),
    pub headers: EntriesView,
    pub body: BodyModel,
    pub cookies: Seq<CookieView>,
}

#[derive(Debug)]
pub struct Response {
    pub version: String,
    pub status: Status,
    pub headers: Headers,
    pub body: Body,
    pub cookies: Vec<Cookie>,
}

/// The status line that responses are written with.
pub open spec fn status_line(status: (u16, Seq<char>)) -> Seq<char> {
    "HTTP/1.1 "@ + decimal(status.0 as nat) + " "@ + status.1
}

/// The text that a body gives when its bytes are read as UTF-8.
pub open spec fn body_text(b: BodyModel) -> Seq<char> {
    utf8_lossy(
        match b {
            BodyModel::Chunked { chunks, .. } => crate::body::concat(chunks),
            BodyModel::Full { content, .. } => content,
        },
    )
}

/// The number of bytes received of a body.
pub open spec fn received_len(b: BodyModel) -> nat {
    match b {
        BodyModel::Chunked { chunks, .. } => crate::body::concat(chunks).len(),
        BodyModel::Full { content, .. } => content.len(),
    }
}

/// The header fields that `serialize` writes: a `Content-Length` value is
/// appended when the body is not empty.
pub open spec fn headers_for_length(h: EntriesView, len: nat) -> EntriesView {
    if len > 0 {
        put(
            h,
            lowercase("Content-Length"@),
            values_or_empty(h, lowercase("Content-Length"@)).push(trim(decimal(len))),
        )
    } else {
        h
    }
}

/// A response as `serialize` writes it: the status line, the header block
/// (with the body length added when the body is not empty), an empty line and
/// the body.
pub open spec fn response_text(status: (u16, Seq<char>), headers: EntriesView, body: BodyModel) -> Seq<
    char,
> {
    status_line(status) + "\r\n"@ + serialized(headers_for_length(headers, received_len(body)))
        + "\r\n\r\n"@ + body_text(body)
}

fn copy_cookies(v: &Vec<Cookie>) -> (r: Vec<Cookie>)
    ensures
        r@.map_values(|c: Cookie| c@) == v@.map_values(|c: Cookie| c@),
{
    let mut r: Vec<Cookie> = Vec::new();
    let mut i: usize = 0;
    while i < v.len()
        invariant
            i <= v.len(),
            r@.map_values(|c: Cookie| c@) == v@.map_values(|c: Cookie| c@).take(i as int),
        decreases v.len() - i,
    {
        let c = v[i].clone();
        let ghost before = r@.map_values(|c: Cookie| c@);
        r.push(c);
        assert(r@.map_values(|c: Cookie| c@) =~= before.push(c@));
        i = i + 1;
        assert(r@.map_values(|c: Cookie| c@) =~= v@.map_values(|c: Cookie| c@).take(i as int));
    }
    assert(v@.map_values(|c: Cookie| c@).take(v.len() as int) =~= v@.map_values(|c: Cookie| c@));
    r
}

/// The lines of a response text: split at newlines, each trimmed.
pub open spec fn response_lines(buf: Seq<char>) -> Seq<Seq<char>> {
    trimmed_split(buf, '\n')
}

/// The number of header lines: those after the status line, up to the first
/// empty one.
pub open spec fn header_count(lines: Seq<Seq<char>>, i: int) -> int
    decreases lines.len() - i,
{
    if i >= lines.len() || lines[i].len() == 0 {
        i
    } else {
        header_count(lines, i + 1)
    }
}

/// The header fields that the header lines `lines[1..n]` give, each added as
/// `name: value`.
pub open spec fn headers_of_lines(lines: Seq<Seq<char>>, n: int) -> EntriesView
    decreases n,
{
    if n <= 1 {
        Seq::<(Seq<char>, Seq<Seq<char>>)>::empty()
    } else {
        let prev = headers_of_lines(lines, n - 1);
        let parts = crate::text::split(lines[n - 1], ':');
        let k = lowercase(trim(parts[0]));
        put(prev, k, values_or_empty(prev, k).push(trim(trim(parts[1]))))
    }
}

/// Whether every header line has a `:`.
pub open spec fn header_lines_ok(lines: Seq<Seq<char>>) -> bool {
    forall|i: int|
        1 <= i < header_count(lines, 1) ==> #[trigger] crate::text::split(lines[i], ':').len()
            >= 2
}

proof fn lemma_header_count(lines: Seq<Seq<char>>, i: int)
    requires
        1 <= i,
    ensures
        i <= header_count(lines, i),
        header_count(lines, i) <= lines.len() || header_count(lines, i) == i,
        forall|j: int| i <= j < header_count(lines, i) ==> lines[j].len() > 0,
        header_count(lines, i) < lines.len() ==> lines[header_count(lines, i)].len() == 0,
    decreases lines.len() - i,
{
    if i < lines.len() && lines[i].len() > 0 {
        lemma_header_count(lines, i + 1);
    }
}

impl Response {
    pub open spec fn view(&self) -> ResponseView {
        ResponseView {
            version: self.version@,
            status: self.status@,
            headers: self.headers@,
            body: self.body@,
            cookies: self.cookies@.map_values(|c: Cookie| c@),
        }
    }

    pub fn new(status: Status) -> (r: Response)
        ensures
            r@.version == "HTTP/1.1"@,
            r@.status == status@,
            r@.headers.len() == 0,
            r@.body == (BodyModel::Full { content: Seq::<u8>::empty(), expected: 0 }),
            r@.cookies.len() == 0,
    {
        Response {
            version: "HTTP/1.1".to_string(),
            status,
            headers: Headers::new(),
            cookies: Vec::new(),
            body: Body::new(),
        }
    }

    /// A `200 OK` response with the given body.
    pub fn from_body<B: IntoBody>(body: B) -> (r: Response)
        ensures
            r@.version == "HTTP/1.1"@,
            r@.status == (200u16, "OK"@),
            r@.headers.len() == 0,
            r@.body == body.body_view(),
            r@.cookies.len() == 0,
    {
        let mut r = Response::new(status::from(status::OK));
        r.set_body(body);
        r
    }

    pub fn with_body<B: IntoBody>(self, body: B) -> (r: Response)
        ensures
            r@ == (ResponseView { body: body.body_view(), ..self@ }),
    {
        let mut r = self;
        r.body = body.into_body();
        r
    }

    pub fn set_body<B: IntoBody>(&mut self, body: B)
        ensures
            final(self)@ == (ResponseView { body: body.body_view(), ..old(self)@ }),
    {
        self.body = body.into_body();
    }

    pub fn set_status(&mut self, status: Status)
        ensures
            final(self)@ == (ResponseView { status: status@, ..old(self)@ }),
    {
        self.status = status;
    }

    pub fn status(&self) -> (s: &Status)
        ensures
            s@ == self@.status,
    {
        &self.status
    }

    /// Replaces the values of a header with a single value.
    pub fn set_header<K: Text, V: Text>(&mut self, key: K, value: V)
        ensures
            final(self)@ == (ResponseView {
                headers: put(old(self)@.headers, lowercase(key.text()), seq![trim(value.text())]),
                ..old(self)@
            }),
    {
        self.headers.set(key, value);
    }

    /// The body received so far, read as UTF-8.
    pub fn body(&self) -> (s: String)
        ensures
            s@ == body_text(self@.body),
    {
        let bytes = self.body.try_content();
        crate::text::from_utf8_lossy(bytes.as_slice())
    }

    /// Adds a `set-cookie` header holding the cookie line.
    pub fn set_cookie(&mut self, cookie: Cookie)
        requires
            cookie.writable(),
        ensures
            final(self)@ == (ResponseView {
                headers: put(
                    old(self)@.headers,
                    lowercase("set-cookie"@),
                    values_or_empty(old(self)@.headers, lowercase("set-cookie"@)).push(
                        trim(
                            "Set-Cookie: "@ + cookie@.name + "="@ + cookie@.value + (if cookie@.flags.len() > 0 {
                                "; "@ + crate::cookie::flags_text(cookie@.flags)
                            } else {
                                Seq::<char>::empty()
                            }),
                        ),
                    ),
                ),
                ..old(self)@
            }),
    {
        let line = cookie.serialize();
        self.headers.add("set-cookie", line);
    }

    /// Switches the body to chunked encoding (unless it is already chunked)
    /// and adds `transfer-encoding: chunked`.
    pub fn set_chunked(&mut self)
        ensures
            final(self)@.body == (if old(self)@.body is Chunked {
                old(self)@.body
            } else {
                BodyModel::Chunked { chunks: Seq::<Seq<u8>>::empty(), complete: false }
            }),
            final(self)@.headers == put(
                old(self)@.headers,
                lowercase("transfer-encoding"@),
                values_or_empty(old(self)@.headers, lowercase("transfer-encoding"@)).push(
                    trim("chunked"@),
                ),
            ),
            final(self)@.version == old(self)@.version,
            final(self)@.status == old(self)@.status,
            final(self)@.cookies == old(self)@.cookies,
    {
        if !self.body.chunked() {
            self.body.set_chunked();
        }
        let _ = self.headers.get_first_or_set("transfer-encoding", "chunked");
    }

    /// The status line.
    pub fn serialize_status(&self) -> (s: String)
        ensures
            s@ == status_line(self@.status),
    {
        let mut s = String::new();
        push_str(&mut s, "HTTP/1.1 ");
        push_number(&mut s, self.status.code as u64, 10);
        push_str(&mut s, " ");
        push_str(&mut s, self.status.text.as_str());
        s
    }

    /// The status line and the header block, separated by CRLF.
    pub fn serialize_headers(&self) -> (s: String)
        ensures
            s@ == status_line(self@.status) + "\r\n"@ + serialized(self@.headers),
    {
        let mut s = self.serialize_status();
        push_str(&mut s, "\r\n");
        let h = self.headers.serialize();
        push_str(&mut s, h.as_str());
        s
    }

    /// The whole response as text. A `content-length` value is added to the
    /// headers first when the body is not empty.
    pub fn serialize(&mut self) -> (s: String)
        ensures
            final(self)@ == (ResponseView {
                headers: headers_for_length(old(self)@.headers, received_len(old(self)@.body)),
                ..old(self)@
            }),
            s@ == status_line(old(self)@.status) + "\r\n"@ + serialized(final(self)@.headers)
                + "\r\n\r\n"@ + body_text(old(self)@.body),
    {
        let content = self.body.try_content();
        let length = content.len();
        if length > 0 {
            let l = crate::text::decimal_string(length as u64);
            let _ = self.headers.get_first_or_set("Content-Length", l);
        }
        let mut buf = self.serialize_status();
        push_str(&mut buf, "\r\n");
        let h = self.headers.serialize();
        push_str(&mut buf, h.as_str());
        push_str(&mut buf, "\r\n\r\n");
        let b = crate::text::from_utf8_lossy(content.as_slice());
        push_str(&mut buf, b.as_str());
        buf
    }

    /// Reads a response from text: a status line, then header lines up to an
    /// empty line. The body is not read. Every header line must hold a `:`.
    #[verifier::loop_isolation(false)]
    pub fn from(buf: String) -> (r: Result<Response, String>)
        requires
            buf@.len() > 0 ==> header_lines_ok(response_lines(buf@)),
        ensures
            buf@.len() == 0 ==> (r matches Err(e) && e@ == "No data in buffer"@),
            buf@.len() > 0 ==> ({
                let lines = response_lines(buf@);
                let parts = splitn_ws(lines[0], 3);
                if parts.len() < 3 {
                    r matches Err(e) && e@ == "Bad status line"@
                } else {
                    match crate::text::parse_bounded(parts[1], 10, u16::MAX as nat) {
                        None => r matches Err(e) && e@ == "Bad status code"@,
                        Some(code) => r matches Ok(resp) && resp@ == (ResponseView {
                            version: "HTTP/1.1"@,
                            status: (code as u16, parts[2]),
                            headers: headers_of_lines(lines, header_count(lines, 1)),
                            body: BodyModel::Full { content: Seq::<u8>::empty(), expected: 0 },
                            cookies: Seq::<CookieView>::empty(),
                        }),
                    }
                }
            }),
    {
        let bc = chars_of(buf.as_str());
        if bc.len() == 0 {
            return Err("No data in buffer".to_string());
        }
        let lines = trimmed_pieces(bc.as_slice(), '\n');
        let ghost lv = lines@.map_values(|x: String| x@);
        proof {
            crate::text::lemma_split_nonempty(buf@, '\n');
        }
        if lines.len() == 0 {
            return Err("Can't parse response, no data.".to_string());
        }
        assert(lv[0] == lines@[0]@);
        let lc = chars_of(lines[0].as_str());
        let status_parts = splitn_whitespace(lc.as_slice(), 3);
        let ghost sv = status_parts@.map_values(|x: String| x@);
        if status_parts.len() < 3 {
            return Err("Bad status line".to_string());
        }
        assert(sv[1] == status_parts@[1]@);
        assert(sv[2] == status_parts@[2]@);
        let cc = chars_of(status_parts[1].as_str());
        let code = match crate::text::parse_unsigned(cc.as_slice(), 10, u16::MAX as u64) {
            Some(c) => c as u16,
            None => {
                return Err("Bad status code".to_string());
            },
        };
        let status = Status { code, text: status_parts[2].clone() };
        let mut headers = Headers::new();
        proof {
            lemma_header_count(lv, 1);
        }
        let mut i: usize = 1;
        while i < lines.len()
            invariant
                1 <= i <= lines.len(),
                i <= header_count(lv, 1),
                headers@ == headers_of_lines(lv, i as int),
            decreases lines.len() - i,
        {
            assert(lv[i as int] == lines@[i as int]@);
            if lines[i].unicode_len() == 0 {
                break;
            }
            assert(crate::text::split(lv[i as int], ':').len() >= 2);
            headers.add_from(lines[i].as_str());
            i = i + 1;
        }
        assert(i == header_count(lv, 1));
        let resp = Response {
            version: "HTTP/1.1".to_string(),
            status,
            headers,
            cookies: Vec::new(),
            body: Body::new(),
        };
        assert(resp@.cookies =~= Seq::<CookieView>::empty());
        Ok(resp)
    }
}

impl Clone for Response {
    fn clone(&self) -> (r: Self)
        ensures
            r@ == self@,
    {
        Response {
            version: self.version.clone(),
            status: self.status.clone(),
            headers: self.headers.clone(),
            body: self.body.clone(),
            cookies: copy_cookies(&self.cookies),
        }
    }
}

} // verus!
