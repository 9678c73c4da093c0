//! An incremental HTTP/1.1 parser for requests and responses.
//!
//! The parser is a state machine fed with bytes. Its behaviour is stated as a
//! function `step` from a parser state and a byte to an `Outcome`, folded over
//! the input by `run`; `parse_buf` is proved to compute `parse_outcome`.
use vstd::prelude::*;

use crate::body::BodyModel;
use crate::headers::{first_value, put, EntriesView};
use crate::message::{Message, MessageView};
use crate::request::{method_name, method_named, method_names, Method, Request, RequestView};
use crate::response::{Response, ResponseView};
use crate::headers::Headers;
use crate::status;
use crate::text::{
    chars_of, from_utf8, from_utf8_lossy, lowercase, parse_bounded, parse_unsigned, split_once,
    split_once_chars, splitn_whitespace, splitn_ws, str_eq, to_lower, trim, trim_str, trimmed_pieces,
    trimmed_split, utf8_lossy, words, words_of, Text,
};
use crate::url::{join_url, joined_url, parse_url, parsed_url};

verus! {

#[derive(Debug, Clone, Copy, PartialEq, Eq, Hash, Structural)]
pub enum State {
    StartRequest,
    StartResponse,
    InMethod,
    InStatusLine,
    InHeaders,
    InBody,
    InChunkedBodySize,
    InChunkedBodyContent,
    InChunkComplete,
    EndChunkedBody,
    ParseComplete,
}

#[derive(Debug, PartialEq, Eq)]
pub enum ParseError {
    UnexpectedState,
    InvalidStateTransition(State, State),
    BadMethodLine(String),
    BadHeaderLine(String),
    BadStatusLine(String),
    InvalidMethod(String),
    InvalidPath(String),
    InvalidChunkSize,
    NonNumericChunkSize,
    UnexpectedEOF,
}

pub enum ParseErrorView {
    UnexpectedState,
    InvalidStateTransition(State, State),
    BadMethodLine(Seq<char>),
    BadHeaderLine(Seq<char>),
    BadStatusLine(Seq<char>),
    InvalidMethod(Seq<char>),
    InvalidPath(Seq<char>),
    InvalidChunkSize,
    NonNumericChunkSize,
    UnexpectedEOF,
}

impl ParseError {
    pub open spec fn view(&self) -> ParseErrorView {
        match self {
            ParseError::UnexpectedState => ParseErrorView::UnexpectedState,
            ParseError::InvalidStateTransition(a, b) => ParseErrorView::InvalidStateTransition(*a, *b),
            ParseError::BadMethodLine(s) => ParseErrorView::BadMethodLine(s@),
            ParseError::BadHeaderLine(s) => ParseErrorView::BadHeaderLine(s@),
            ParseError::BadStatusLine(s) => ParseErrorView::BadStatusLine(s@),
            ParseError::InvalidMethod(s) => ParseErrorView::InvalidMethod(s@),
            ParseError::InvalidPath(s) => ParseErrorView::InvalidPath(s@),
            ParseError::InvalidChunkSize => ParseErrorView::InvalidChunkSize,
            ParseError::NonNumericChunkSize => ParseErrorView::NonNumericChunkSize,
            ParseError::UnexpectedEOF => ParseErrorView::UnexpectedEOF,
        }
    }
}

/// Everything a parser holds: the state it is in, the line being collected,
/// the body received, the counters of the body framing, and the message
/// built so far.
#[verifier::ext_equal]
pub struct ParserView {
    pub base_url: Seq<char>,
    pub start_state: State,
    pub state: State,
    pub buf: Seq<u8>,
    pub message: MessageView,
    pub expected_chunk_size: usize,
    pub expected_content_length: usize,
    pub chunk_pos: usize,
    pub body: Seq<u8>,
}

/// What feeding input leaves behind: the parser goes on (`Running`), has
/// stopped reading the rest of the input (`Stopped`), has failed with an
/// error, or has met input on which it cannot go on (`Panicked`: a line
/// that is not UTF-8, or a message of the other kind than the one the
/// parser builds). Each carries the parser as it was left.
pub enum Outcome {
    Running(ParserView),
    Stopped(ParserView),
    Failed(ParserView, ParseErrorView),
    Panicked(ParserView),
}

/// The transitions of the state machine: a target state and the states it
/// may be entered from.
pub open spec fn allowed(from: State, to: State) -> bool {
    match to {
        State::InMethod => from == State::StartRequest,
        State::InStatusLine => from == State::StartResponse,
        State::InHeaders => from == State::InMethod || from == State::InStatusLine,
        State::InBody => from == State::InHeaders,
        State::InChunkedBodySize => from == State::InHeaders || from == State::InChunkComplete,
        State::InChunkedBodyContent => from == State::InChunkedBodySize,
        State::InChunkComplete => from == State::InChunkedBodyContent,
        State::EndChunkedBody => from == State::InChunkComplete || from == State::InChunkedBodySize,
        State::ParseComplete => from == State::EndChunkedBody || from == State::InBody || from
            == State::InHeaders,
        _ => false,
    }
}

/// Moves to a state along an allowed transition, or fails.
pub open spec fn transition(p: ParserView, to: State) -> Outcome {
    if allowed(p.state, to) {
        Outcome::Running(ParserView { state: to, ..p })
    } else {
        Outcome::Failed(p, ParseErrorView::InvalidStateTransition(p.state, to))
    }
}

pub open spec fn clear(p: ParserView) -> ParserView {
    ParserView { buf: Seq::<u8>::empty(), ..p }
}

pub open spec fn push_buf(p: ParserView, b: u8) -> ParserView {
    ParserView { buf: p.buf.push(b), ..p }
}

pub open spec fn push_body(p: ParserView, b: u8) -> ParserView {
    ParserView { body: p.body.push(b), ..p }
}

/// The same outcome with the line buffer emptied, unless it panicked.
pub open spec fn cleared(o: Outcome) -> Outcome {
    match o {
        Outcome::Running(q) => Outcome::Running(clear(q)),
        Outcome::Failed(q, e) => Outcome::Failed(clear(q), e),
        _ => o,
    }
}

/// A complete body holding the UTF-8 bytes of a text.
pub open spec fn text_body(t: Seq<char>) -> BodyModel {
    BodyModel::Full {
        content: vstd::utf8::encode_utf8(t),
        expected: vstd::utf8::encode_utf8(t).len(),
    }
}

/// The end of the message: the body received is read as UTF-8 into the
/// message and the parse is complete. Only possible after the headers, in a
/// body, or after the last chunk.
pub open spec fn finish(p: ParserView) -> Outcome {
    if p.state == State::ParseComplete {
        Outcome::Running(p)
    } else if p.state == State::InBody || p.state == State::InHeaders || p.state
        == State::EndChunkedBody {
        let b = text_body(utf8_lossy(p.body));
        if p.start_state == State::StartRequest {
            match p.message {
                MessageView::Request(r) => Outcome::Running(
                    ParserView {
                        message: MessageView::Request(RequestView { body: b, ..r }),
                        state: State::ParseComplete,
                        ..p
                    },
                ),
                _ => Outcome::Panicked(p),
            }
        } else {
            match p.message {
                MessageView::Response(r) => Outcome::Running(
                    ParserView {
                        message: MessageView::Response(ResponseView { body: b, ..r }),
                        state: State::ParseComplete,
                        ..p
                    },
                ),
                _ => Outcome::Panicked(p),
            }
        }
    } else {
        Outcome::Failed(p, ParseErrorView::UnexpectedEOF)
    }
}

/// The request line: a method, a target resolved against the base URL, and
/// a version, separated by ASCII whitespace.
pub open spec fn commit_method(p: ParserView) -> Outcome {
    if !vstd::utf8::valid_utf8(p.buf) {
        Outcome::Panicked(p)
    } else {
        let line = vstd::utf8::decode_utf8(p.buf);
        let parts = words(line);
        if parts.len() != 3 {
            Outcome::Failed(p, ParseErrorView::BadMethodLine(line))
        } else {
            match method_named(parts[0]) {
                None => Outcome::Failed(p, ParseErrorView::InvalidMethod(parts[0])),
                Some(m) => match p.message {
                    MessageView::Request(r) => {
                        let r1 = RequestView { method: m, ..r };
                        let p1 = ParserView { message: MessageView::Request(r1), ..p };
                        match parsed_url(p.base_url) {
                            None => Outcome::Failed(p1, ParseErrorView::InvalidPath(p.base_url)),
                            Some(base) => match joined_url(base, parts[1]) {
                                None => Outcome::Failed(p1, ParseErrorView::InvalidPath(parts[1])),
                                Some(u) => Outcome::Running(
                                    ParserView {
                                        message: MessageView::Request(
                                            RequestView { version: parts[2], url: Some(u), ..r1 },
                                        ),
                                        buf: Seq::<u8>::empty(),
                                        ..p
                                    },
                                ),
                            },
                        }
                    },
                    _ => Outcome::Panicked(p),
                },
            }
        }
    }
}

/// The status line: a version, a code and a reason, split at the first two
/// runs of whitespace. A code that is not a number leaves the status as it
/// was.
pub open spec fn commit_status_line(p: ParserView) -> Outcome {
    if !vstd::utf8::valid_utf8(p.buf) {
        Outcome::Panicked(p)
    } else {
        let line = vstd::utf8::decode_utf8(p.buf);
        let parts = splitn_ws(line, 3);
        if parts.len() != 3 {
            Outcome::Failed(p, ParseErrorView::BadStatusLine(line))
        } else {
            match p.message {
                MessageView::Response(r) => {
                    let r1 = ResponseView { version: parts[0], ..r };
                    let r2 = match parse_bounded(parts[1], 10, 0xffff) {
                        Some(c) => ResponseView { status: (c as u16, trim(parts[2])), ..r1 },
                        None => r1,
                    };
                    Outcome::Running(
                        ParserView {
                            message: MessageView::Response(r2),
                            buf: Seq::<u8>::empty(),
                            ..p
                        },
                    )
                },
                _ => Outcome::Panicked(p),
            }
        }
    }
}

/// The headers of the message that the parser builds: those of the response
/// for a response parser, else those of the request.
pub open spec fn message_headers(start: State, m: MessageView) -> Option<EntriesView> {
    if start == State::StartResponse {
        match m {
            MessageView::Response(r) => Some(r.headers),
            _ => None,
        }
    } else {
        match m {
            MessageView::Request(r) => Some(r.headers),
            _ => None,
        }
    }
}

pub open spec fn with_headers(m: MessageView, h: EntriesView) -> MessageView {
    match m {
        MessageView::Request(r) => MessageView::Request(RequestView { headers: h, ..r }),
        MessageView::Response(r) => MessageView::Response(ResponseView { headers: h, ..r }),
        MessageView::Empty => MessageView::Empty,
    }
}

/// A `content-length` value as a number; 0 when it is not one.
pub open spec fn length_value(v: Seq<char>) -> usize {
    match parse_bounded(v, 10, usize::MAX as nat) {
        Some(n) => n as usize,
        None => 0,
    }
}

/// Whether `chunked` is among the comma-separated transfer encodings.
pub open spec fn is_chunked(h: EntriesView) -> bool {
    match first_value(h, "transfer-encoding"@) {
        Some(e) => trimmed_split(e, ',').contains("chunked"@),
        None => false,
    }
}

/// Whether a non-zero `content-length` announces a body.
pub open spec fn is_sized(h: EntriesView) -> bool {
    match first_value(h, "content-length"@) {
        Some(l) => length_value(l) != 0,
        None => false,
    }
}

/// The empty line after the headers: a chunked body, a sized body, or the
/// end of the message.
pub open spec fn end_of_headers(p: ParserView, h: EntriesView) -> Outcome {
    if is_chunked(h) {
        cleared(transition(p, State::InChunkedBodySize))
    } else if is_sized(h) {
        cleared(transition(p, State::InBody))
    } else {
        match finish(p) {
            Outcome::Running(q) => Outcome::Running(clear(q)),
            o => o,
        }
    }
}

/// A header line `name: value`: the name lower-cased and the value trimmed
/// replace what was stored under the name. An empty line (or one holding a
/// carriage return) ends the headers.
pub open spec fn commit_header(p: ParserView) -> Outcome {
    if !vstd::utf8::valid_utf8(p.buf) {
        Outcome::Panicked(p)
    } else {
        let line = vstd::utf8::decode_utf8(p.buf);
        match message_headers(p.start_state, p.message) {
            None => Outcome::Panicked(p),
            Some(h) => if line == "\r"@ || line.len() == 0 {
                end_of_headers(p, h)
            } else {
                match split_once(line, ':') {
                    None => Outcome::Failed(clear(p), ParseErrorView::BadHeaderLine(line)),
                    Some(kv) => {
                        let key = lowercase(kv.0);
                        let value = trim(kv.1);
                        let q = if key == "content-length"@ {
                            ParserView { expected_content_length: length_value(value), ..p }
                        } else {
                            p
                        };
                        Outcome::Running(
                            ParserView {
                                message: with_headers(p.message, put(h, key, seq![value])),
                                buf: Seq::<u8>::empty(),
                                ..q
                            },
                        )
                    },
                }
            },
        }
    }
}

/// The size line of a chunk: a hexadecimal number.
pub open spec fn commit_chunksize(p: ParserView) -> Outcome {
    if !vstd::utf8::valid_utf8(p.buf) {
        Outcome::Failed(p, ParseErrorView::InvalidChunkSize)
    } else {
        match parse_bounded(trim(vstd::utf8::decode_utf8(p.buf)), 16, usize::MAX as nat) {
            None => Outcome::Failed(p, ParseErrorView::NonNumericChunkSize),
            Some(n) => Outcome::Running(
                ParserView {
                    expected_chunk_size: n as usize,
                    chunk_pos: 0,
                    buf: Seq::<u8>::empty(),
                    ..p
                },
            ),
        }
    }
}

/// After the request or status line the headers follow, also when the line
/// was rejected; the first error is the one reported.
pub open spec fn then_headers(o: Outcome) -> Outcome {
    match o {
        Outcome::Running(q) => transition(q, State::InHeaders),
        Outcome::Failed(q, e) => match transition(q, State::InHeaders) {
            Outcome::Running(q2) => Outcome::Failed(q2, e),
            other => other,
        },
        _ => o,
    }
}

/// A complete line (the newline not included) in the state the parser is in.
pub open spec fn commit_line(p: ParserView) -> Outcome {
    match p.state {
        State::StartRequest => Outcome::Running(p),
        State::StartResponse => Outcome::Running(p),
        State::InMethod => then_headers(commit_method(p)),
        State::InStatusLine => then_headers(commit_status_line(p)),
        State::InHeaders => commit_header(p),
        _ => Outcome::Failed(p, ParseErrorView::UnexpectedState),
    }
}

/// Whether a byte, read as a Latin-1 character, is whitespace.
pub open spec fn byte_ws(b: u8) -> bool {
    (9 <= b && b <= 13) || b == 32 || b == 0x85 || b == 0xa0
}

/// Whether a byte is an ASCII hexadecimal digit.
pub open spec fn hex_byte(b: u8) -> bool {
    (48 <= b && b <= 57) || (65 <= b && b <= 70) || (97 <= b && b <= 102)
}

/// A byte of chunk data.
pub open spec fn chunk_byte(p: ParserView, b: u8) -> Outcome {
    let q = push_body(p, b);
    if p.chunk_pos == usize::MAX {
        Outcome::Panicked(q)
    } else {
        let r = ParserView { chunk_pos: (p.chunk_pos + 1) as usize, ..q };
        if r.chunk_pos == r.expected_chunk_size {
            match transition(r, State::InChunkComplete) {
                Outcome::Running(s) => Outcome::Running(clear(s)),
                o => o,
            }
        } else {
            Outcome::Running(r)
        }
    }
}

/// The end of a chunk-size line.
pub open spec fn size_line(p: ParserView) -> Outcome {
    match commit_chunksize(p) {
        Outcome::Running(q) => transition(
            q,
            if q.expected_chunk_size == 0 {
                State::EndChunkedBody
            } else {
                State::InChunkedBodyContent
            },
        ),
        o => o,
    }
}

/// What one byte does to the parser.
pub open spec fn step(p: ParserView, b: u8) -> Outcome {
    match p.state {
        State::StartRequest => if byte_ws(b) {
            Outcome::Running(p)
        } else {
            transition(push_buf(p, b), State::InMethod)
        },
        State::StartResponse => if byte_ws(b) {
            Outcome::Running(p)
        } else {
            transition(push_buf(p, b), State::InStatusLine)
        },
        State::InMethod | State::InHeaders | State::InStatusLine => if b == 10 {
            commit_line(p)
        } else {
            Outcome::Running(push_buf(p, b))
        },
        State::InChunkedBodySize => if b == 10 {
            size_line(p)
        } else if hex_byte(b) {
            Outcome::Running(push_buf(p, b))
        } else {
            Outcome::Running(p)
        },
        State::InChunkedBodyContent => chunk_byte(p, b),
        State::InChunkComplete => if b == 10 {
            transition(p, State::InChunkedBodySize)
        } else {
            Outcome::Running(p)
        },
        State::InBody => {
            let q = push_body(p, b);
            if q.body.len() == q.expected_content_length {
                finish(q)
            } else {
                Outcome::Running(q)
            }
        },
        State::EndChunkedBody => if b == 10 {
            match finish(p) {
                Outcome::Running(q) => Outcome::Stopped(q),
                o => o,
            }
        } else {
            Outcome::Running(p)
        },
        State::ParseComplete => Outcome::Running(p),
    }
}

/// The bytes fed one after another; the first outcome other than `Running`
/// is final.
pub open spec fn run(p: ParserView, bytes: Seq<u8>) -> Outcome
    decreases bytes.len(),
{
    if bytes.len() == 0 {
        Outcome::Running(p)
    } else {
        match run(p, bytes.drop_last()) {
            Outcome::Running(q) => step(q, bytes.last()),
            o => o,
        }
    }
}

/// What `parse_buf` does with a buffer. In a sized body the whole buffer is
/// taken as body at once, and the message ends once the body is at least as
/// long as announced; otherwise the bytes are run through `step`.
pub open spec fn parse_outcome(p: ParserView, bytes: Seq<u8>) -> Outcome {
    if p.state == State::InBody {
        let q = ParserView { body: p.body + bytes, ..p };
        if q.body.len() >= q.expected_content_length {
            finish(q)
        } else {
            Outcome::Running(q)
        }
    } else {
        match run(p, bytes) {
            Outcome::Stopped(q) => Outcome::Running(q),
            o => o,
        }
    }
}
/// A parser as `Parser::new` makes it for a start state.
pub open spec fn fresh_parser(start: State) -> ParserView {
    ParserView {
        base_url: "http://UNSET"@,
        start_state: start,
        state: start,
        buf: Seq::<u8>::empty(),
        message: fresh_message(start),
        expected_chunk_size: 0,
        expected_content_length: 0,
        chunk_pos: 0,
        body: Seq::<u8>::empty(),
    }
}

/// The message a new parser builds: a `200 OK` response for a response
/// parser, else an empty GET request.
pub open spec fn fresh_message(start: State) -> MessageView {
    if start == State::StartResponse {
        MessageView::Response(
            ResponseView {
                version: "HTTP/1.1"@,
                status: (200u16, "OK"@),
                headers: Seq::empty(),
                body: BodyModel::Full { content: Seq::<u8>::empty(), expected: 0 },
                cookies: Seq::empty(),
            },
        )
    } else {
        MessageView::Request(
            RequestView {
                method: Method::GET,
                handler_path: None,
                base_url: "http://UNSET"@,
                url: None,
                version: Seq::<char>::empty(),
                headers: Seq::empty(),
                body: BodyModel::Full { content: Seq::<u8>::empty(), expected: 0 },
                params: Seq::empty(),
            },
        )
    }
}

/// How a step ended, as the code reports it.
enum Flow {
    Go,
    Stop,
    Fail(ParseError),
    Panic,
}

spec fn agrees(o: Outcome, f: Flow, v: ParserView) -> bool {
    match o {
        Outcome::Running(q) => f is Go && v == q,
        Outcome::Stopped(q) => f is Stop && v == q,
        Outcome::Failed(q, e) => f matches Flow::Fail(x) && x@ == e && v == q,
        Outcome::Panicked(q) => f is Panic && v == q,
    }
}

fn is_allowed(from: State, to: State) -> (r: bool)
    ensures
        r == allowed(from, to),
{
    match to {
        State::InMethod => from == State::StartRequest,
        State::InStatusLine => from == State::StartResponse,
        State::InHeaders => from == State::InMethod || from == State::InStatusLine,
        State::InBody => from == State::InHeaders,
        State::InChunkedBodySize => from == State::InHeaders || from == State::InChunkComplete,
        State::InChunkedBodyContent => from == State::InChunkedBodySize,
        State::InChunkComplete => from == State::InChunkedBodyContent,
        State::EndChunkedBody => from == State::InChunkComplete || from == State::InChunkedBodySize,
        State::ParseComplete => from == State::EndChunkedBody || from == State::InBody || from
            == State::InHeaders,
        _ => false,
    }
}

fn is_byte_ws(b: u8) -> (r: bool)
    ensures
        r == byte_ws(b),
{
    (9 <= b && b <= 13) || b == 32 || b == 0x85 || b == 0xa0
}

fn is_hex_byte(b: u8) -> (r: bool)
    ensures
        r == hex_byte(b),
{
    (48 <= b && b <= 57) || (65 <= b && b <= 70) || (97 <= b && b <= 102)
}

/// A `content-length` value as a number; 0 when it is not one.
fn length_of(v: &str) -> (r: usize)
    ensures
        r == length_value(v@),
{
    let c = chars_of(v);
    match parse_unsigned(c.as_slice(), 10, usize::MAX as u64) {
        Some(n) => n as usize,
        None => 0,
    }
}

fn has_chunked(h: &Headers) -> (r: bool)
    ensures
        r == is_chunked(h@),
{
    match h.first_value("transfer-encoding") {
        Some(e) => {
            let ec = chars_of(e.as_str());
            let pieces = trimmed_pieces(ec.as_slice(), ',');
            let ghost pv = pieces@.map_values(|x: String| x@);
            let mut i: usize = 0;
            while i < pieces.len()
                invariant
                    i <= pieces.len(),
                    pv == pieces@.map_values(|x: String| x@),
                    pv == trimmed_split(e@, ','),
                    first_value(h@, "transfer-encoding"@) == Some(e@),
                    forall|j: int| 0 <= j < i ==> pv[j] != "chunked"@,
                decreases pieces.len() - i,
            {
                assert(pv[i as int] == pieces@[i as int]@);
                if str_eq(pieces[i].as_str(), "chunked") {
                    assert(pv[i as int] == "chunked"@);
                    assert(pv.contains("chunked"@));
                    return true;
                }
                i = i + 1;
            }
            assert(!pv.contains("chunked"@));
            false
        },
        None => false,
    }
}

fn has_size(h: &Headers) -> (r: bool)
    ensures
        r == is_sized(h@),
{
    match h.first_value("content-length") {
        Some(l) => length_of(l.as_str()) != 0,
        None => false,
    }
}

proof fn lemma_run_absorb(p: ParserView, s: Seq<u8>, i: int)
    requires
        0 <= i <= s.len(),
        !(run(p, s.take(i)) is Running),
    ensures
        run(p, s) == run(p, s.take(i)),
    decreases s.len(),
{
    if i == s.len() {
        assert(s.take(i) =~= s);
    } else {
        assert(s.drop_last().take(i) =~= s.take(i));
        lemma_run_absorb(p, s.drop_last(), i);
    }
}

/// An incremental HTTP/1.1 parser.
#[derive(Debug)]
pub struct Parser {
    base_url: String,
    start_state: State,
    state: State,
    buf: Vec<u8>,
    message: Message,
    expected_chunk_size: usize,
    expected_content_length: usize,
    chunk_pos: usize,
    body: Vec<u8>,
}

/// Makes request parsers.
pub struct RequestParser {}

impl RequestParser {
    /// A parser that starts at a request line.
    pub fn new() -> (p: Parser)
        ensures
            p@ == fresh_parser(State::StartRequest),
    {
        Parser::new(State::StartRequest)
    }
}

/// Makes response parsers.
pub struct ResponseParser {}

impl ResponseParser {
    /// A parser that starts at a status line.
    pub fn new() -> (p: Parser)
        ensures
            p@ == fresh_parser(State::StartResponse),
    {
        Parser::new(State::StartResponse)
    }
}

impl Parser {
    pub closed spec fn view(&self) -> ParserView {
        ParserView {
            base_url: self.base_url@,
            start_state: self.start_state,
            state: self.state,
            buf: self.buf@,
            message: self.message@,
            expected_chunk_size: self.expected_chunk_size,
            expected_content_length: self.expected_content_length,
            chunk_pos: self.chunk_pos,
            body: self.body@,
        }
    }

    /// A parser in the given state, building a response when it starts at a
    /// status line and a request otherwise.
    pub fn new(start_state: State) -> (p: Parser)
        ensures
            p@ == fresh_parser(start_state),
    {
        let message = if start_state == State::StartResponse {
            let r = Response::new(status::from(status::OK));
            assert(r@.headers =~= Seq::empty());
            assert(r@.cookies =~= Seq::empty());
            assert(r@.status == (200u16, "OK"@));
            Message::Response(r)
        } else {
            let r = Request::new("http://UNSET");
            assert(r@.headers =~= Seq::empty());
            assert(r@.params =~= Seq::empty());
            assert(r@.version =~= Seq::<char>::empty());
            Message::Request(r)
        };
        let p = Parser {
            base_url: "http://UNSET".to_string(),
            start_state,
            state: start_state,
            buf: Vec::new(),
            body: Vec::new(),
            message,
            expected_chunk_size: 0,
            expected_content_length: 0,
            chunk_pos: 0,
        };
        p
    }

    /// The URL that request targets are resolved against.
    pub fn set_base_url<T: Text>(&mut self, base_url: T)
        ensures
            final(self)@ == (ParserView { base_url: base_url.text(), ..old(self)@ }),
    {
        self.base_url = base_url.to_text();
    }

    /// Whether the whole message has been read.
    pub fn is_complete(&self) -> (r: bool)
        ensures
            r == (self@.state == State::ParseComplete),
    {
        self.state == State::ParseComplete
    }

    /// Whether the headers have been read and a body of announced length is
    /// being read, so that the rest of the input is body.
    pub fn in_sized_body(&self) -> (r: bool)
        ensures
            r == (self@.state == State::InBody),
    {
        self.state == State::InBody
    }

    /// The body bytes read so far and the length announced for the body.
    pub fn body_so_far(&self) -> (r: (Vec<u8>, usize))
        ensures
            r.0@ == self@.body,
            r.1 == self@.expected_content_length,
    {
        (crate::body::copy_bytes(self.body.as_slice()), self.expected_content_length)
    }

    /// A copy of the message built so far.
    pub fn get_message(&self) -> (m: Message)
        ensures
            m@ == self@.message,
    {
        self.message.clone()
    }

    fn update_state(&mut self, to: State) -> (f: Flow)
        ensures
            agrees(transition(old(self)@, to), f, final(self)@),
    {
        if is_allowed(self.state, to) {
            self.state = to;
            Flow::Go
        } else {
            Flow::Fail(ParseError::InvalidStateTransition(self.state, to))
        }
    }

    fn parse_eof(&mut self) -> (f: Flow)
        ensures
            agrees(finish(old(self)@), f, final(self)@),
    {
        if self.state == State::ParseComplete {
            return Flow::Go;
        }
        if self.state == State::InBody || self.state == State::InHeaders || self.state
            == State::EndChunkedBody {
            let text = from_utf8_lossy(self.body.as_slice());
            if self.start_state == State::StartRequest {
                match &mut self.message {
                    Message::Request(r) => {
                        r.set_body(text);
                    },
                    _ => {
                        return Flow::Panic;
                    },
                }
            } else {
                match &mut self.message {
                    Message::Response(r) => {
                        r.set_body(text);
                    },
                    _ => {
                        return Flow::Panic;
                    },
                }
            }
            self.state = State::ParseComplete;
            return Flow::Go;
        }
        Flow::Fail(ParseError::UnexpectedEOF)
    }

    fn commit_method(&mut self) -> (f: Flow)
        ensures
            agrees(commit_method(old(self)@), f, final(self)@),
    {
        let line = match from_utf8(self.buf.as_slice()) {
            Some(l) => l,
            None => {
                return Flow::Panic;
            },
        };
        let lc = chars_of(line.as_str());
        let parts = words_of(lc.as_slice());
        proof {
            assert(parts@.map_values(|x: String| x@).len() == parts@.len());
        }
        if parts.len() != 3 {
            return Flow::Fail(ParseError::BadMethodLine(line));
        }
        assert(parts@.map_values(|x: String| x@)[0] == parts@[0]@);
        assert(parts@.map_values(|x: String| x@)[1] == parts@[1]@);
        assert(parts@.map_values(|x: String| x@)[2] == parts@[2]@);
        let method = match Method::from_name(parts[0].as_str()) {
            Some(m) => m,
            None => {
                return Flow::Fail(ParseError::InvalidMethod(parts[0].clone()));
            },
        };
        match &mut self.message {
            Message::Request(r) => {
                r.set_method(method);
            },
            _ => {
                return Flow::Panic;
            },
        }
        let base = match parse_url(self.base_url.as_str()) {
            Some(b) => b,
            None => {
                return Flow::Fail(ParseError::InvalidPath(self.base_url.clone()));
            },
        };
        let url = match join_url(&base, parts[1].as_str()) {
            Some(u) => u,
            None => {
                return Flow::Fail(ParseError::InvalidPath(parts[1].clone()));
            },
        };
        match &mut self.message {
            Message::Request(r) => {
                r.set_version(parts[2].clone());
                r.set_url(url);
            },
            _ => {
                return Flow::Panic;
            },
        }
        self.buf.clear();
        Flow::Go
    }

    fn commit_status_line(&mut self) -> (f: Flow)
        ensures
            agrees(commit_status_line(old(self)@), f, final(self)@),
    {
        let line = match from_utf8(self.buf.as_slice()) {
            Some(l) => l,
            None => {
                return Flow::Panic;
            },
        };
        let lc = chars_of(line.as_str());
        let parts = splitn_whitespace(lc.as_slice(), 3);
        proof {
            assert(parts@.map_values(|x: String| x@).len() == parts@.len());
        }
        if parts.len() != 3 {
            return Flow::Fail(ParseError::BadStatusLine(line));
        }
        assert(parts@.map_values(|x: String| x@)[0] == parts@[0]@);
        assert(parts@.map_values(|x: String| x@)[1] == parts@[1]@);
        assert(parts@.map_values(|x: String| x@)[2] == parts@[2]@);
        match &mut self.message {
            Message::Response(r) => {
                r.version = parts[0].clone();
                let pc = chars_of(parts[1].as_str());
                match parse_unsigned(pc.as_slice(), 10, 0xffff) {
                    Some(c) => {
                        let t = trim_str(parts[2].as_str());
                        r.set_status(status::Status { code: c as u16, text: t });
                    },
                    None => {},
                }
            },
            _ => {
                return Flow::Panic;
            },
        }
        self.buf.clear();
        Flow::Go
    }

    fn commit_chunksize(&mut self) -> (f: Flow)
        ensures
            agrees(commit_chunksize(old(self)@), f, final(self)@),
    {
        let line = match from_utf8(self.buf.as_slice()) {
            Some(l) => l,
            None => {
                return Flow::Fail(ParseError::InvalidChunkSize);
            },
        };
        let t = trim_str(line.as_str());
        let tc = chars_of(t.as_str());
        match parse_unsigned(tc.as_slice(), 16, usize::MAX as u64) {
            Some(n) => {
                self.expected_chunk_size = n as usize;
                self.chunk_pos = 0;
                self.buf.clear();
                Flow::Go
            },
            None => Flow::Fail(ParseError::NonNumericChunkSize),
        }
    }

    fn current_headers(&self) -> (r: &Headers)
        requires
            message_headers(self@.start_state, self@.message) is Some,
        ensures
            message_headers(self@.start_state, self@.message) == Some(r@),
    {
        match &self.message {
            Message::Request(r) => r.headers(),
            Message::Response(r) => &r.headers,
            Message::Empty => {
                proof {
                    assert(false);
                }
                unreached()
            },
        }
    }

    fn end_of_headers(&mut self) -> (f: Flow)
        requires
            message_headers(old(self)@.start_state, old(self)@.message) is Some,
        ensures
            agrees(
                end_of_headers(
                    old(self)@,
                    message_headers(old(self)@.start_state, old(self)@.message)->0,
                ),
                f,
                final(self)@,
            ),
    {
        let h = self.current_headers();
        let chunked = has_chunked(h);
        let sized = has_size(h);
        if chunked {
            let f = self.update_state(State::InChunkedBodySize);
            self.buf.clear();
            f
        } else if sized {
            let f = self.update_state(State::InBody);
            self.buf.clear();
            f
        } else {
            let f = self.parse_eof();
            match f {
                Flow::Go => {
                    self.buf.clear();
                    Flow::Go
                },
                other => other,
            }
        }
    }

    fn commit_header(&mut self) -> (f: Flow)
        ensures
            agrees(commit_header(old(self)@), f, final(self)@),
    {
        let line = match from_utf8(self.buf.as_slice()) {
            Some(l) => l,
            None => {
                return Flow::Panic;
            },
        };
        let for_response = self.start_state == State::StartResponse;
        let kind_ok = match &self.message {
            Message::Request(_) => !for_response,
            Message::Response(_) => for_response,
            Message::Empty => false,
        };
        if !kind_ok {
            return Flow::Panic;
        }
        let lc = chars_of(line.as_str());
        if str_eq(line.as_str(), "\r") || lc.len() == 0 {
            return self.end_of_headers();
        }
        match split_once_chars(lc.as_slice(), ':') {
            None => {
                self.buf.clear();
                Flow::Fail(ParseError::BadHeaderLine(line))
            },
            Some((k, v)) => {
                let key = to_lower(k.as_str());
                let value = trim_str(v.as_str());
                if str_eq(key.as_str(), "content-length") {
                    self.expected_content_length = length_of(value.as_str());
                }
                match &mut self.message {
                    Message::Request(r) => {
                        r.headers_mut().insert(key, value);
                    },
                    Message::Response(r) => {
                        r.headers.insert(key, value);
                    },
                    Message::Empty => {},
                }
                self.buf.clear();
                Flow::Go
            },
        }
    }

    fn commit_line(&mut self) -> (f: Flow)
        ensures
            agrees(commit_line(old(self)@), f, final(self)@),
    {
        match self.state {
            State::StartRequest | State::StartResponse => Flow::Go,
            State::InMethod => {
                let r = self.commit_method();
                match r {
                    Flow::Panic => Flow::Panic,
                    Flow::Stop => Flow::Stop,
                    other => {
                        let u = self.update_state(State::InHeaders);
                        match u {
                            Flow::Go => other,
                            u2 => u2,
                        }
                    },
                }
            },
            State::InStatusLine => {
                let r = self.commit_status_line();
                match r {
                    Flow::Panic => Flow::Panic,
                    Flow::Stop => Flow::Stop,
                    other => {
                        let u = self.update_state(State::InHeaders);
                        match u {
                            Flow::Go => other,
                            u2 => u2,
                        }
                    },
                }
            },
            State::InHeaders => self.commit_header(),
            _ => Flow::Fail(ParseError::UnexpectedState),
        }
    }

    fn size_line(&mut self) -> (f: Flow)
        ensures
            agrees(size_line(old(self)@), f, final(self)@),
    {
        let r = self.commit_chunksize();
        match r {
            Flow::Go => {
                if self.expected_chunk_size == 0 {
                    self.update_state(State::EndChunkedBody)
                } else {
                    self.update_state(State::InChunkedBodyContent)
                }
            },
            other => other,
        }
    }

    fn chunk_byte(&mut self, b: u8) -> (f: Flow)
        ensures
            agrees(chunk_byte(old(self)@, b), f, final(self)@),
    {
        self.body.push(b);
        if self.chunk_pos == usize::MAX {
            return Flow::Panic;
        }
        self.chunk_pos = self.chunk_pos + 1;
        if self.chunk_pos == self.expected_chunk_size {
            let f = self.update_state(State::InChunkComplete);
            match f {
                Flow::Go => {
                    self.buf.clear();
                    Flow::Go
                },
                other => other,
            }
        } else {
            Flow::Go
        }
    }

    fn step(&mut self, b: u8) -> (f: Flow)
        ensures
            agrees(step(old(self)@, b), f, final(self)@),
    {
        match self.state {
            State::StartRequest => {
                if is_byte_ws(b) {
                    Flow::Go
                } else {
                    self.buf.push(b);
                    self.update_state(State::InMethod)
                }
            },
            State::StartResponse => {
                if is_byte_ws(b) {
                    Flow::Go
                } else {
                    self.buf.push(b);
                    self.update_state(State::InStatusLine)
                }
            },
            State::InMethod | State::InHeaders | State::InStatusLine => {
                if b == 10 {
                    self.commit_line()
                } else {
                    self.buf.push(b);
                    Flow::Go
                }
            },
            State::InChunkedBodySize => {
                if b == 10 {
                    self.size_line()
                } else if is_hex_byte(b) {
                    self.buf.push(b);
                    Flow::Go
                } else {
                    Flow::Go
                }
            },
            State::InChunkedBodyContent => self.chunk_byte(b),
            State::InChunkComplete => {
                if b == 10 {
                    self.update_state(State::InChunkedBodySize)
                } else {
                    Flow::Go
                }
            },
            State::InBody => {
                self.body.push(b);
                if self.body.len() == self.expected_content_length {
                    self.parse_eof()
                } else {
                    Flow::Go
                }
            },
            State::EndChunkedBody => {
                if b == 10 {
                    match self.parse_eof() {
                        Flow::Go => Flow::Stop,
                        other => other,
                    }
                } else {
                    Flow::Go
                }
            },
            State::ParseComplete => Flow::Go,
        }
    }

    fn feed(&mut self, buf: &[u8]) -> (f: Flow)
        ensures
            agrees(parse_outcome(old(self)@, buf@), f, final(self)@),
    {
        if self.state == State::InBody {
            let ghost start = self@;
            let mut k: usize = 0;
            while k < buf.len()
                invariant
                    k <= buf.len(),
                    self@ == (ParserView { body: start.body + buf@.take(k as int), ..start }),
                decreases buf.len() - k,
            {
                self.body.push(buf[k]);
                assert(start.body + buf@.take(k + 1) =~= (start.body + buf@.take(k as int)).push(
                    buf@[k as int],
                ));
                k = k + 1;
            }
            assert(buf@.take(buf.len() as int) =~= buf@);
            if self.body.len() >= self.expected_content_length {
                return self.parse_eof();
            }
            return Flow::Go;
        }
        let ghost p0 = self@;
        let mut i: usize = 0;
        assert(buf@.take(0) =~= Seq::<u8>::empty());
        assert(p0 == old(self)@);
        while i < buf.len()
            invariant
                i <= buf.len(),
                p0.state != State::InBody,
                p0 == old(self)@,
                run(p0, buf@.take(i as int)) == Outcome::Running(self@),
            decreases buf.len() - i,
        {
            assert(buf@.take(i + 1).drop_last() =~= buf@.take(i as int));
            assert(buf@.take(i + 1).last() == buf@[i as int]);
            let ghost pre = self@;
            let f = self.step(buf[i]);
            assert(run(p0, buf@.take(i + 1)) == step(pre, buf@[i as int]));
            match f {
                Flow::Go => {},
                Flow::Stop => {
                    proof {
                        lemma_run_absorb(p0, buf@, i + 1);
                    }
                    return Flow::Go;
                },
                other => {
                    proof {
                        lemma_run_absorb(p0, buf@, i + 1);
                    }
                    return other;
                },
            }
            i = i + 1;
        }
        assert(buf@.take(buf.len() as int) =~= buf@);
        Flow::Go
    }

    /// Feeds bytes to the parser. The parser ends as `parse_outcome` says:
    /// `Ok` when it goes on or has finished, the error otherwise. Input on
    /// which the parser cannot go on (a line that is not UTF-8, or a message
    /// of the other kind) is left out.
    pub fn parse_buf(&mut self, buf: &[u8]) -> (r: Result<(), ParseError>)
        requires
            !(parse_outcome(old(self)@, buf@) is Panicked),
        ensures
            parse_outcome(old(self)@, buf@) matches Outcome::Running(q) ==> r is Ok && final(self)@
                == q,
            parse_outcome(old(self)@, buf@) matches Outcome::Stopped(q) ==> r is Ok && final(self)@
                == q,
            parse_outcome(old(self)@, buf@) matches Outcome::Failed(q, e) ==> r matches Err(x)
                && x@ == e && final(self)@ == q,
    {
        match self.feed(buf) {
            Flow::Go => Ok(()),
            Flow::Stop => Ok(()),
            Flow::Fail(e) => Err(e),
            Flow::Panic => Ok(()),
        }
    }

    /// Feeds bytes to the parser as `parse_buf` does, on any input: `None`
    /// when the parser cannot go on with it, the parser then left as it was
    /// at that point.
    pub fn try_parse_buf(&mut self, buf: &[u8]) -> (r: Option<Result<(), ParseError>>)
        ensures
            parse_outcome(old(self)@, buf@) matches Outcome::Running(q) ==> r == Some(
                Ok::<(), ParseError>(()),
            ) && final(self)@ == q,
            parse_outcome(old(self)@, buf@) matches Outcome::Stopped(q) ==> r == Some(
                Ok::<(), ParseError>(()),
            ) && final(self)@ == q,
            parse_outcome(old(self)@, buf@) matches Outcome::Failed(q, e) ==> r matches Some(
                Err(x),
            ) && x@ == e && final(self)@ == q,
            parse_outcome(old(self)@, buf@) matches Outcome::Panicked(q) ==> r is None
                && final(self)@ == q,
    {
        match self.feed(buf) {
            Flow::Go => Some(Ok(())),
            Flow::Stop => Some(Ok(())),
            Flow::Fail(e) => Some(Err(e)),
            Flow::Panic => None,
        }
    }
}

// ---------------------------------------------------------------------------
// Laws of the parser
// ---------------------------------------------------------------------------

/// The parser that an outcome carries.
pub open spec fn left(o: Outcome) -> ParserView {
    match o {
        Outcome::Running(q) => q,
        Outcome::Stopped(q) => q,
        Outcome::Failed(q, _) => q,
        Outcome::Panicked(q) => q,
    }
}

/// Whether a state can be reached from another along allowed transitions.
pub open spec fn reachable(from: State, to: State) -> bool {
    exists|path: Seq<State>|
        {
            &&& path.len() >= 1
            &&& path[0] == from
            &&& path.last() == to
            &&& forall|i: int| 0 <= i < path.len() - 1 ==> allowed(#[trigger] path[i], path[i + 1])
        }
}

proof fn lemma_reachable_refl(a: State)
    ensures
        reachable(a, a),
{
    let path = seq![a];
    assert(path.last() == a);
}

proof fn lemma_reachable_extend(a: State, b: State, c: State)
    requires
        reachable(a, b),
        b == c || allowed(b, c),
    ensures
        reachable(a, c),
{
    if b != c {
        let path = choose|path: Seq<State>|
            {
                &&& path.len() >= 1
                &&& path[0] == a
                &&& path.last() == b
                &&& forall|i: int|
                    0 <= i < path.len() - 1 ==> allowed(#[trigger] path[i], path[i + 1])
            };
        let longer = path.push(c);
        assert forall|i: int| 0 <= i < longer.len() - 1 implies allowed(
            #[trigger] longer[i],
            longer[i + 1],
        ) by {
            if i < path.len() - 1 {
                assert(longer[i] == path[i] && longer[i + 1] == path[i + 1]);
            } else {
                assert(longer[i] == b);
            }
        }
        assert(longer[0] == a);
        assert(longer.last() == c);
    }
}

proof fn lemma_finish_edge(p: ParserView)
    ensures
        left(finish(p)).state == p.state || allowed(p.state, left(finish(p)).state),
        !(finish(p) is Stopped),
        finish(p) matches Outcome::Running(q) ==> q.state == State::ParseComplete,
{
}

/// One byte moves the parser along at most one transition of the state
/// machine: the state after it is the same, or one that `allowed` lets
/// follow.
pub proof fn step_follows_transitions(p: ParserView, b: u8)
    ensures
        left(step(p, b)).state == p.state || allowed(p.state, left(step(p, b)).state),
{
    lemma_finish_edge(p);
    lemma_finish_edge(push_body(p, b));
    match p.state {
        State::InHeaders => {
            if b == 10 && vstd::utf8::valid_utf8(p.buf) {
                let line = vstd::utf8::decode_utf8(p.buf);
                if let Some(h) = message_headers(p.start_state, p.message) {
                    if line == "\r"@ || line.len() == 0 {
                        lemma_finish_edge(p);
                    }
                }
            }
        },
        _ => {},
    }
}

/// Whatever a buffer holds, the state that `parse_buf` leaves the parser in
/// is reachable from the state it was in along the transitions of the state
/// machine.
pub proof fn parse_follows_transitions(p: ParserView, bytes: Seq<u8>)
    ensures
        reachable(p.state, left(parse_outcome(p, bytes)).state),
{
    lemma_reachable_refl(p.state);
    if p.state == State::InBody {
        let q = ParserView { body: p.body + bytes, ..p };
        lemma_finish_edge(q);
        lemma_reachable_extend(p.state, p.state, left(parse_outcome(p, bytes)).state);
    } else {
        lemma_run_follows_transitions(p, bytes);
    }
}

proof fn lemma_run_follows_transitions(p: ParserView, bytes: Seq<u8>)
    ensures
        reachable(p.state, left(run(p, bytes)).state),
    decreases bytes.len(),
{
    if bytes.len() == 0 {
        lemma_reachable_refl(p.state);
    } else {
        lemma_run_follows_transitions(p, bytes.drop_last());
        match run(p, bytes.drop_last()) {
            Outcome::Running(q) => {
                step_follows_transitions(q, bytes.last());
                lemma_reachable_extend(p.state, q.state, left(step(q, bytes.last())).state);
            },
            _ => {},
        }
    }
}

/// Once the message is complete, further input changes nothing.
pub proof fn complete_absorbs_input(p: ParserView, bytes: Seq<u8>)
    requires
        p.state == State::ParseComplete,
    ensures
        parse_outcome(p, bytes) == Outcome::Running(p),
{
    lemma_run_complete(p, bytes);
}

proof fn lemma_run_complete(p: ParserView, bytes: Seq<u8>)
    requires
        p.state == State::ParseComplete,
    ensures
        run(p, bytes) == Outcome::Running(p),
    decreases bytes.len(),
{
    if bytes.len() > 0 {
        lemma_run_complete(p, bytes.drop_last());
    }
}

proof fn lemma_run_append(p: ParserView, a: Seq<u8>, b: Seq<u8>)
    ensures
        run(p, a + b) == (match run(p, a) {
            Outcome::Running(q) => run(q, b),
            o => o,
        }),
    decreases b.len(),
{
    if b.len() == 0 {
        assert(a + b =~= a);
    } else {
        assert((a + b).drop_last() =~= a + b.drop_last());
        assert((a + b).last() == b.last());
        lemma_run_append(p, a, b.drop_last());
    }
}

/// Running two pieces one after the other runs their concatenation.
pub proof fn lemma_run_append_pub(p: ParserView, a: Seq<u8>, b: Seq<u8>)
    ensures
        run(p, a + b) == (match run(p, a) {
            Outcome::Running(q) => run(q, b),
            o => o,
        }),
{
    lemma_run_append(p, a, b);
}

proof fn lemma_run_stopped(p: ParserView, s: Seq<u8>)
    ensures
        run(p, s) matches Outcome::Stopped(q) ==> q.state == State::ParseComplete,
    decreases s.len(),
{
    if s.len() > 0 {
        lemma_run_stopped(p, s.drop_last());
        if let Outcome::Running(q) = run(p, s.drop_last()) {
            lemma_finish_edge(q);
        }
    }
}

proof fn lemma_run_body(q: ParserView, b: Seq<u8>)
    requires
        q.state == State::InBody,
        q.body.len() < q.expected_content_length,
        q.body.len() + b.len() <= q.expected_content_length,
    ensures
        run(q, b) == (if q.body.len() + b.len() == q.expected_content_length {
            finish(ParserView { body: q.body + b, ..q })
        } else {
            Outcome::Running(ParserView { body: q.body + b, ..q })
        }),
    decreases b.len(),
{
    if b.len() == 0 {
        assert(q.body + b =~= q.body);
        assert(ParserView { body: q.body + b, ..q } == q);
    } else {
        lemma_run_body(q, b.drop_last());
        assert((q.body + b.drop_last()).push(b.last()) =~= q.body + b);
    }
}

/// Input may arrive in pieces. Feeding `a` and then `b` leaves the parser
/// as feeding `a + b` at once does, unless a sized body is open and `b` would
/// run past its announced end (fed at once, the bytes after the end are not
/// read; fed in two calls, the second call takes all of `b` into the body).
/// An outcome of `a` other than `Running` is also the outcome of `a + b`.
pub proof fn pieces_parse_as_whole(p: ParserView, a: Seq<u8>, b: Seq<u8>)
    requires
        p.state == State::InBody ==> (p.body.len() + a.len() < p.expected_content_length || b.len()
            == 0),
        p.state != State::InBody ==> (parse_outcome(p, a) matches Outcome::Running(q) ==> (q.state
            == State::InBody ==> q.body.len() < q.expected_content_length && q.body.len() + b.len()
            <= q.expected_content_length)),
    ensures
        match parse_outcome(p, a) {
            Outcome::Running(q) => parse_outcome(p, a + b) == parse_outcome(q, b),
            o => parse_outcome(p, a + b) == o,
        },
{
    if p.state == State::InBody {
        let qa = ParserView { body: p.body + a, ..p };
        let qab = ParserView { body: p.body + (a + b), ..p };
        assert(p.body + (a + b) =~= (p.body + a) + b);
        if b.len() == 0 {
            assert(a + b =~= a);
            if let Outcome::Running(r) = finish(qa) {
                lemma_finish_edge(qa);
                lemma_run_complete(r, b);
            }
        } else {
            assert(ParserView { body: qa.body + b, ..qa } == qab);
        }
    } else {
        lemma_run_append(p, a, b);
        lemma_run_stopped(p, a);
        match run(p, a) {
            Outcome::Running(q) => {
                if q.state == State::InBody {
                    lemma_run_body(q, b);
                    let q2 = ParserView { body: q.body + b, ..q };
                    lemma_finish_edge(q2);
                }
            },
            Outcome::Stopped(q) => {
                lemma_run_complete(q, b);
            },
            _ => {},
        }
    }
}


proof fn lemma_run_body_over(q: ParserView, b: Seq<u8>)
    requires
        q.state == State::InBody,
        q.body.len() >= q.expected_content_length,
    ensures
        run(q, b) == Outcome::Running(ParserView { body: q.body + b, ..q }),
    decreases b.len(),
{
    if b.len() == 0 {
        assert(q.body + b =~= q.body);
        assert(ParserView { body: q.body + b, ..q } == q);
    } else {
        lemma_run_body_over(q, b.drop_last());
        assert((q.body + b.drop_last()).push(b.last()) =~= q.body + b);
    }
}

/// Whether a buffer holds one whole message and nothing after it: parsing
/// it completes the message, and no shorter part of it does.
pub open spec fn one_whole_message(p: ParserView, buf: Seq<u8>) -> bool {
    &&& parse_outcome(p, buf) matches Outcome::Running(r) && r.state == State::ParseComplete
    &&& forall|j: int|
        0 <= j < buf.len() ==> !(#[trigger] parse_outcome(p, buf.take(j)) matches Outcome::Running(r)
            && r.state == State::ParseComplete)
}

/// A whole message may arrive cut anywhere: when a buffer holds one whole
/// message and nothing after it, feeding a parser (not yet in a body) its
/// first `k` bytes and then the rest gives what feeding it the whole buffer
/// gives.
pub proof fn whole_message_in_pieces(p: ParserView, buf: Seq<u8>, k: int)
    requires
        p.state != State::InBody,
        0 <= k <= buf.len(),
        one_whole_message(p, buf),
    ensures
        match parse_outcome(p, buf.take(k)) {
            Outcome::Running(q) => parse_outcome(q, buf.skip(k)) == parse_outcome(p, buf),
            o => o == parse_outcome(p, buf),
        },
{
    let a = buf.take(k);
    let b = buf.skip(k);
    assert(a + b =~= buf);
    lemma_run_stopped(p, a);
    if let Outcome::Running(q) = run(p, a) {
        if q.state == State::InBody {
            let m = q.body.len();
            let e = q.expected_content_length as int;
            lemma_run_append(p, a, b);
            if b.len() == 0 {
                assert(a =~= buf);
            } else if m >= e {
                lemma_run_body_over(q, b);
            } else if m + b.len() > e {
                let c = b.take(e - m);
                let rest = b.skip(e - m);
                assert(c + rest =~= b);
                lemma_run_body(q, c);
                lemma_run_append(p, a, c);
                lemma_run_append(p, a + c, rest);
                assert((a + c) + rest =~= buf);
                assert(a + c =~= buf.take(k + e - m));
                let fq = ParserView { body: q.body + c, ..q };
                lemma_finish_edge(fq);
                assert(!(parse_outcome(p, buf.take(k + e - m)) matches Outcome::Running(r) && r.state
                    == State::ParseComplete));
            }
        }
    }
    pieces_parse_as_whole(p, a, b);
}

/// Whether two messages are of the same kind.
pub open spec fn same_kind(a: MessageView, b: MessageView) -> bool {
    &&& (a is Request <==> b is Request)
    &&& (a is Response <==> b is Response)
}

proof fn lemma_step_kind(p: ParserView, b: u8)
    ensures
        same_kind(p.message, left(step(p, b)).message),
{
    let q = push_body(p, b);
    assert(same_kind(p.message, left(finish(p)).message));
    assert(same_kind(p.message, left(finish(q)).message));
    assert(same_kind(p.message, left(commit_method(p)).message));
    assert(same_kind(p.message, left(commit_status_line(p)).message));
    assert(same_kind(p.message, left(commit_header(p)).message));
}

/// A parser never changes the kind of the message it builds: a request stays
/// a request and a response a response.
pub proof fn parse_keeps_message_kind(p: ParserView, bytes: Seq<u8>)
    ensures
        same_kind(p.message, left(parse_outcome(p, bytes)).message),
{
    if p.state == State::InBody {
        let q = ParserView { body: p.body + bytes, ..p };
        assert(same_kind(p.message, left(finish(q)).message));
    } else {
        lemma_run_kind(p, bytes);
    }
}

proof fn lemma_run_kind(p: ParserView, bytes: Seq<u8>)
    ensures
        same_kind(p.message, left(run(p, bytes)).message),
    decreases bytes.len(),
{
    if bytes.len() > 0 {
        lemma_run_kind(p, bytes.drop_last());
        if let Outcome::Running(q) = run(p, bytes.drop_last()) {
            lemma_step_kind(q, bytes.last());
        }
    }
}


/// A request line `NAME TARGET VERSION` is read with the method that `NAME`
/// is the name of: `PUT /x HTTP/1.1` gives `PUT`, `DELETE /x HTTP/1.1` gives
/// `DELETE`. The request the parser holds afterwards has that method, also
/// when the target is then refused.
pub proof fn request_line_method(p: ParserView, m: Method)
    requires
        vstd::utf8::valid_utf8(p.buf),
        words(vstd::utf8::decode_utf8(p.buf)).len() == 3,
        words(vstd::utf8::decode_utf8(p.buf))[0] == method_name(m),
        p.message is Request,
    ensures
        left(commit_method(p)).message matches MessageView::Request(r) && r.method == m,
        !(commit_method(p) is Panicked),
{
    method_names();
    assert(method_named(method_name(m)) == Some(m));
}

} // verus!
