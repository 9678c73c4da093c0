//! The body of an HTTP request or response: either a payload of known length
//! that arrives in pieces, or a sequence of chunks (chunked transfer
//! encoding). Streams read a body from a position onwards.
use vstd::prelude::*;

verus! {

#[derive(Debug)]
pub enum BodyError {
    IncompleteBody,
    ContentTooLong(usize, usize),
    UTF8DecodeFailed(String),
}

impl BodyError {
    /// A description of the error.
    pub fn message(&self) -> (s: String)
        ensures
            s@ == (match self {
                BodyError::IncompleteBody => "BodyError: incomplete body"@,
                BodyError::ContentTooLong(want, got) => "BodyError: content too long, want: "@
                    + crate::text::decimal(*want as nat) + ", got "@ + crate::text::decimal(
                    *got as nat,
                ),
                BodyError::UTF8DecodeFailed(e) => "BodyError: UTF-8 decode failed: "@ + e@,
            }),
    {
        let mut s = String::new();
        match self {
            BodyError::IncompleteBody => {
                crate::text::push_str(&mut s, "BodyError: incomplete body");
            },
            BodyError::ContentTooLong(want, got) => {
                crate::text::push_str(&mut s, "BodyError: content too long, want: ");
                crate::text::push_number(&mut s, *want as u64, 10);
                crate::text::push_str(&mut s, ", got ");
                crate::text::push_number(&mut s, *got as u64, 10);
            },
            BodyError::UTF8DecodeFailed(e) => {
                crate::text::push_str(&mut s, "BodyError: UTF-8 decode failed: ");
                crate::text::push_str(&mut s, e.as_str());
            },
        }
        s
    }
}

/// The abstract state of a body.
pub enum BodyModel {
    /// Chunks received so far, and whether the last one has arrived.
    Chunked { chunks: Seq<Seq<u8>>, complete: bool },
    /// The bytes received so far, and the length announced for the payload.
    Full { content: Seq<u8>, expected: nat },
}

#[derive(Debug)]
struct ChunkState {
    chunks: Vec<Vec<u8>>,
    complete: bool,
}

#[derive(Debug)]
struct ContentState {
    content: Vec<u8>,
    expected_length: usize,
}

#[derive(Debug)]
enum Content {
    Chunked(ChunkState),
    Full(ContentState),
}

/// The concatenation of a sequence of byte strings.
pub open spec fn concat(chunks: Seq<Seq<u8>>) -> Seq<u8>
    decreases chunks.len(),
{
    if chunks.len() == 0 {
        Seq::<u8>::empty()
    } else {
        concat(chunks.drop_last()) + chunks.last()
    }
}

/// What `append` leaves of `content + buf`: at most `expected` bytes.
pub open spec fn appended(content: Seq<u8>, buf: Seq<u8>, expected: nat) -> Seq<u8> {
    let all = content + buf;
    if all.len() > expected {
        all.take(expected as int)
    } else {
        all
    }
}

#[derive(Debug)]
pub struct Body {
    content: Content,
}

impl ChunkState {
    fn new() -> (s: ChunkState)
        ensures
            s.chunks@.map_values(|c: Vec<u8>| c@) == Seq::<Seq<u8>>::empty(),
            !s.complete,
    {
        let s = ChunkState { chunks: Vec::new(), complete: false };
        assert(s.chunks@.map_values(|c: Vec<u8>| c@) =~= Seq::<Seq<u8>>::empty());
        s
    }
}

impl ContentState {
    fn new() -> (s: ContentState)
        ensures
            s.content@ == Seq::<u8>::empty(),
            s.expected_length == 0,
    {
        let s = ContentState { content: Vec::new(), expected_length: 0 };
        assert(s.content@ =~= Seq::<u8>::empty());
        s
    }
}

/// Copies a byte vector.
pub fn copy_bytes(v: &[u8]) -> (r: Vec<u8>)
    ensures
        r@ == v@,
{
    let mut r: Vec<u8> = Vec::new();
    let mut i: usize = 0;
    while i < v.len()
        invariant
            i <= v.len(),
            r@ == v@.take(i as int),
        decreases v.len() - i,
    {
        r.push(v[i]);
        i = i + 1;
        assert(r@ =~= v@.take(i as int));
    }
    assert(v@.take(v.len() as int) =~= v@);
    r
}

/// Appends bytes to a vector.
pub fn extend_bytes(r: &mut Vec<u8>, v: &[u8])
    ensures
        final(r)@ == old(r)@ + v@,
{
    let mut i: usize = 0;
    while i < v.len()
        invariant
            i <= v.len(),
            r@ == old(r)@ + v@.take(i as int),
        decreases v.len() - i,
    {
        r.push(v[i]);
        i = i + 1;
        assert(r@ =~= old(r)@ + v@.take(i as int));
    }
    assert(v@.take(v.len() as int) =~= v@);
}

/// The bytes of a sub-range.
pub fn bytes_range(v: &[u8], start: usize, end: usize) -> (r: Vec<u8>)
    requires
        start <= end <= v.len(),
    ensures
        r@ == v@.subrange(start as int, end as int),
{
    let mut r: Vec<u8> = Vec::new();
    let mut i: usize = start;
    while i < end
        invariant
            start <= i <= end <= v.len(),
            r@ == v@.subrange(start as int, i as int),
        decreases end - i,
    {
        r.push(v[i]);
        i = i + 1;
        assert(r@ =~= v@.subrange(start as int, i as int));
    }
    r
}

fn copy_chunks(v: &Vec<Vec<u8>>) -> (r: Vec<Vec<u8>>)
    ensures
        r@.map_values(|c: Vec<u8>| c@) == v@.map_values(|c: Vec<u8>| c@),
{
    let mut r: Vec<Vec<u8>> = Vec::new();
    let mut i: usize = 0;
    while i < v.len()
        invariant
            i <= v.len(),
            r@.map_values(|c: Vec<u8>| c@) == v@.map_values(|c: Vec<u8>| c@).take(i as int),
        decreases v.len() - i,
    {
        let c = copy_bytes(v[i].as_slice());
        let ghost before = r@.map_values(|c: Vec<u8>| c@);
        r.push(c);
        assert(r@.map_values(|c: Vec<u8>| c@) =~= before.push(v@[i as int]@));
        assert(v@.map_values(|c: Vec<u8>| c@)[i as int] == v@[i as int]@);
        i = i + 1;
        assert(r@.map_values(|c: Vec<u8>| c@) =~= v@.map_values(|c: Vec<u8>| c@).take(i as int));
    }
    assert(v@.map_values(|c: Vec<u8>| c@).take(v.len() as int) =~= v@.map_values(|c: Vec<u8>| c@));
    r
}

/// The ASCII bytes of the lower-case hexadecimal form of `n`.
pub open spec fn hex_ascii(n: nat) -> Seq<u8>
    decreases n,
{
    if n < 16 {
        seq![hex_digit_byte(n)]
    } else {
        hex_ascii(n / 16).push(hex_digit_byte(n % 16))
    }
}

pub open spec fn hex_digit_byte(d: nat) -> u8 {
    if d < 10 {
        (48 + d) as u8
    } else {
        (97 + d - 10) as u8
    }
}

fn push_hex(r: &mut Vec<u8>, n: usize)
    ensures
        final(r)@ == old(r)@ + hex_ascii(n as nat),
    decreases n,
{
    if n >= 16 {
        push_hex(r, n / 16);
    }
    let d = n % 16;
    let b: u8 = if d < 10 {
        48 + d as u8
    } else {
        97 + (d - 10) as u8
    };
    r.push(b);
    assert(b == hex_digit_byte((n % 16) as nat));
    if n < 16 {
        assert(final(r)@ =~= old(r)@ + hex_ascii(n as nat));
    } else {
        assert(hex_ascii(n as nat) == hex_ascii((n / 16) as nat).push(hex_digit_byte((n % 16) as nat)));
        assert(final(r)@ =~= old(r)@ + hex_ascii(n as nat));
    }
}

/// A chunk as it is framed on the wire: its length in hexadecimal, CRLF, the
/// data, CRLF.
pub open spec fn framed_chunk(data: Seq<u8>) -> Seq<u8> {
    hex_ascii(data.len()) + seq![13u8, 10u8] + data + seq![13u8, 10u8]
}

/// The closing chunk of a chunked body: `0\r\n\r\n`.
pub open spec fn last_chunk() -> Seq<u8> {
    seq![48u8, 13u8, 10u8, 13u8, 10u8]
}

/// Frames a chunk for the wire.
pub fn frame_chunk(data: &[u8]) -> (r: Vec<u8>)
    ensures
        r@ == framed_chunk(data@),
{
    let mut r: Vec<u8> = Vec::new();
    push_hex(&mut r, data.len());
    r.push(13);
    r.push(10);
    extend_bytes(&mut r, data);
    r.push(13);
    r.push(10);
    assert(r@ =~= framed_chunk(data@));
    r
}

impl Body {
    pub closed spec fn view(&self) -> BodyModel {
        match self.content {
            Content::Chunked(s) => BodyModel::Chunked {
                chunks: s.chunks@.map_values(|c: Vec<u8>| c@),
                complete: s.complete,
            },
            Content::Full(s) => BodyModel::Full {
                content: s.content@,
                expected: s.expected_length as nat,
            },
        }
    }

    /// Whether the body is chunked, in the abstract state.
    pub open spec fn is_chunked(&self) -> bool {
        self@ is Chunked
    }

    /// What `try_content` returns: everything received so far.
    pub open spec fn received(&self) -> Seq<u8> {
        match self@ {
            BodyModel::Chunked { chunks, .. } => concat(chunks),
            BodyModel::Full { content, .. } => content,
        }
    }

    /// An empty body that expects no bytes.
    pub fn new() -> (b: Body)
        ensures
            b@ == (BodyModel::Full { content: Seq::<u8>::empty(), expected: 0 }),
    {
        let b = Body { content: Content::Full(ContentState::new()) };
        assert(b@ == (BodyModel::Full { content: Seq::<u8>::empty(), expected: 0 }));
        b
    }

    /// A complete body holding the given bytes.
    pub fn from_bytes(v: Vec<u8>) -> (b: Body)
        ensures
            b@ == (BodyModel::Full { content: v@, expected: v@.len() }),
    {
        let n = v.len();
        Body { content: Content::Full(ContentState { content: v, expected_length: n }) }
    }

    /// A complete body holding the UTF-8 bytes of the text.
    pub fn from_text<T: crate::text::Text>(t: T) -> (b: Body)
        ensures
            b@ == (BodyModel::Full {
                content: vstd::utf8::encode_utf8(t.text()),
                expected: vstd::utf8::encode_utf8(t.text()).len(),
            }),
    {
        let s = t.to_text();
        let bytes = s.as_str().as_bytes_vec();
        Body::from_bytes(bytes)
    }

    /// Switches to chunked encoding with no chunks.
    pub fn set_chunked(&mut self)
        ensures
            final(self)@ == (BodyModel::Chunked { chunks: Seq::<Seq<u8>>::empty(), complete: false }),
    {
        self.content = Content::Chunked(ChunkState::new());
        assert(self@ == (BodyModel::Chunked { chunks: Seq::<Seq<u8>>::empty(), complete: false }));
    }

    /// Announces the payload length of a body that is not chunked.
    pub fn set_content_length(&mut self, length: usize)
        requires
            !old(self).is_chunked(),
        ensures
            final(self)@ == (BodyModel::Full { content: old(self).received(), expected: length as nat }),
    {
        match &mut self.content {
            Content::Full(state) => {
                state.expected_length = length;
            },
            Content::Chunked(_) => {},
        }
    }

    pub fn chunked(&self) -> (r: bool)
        ensures
            r == self.is_chunked(),
    {
        match &self.content {
            Content::Chunked(_) => true,
            Content::Full(_) => false,
        }
    }

    /// Adds a chunk to a chunked body.
    pub fn push_chunk(&mut self, chunk: Vec<u8>)
        requires
            old(self).is_chunked(),
        ensures
            final(self)@ == (BodyModel::Chunked {
                chunks: old(self)@->chunks.push(chunk@),
                complete: old(self)@->complete,
            }),
    {
        match &mut self.content {
            Content::Chunked(state) => {
                let ghost before = state.chunks@.map_values(|c: Vec<u8>| c@);
                state.chunks.push(chunk);
                assert(state.chunks@.map_values(|c: Vec<u8>| c@) =~= before.push(chunk@));
            },
            Content::Full(_) => {},
        }
    }

    /// Marks the last chunk of a chunked body as received.
    pub fn end_chunked(&mut self)
        requires
            old(self).is_chunked(),
            !old(self)@->complete,
        ensures
            final(self)@ == (BodyModel::Chunked { chunks: old(self)@->chunks, complete: true }),
    {
        match &mut self.content {
            Content::Chunked(state) => {
                state.complete = true;
            },
            Content::Full(_) => {},
        }
    }

    /// Whether the whole body has been received.
    pub fn complete(&self) -> (r: bool)
        ensures
            r == match self@ {
                BodyModel::Chunked { complete, .. } => complete,
                BodyModel::Full { content, expected } => content.len() >= expected,
            },
    {
        match &self.content {
            Content::Full(state) => state.content.len() >= state.expected_length,
            Content::Chunked(state) => state.complete,
        }
    }

    /// Appends bytes to a body that is not chunked, keeping at most the
    /// announced length. Returns whether the body now has exactly that length.
    pub fn append(&mut self, buf: &[u8]) -> (r: Result<bool, BodyError>)
        requires
            !old(self).is_chunked(),
        ensures
            final(self)@ == (BodyModel::Full {
                content: appended(old(self).received(), buf@, old(self)@->expected),
                expected: old(self)@->expected,
            }),
            r matches Ok(done) && done == (appended(
                old(self).received(),
                buf@,
                old(self)@->expected,
            ).len() == old(self)@->expected),
    {
        match &mut self.content {
            Content::Full(state) => {
                extend_bytes(&mut state.content, buf);
                if state.content.len() > state.expected_length {
                    state.content.truncate(state.expected_length);
                }
                let done = state.content.len() == state.expected_length;
                Ok(done)
            },
            Content::Chunked(_) => Ok(false),
        }
    }

    /// Everything received so far; for a chunked body, the chunks joined.
    pub fn try_content(&self) -> (r: Vec<u8>)
        ensures
            r@ == self.received(),
    {
        match &self.content {
            Content::Full(state) => copy_bytes(state.content.as_slice()),
            Content::Chunked(state) => {
                let mut r: Vec<u8> = Vec::new();
                let mut i: usize = 0;
                while i < state.chunks.len()
                    invariant
                        i <= state.chunks.len(),
                        r@ == concat(state.chunks@.map_values(|c: Vec<u8>| c@).take(i as int)),
                    decreases state.chunks.len() - i,
                {
                    extend_bytes(&mut r, state.chunks[i].as_slice());
                    assert(state.chunks@.map_values(|c: Vec<u8>| c@).take(i + 1).drop_last() =~= state.chunks@.map_values(|c: Vec<u8>| c@).take(i as int));
                    assert(state.chunks@.map_values(|c: Vec<u8>| c@)[i as int] == state.chunks@[i as int]@);
                    i = i + 1;
                }
                assert(state.chunks@.map_values(|c: Vec<u8>| c@).take(i as int) =~= state.chunks@.map_values(|c: Vec<u8>| c@));
                r
            },
        }
    }

    /// A stream over the bytes of a body that is not chunked.
    pub fn content_stream(&self) -> (s: ContentStream)
        requires
            !self.is_chunked(),
        ensures
            s.current_pos == 0,
    {
        ContentStream { current_pos: 0 }
    }

    /// A stream over the chunks of a chunked body, as they were pushed.
    pub fn chunk_stream(&self) -> (s: ChunkStream)
        requires
            self.is_chunked(),
        ensures
            s.current_pos == 0,
            !s.raw,
            !s.done,
    {
        ChunkStream { raw: false, done: false, current_pos: 0 }
    }

    /// A stream over the body: its bytes, or its chunks.
    pub fn stream(&self) -> (s: BodyStream)
        ensures
            self.is_chunked() ==> (s matches BodyStream::Chunks(c) && c.current_pos == 0 && !c.raw
                && !c.done),
            !self.is_chunked() ==> (s matches BodyStream::Content(c) && c.current_pos == 0),
    {
        if self.chunked() {
            BodyStream::Chunks(self.chunk_stream())
        } else {
            BodyStream::Content(self.content_stream())
        }
    }

    /// A stream over the body as it goes on the wire: for a chunked body,
    /// each chunk framed with its length, then the closing chunk.
    pub fn raw_stream(&self) -> (s: BodyStream)
        ensures
            self.is_chunked() ==> (s matches BodyStream::Chunks(c) && c.current_pos == 0 && c.raw
                && !c.done),
            !self.is_chunked() ==> (s matches BodyStream::Content(c) && c.current_pos == 0),
    {
        if self.chunked() {
            let mut c = self.chunk_stream();
            c.raw = true;
            BodyStream::Chunks(c)
        } else {
            BodyStream::Content(self.content_stream())
        }
    }
}

impl Clone for Body {
    fn clone(&self) -> (r: Self)
        ensures
            r@ == self@,
    {
        match &self.content {
            Content::Full(s) => Body {
                content: Content::Full(
                    ContentState {
                        content: copy_bytes(s.content.as_slice()),
                        expected_length: s.expected_length,
                    },
                ),
            },
            Content::Chunked(s) => Body {
                content: Content::Chunked(
                    ChunkState { chunks: copy_chunks(&s.chunks), complete: s.complete },
                ),
            },
        }
    }
}

impl Default for Body {
    fn default() -> (b: Body)
        ensures
            b@ == (BodyModel::Full { content: Seq::<u8>::empty(), expected: 0 }),
    {
        Body::new()
    }
}

/// The outcome of asking a stream for its next item.
#[derive(Debug, PartialEq, Eq)]
pub enum Next {
    /// Nothing to return yet: more of the body is still to arrive.
    Pending,
    /// The next piece of the body.
    Item(Vec<u8>),
    /// The stream is over.
    End,
}

/// Reads the bytes of a body that is not chunked, from a position onwards.
#[derive(Debug)]
pub struct ContentStream {
    pub current_pos: usize,
}

/// Reads the chunks of a chunked body in order. A raw stream frames each chunk
/// and ends with the closing chunk.
#[derive(Debug)]
pub struct ChunkStream {
    pub raw: bool,
    pub done: bool,
    pub current_pos: usize,
}

/// A stream over either kind of body.
#[derive(Debug)]
pub enum BodyStream {
    Content(ContentStream),
    Chunks(ChunkStream),
}

/// What one read of a content stream does: everything after the position,
/// once there is something; the end once the announced length has been read;
/// else nothing yet.
pub open spec fn content_step(a: ContentStream, b: ContentStream, body: BodyModel, r: Next) -> bool {
    let content = body->content;
    let expected = body->expected;
    let pos = a.current_pos as int;
    if pos >= content.len() {
        &&& b.current_pos == a.current_pos
        &&& r == (if content.len() != expected {
            Next::Pending
        } else {
            Next::End
        })
    } else {
        &&& b.current_pos == content.len()
        &&& r matches Next::Item(v) && v@ == content.subrange(pos, content.len() as int)
    }
}

/// What one read of a chunk stream does: the next chunk (framed, for a raw
/// stream), or the closing chunk of a raw stream, or the end once the last
/// chunk has been read; nothing yet while chunks are still to come.
pub open spec fn chunk_step(a: ChunkStream, b: ChunkStream, body: BodyModel, r: Next) -> bool {
    let chunks = body->chunks;
    let complete = body->complete;
    let pos = a.current_pos as int;
    &&& b.raw == a.raw
    &&& if pos >= chunks.len() {
        &&& b.current_pos == a.current_pos
        &&& if !complete {
            r == Next::Pending && b.done == a.done
        } else if a.raw && !a.done {
            &&& b.done
            &&& r matches Next::Item(v) && v@ == last_chunk()
        } else {
            r == Next::End && b.done == a.done
        }
    } else {
        &&& b.current_pos == pos + 1
        &&& b.done == a.done
        &&& r matches Next::Item(v) && v@ == (if a.raw {
            framed_chunk(chunks[pos])
        } else {
            chunks[pos]
        })
    }
}


/// The pieces that a run of reads returned, in order.
pub open spec fn items_of(rs: Seq<Next>) -> Seq<Seq<u8>>
    decreases rs.len(),
{
    if rs.len() == 0 {
        Seq::empty()
    } else {
        let prev = items_of(rs.drop_last());
        match rs.last() {
            Next::Item(v) => prev.push(v@),
            _ => prev,
        }
    }
}

/// Whether a body that is not chunked can turn from `a` into `b`: the
/// bytes received only grow.
pub open spec fn content_grows(a: BodyModel, b: BodyModel) -> bool {
    &&& a is Full
    &&& b is Full
    &&& a->content.len() <= b->content.len()
    &&& b->content.take(a->content.len() as int) == a->content
}

proof fn lemma_content_run(s: Seq<ContentStream>, bodies: Seq<BodyModel>, rs: Seq<Next>, n: int)
    requires
        s.len() == rs.len() + 1,
        bodies.len() == rs.len(),
        1 <= n <= rs.len(),
        s[0].current_pos == 0,
        forall|i: int| 0 <= i < rs.len() ==> (#[trigger] bodies[i]) is Full,
        forall|i: int| 0 <= i < rs.len() ==> #[trigger] content_step(s[i], s[i + 1], bodies[i], rs[i]),
        forall|i: int| 0 <= i < rs.len() - 1 ==> #[trigger] content_grows(bodies[i], bodies[i + 1]),
    ensures
        s[n].current_pos <= bodies[n - 1]->content.len(),
        concat(items_of(rs.take(n))) == bodies[n - 1]->content.take(s[n].current_pos as int),
        forall|j: int| 0 <= j < items_of(rs.take(n)).len() ==> #[trigger] items_of(rs.take(n))[j].len() > 0,
    decreases n,
{
    let k = n - 1;
    assert(content_step(s[k], s[k + 1], bodies[k], rs[k]));
    assert(rs.take(n).drop_last() =~= rs.take(n - 1));
    assert(rs.take(n).last() == rs[n - 1]);
    let c = bodies[n - 1]->content;
    if n == 1 {
        assert(rs.take(0) =~= Seq::<Next>::empty());
        assert(items_of(rs.take(0)) =~= Seq::<Seq<u8>>::empty());
        if s[0].current_pos as int >= c.len() {
            assert(c.take(0) =~= Seq::<u8>::empty());
        } else {
            let v = rs[0]->Item_0;
            assert(items_of(rs.take(1)) =~= seq![v@]);
            assert(seq![v@].drop_last() =~= Seq::<Seq<u8>>::empty());
            assert(concat(seq![v@]) =~= concat(Seq::<Seq<u8>>::empty()) + v@);
            assert(c.take(c.len() as int) =~= c.subrange(0, c.len() as int));
        }
    } else {
        lemma_content_run(s, bodies, rs, n - 1);
        let k2 = n - 2;
        assert(content_grows(bodies[k2], bodies[k2 + 1]));
        let p = bodies[n - 2]->content;
        let pos = s[n - 1].current_pos as int;
        assert(c.take(pos) =~= p.take(pos));
        if pos >= c.len() {
        } else {
            let v = rs[n - 1]->Item_0;
            let prev = items_of(rs.take(n - 1));
            assert(items_of(rs.take(n)) == prev.push(v@));
            assert(prev.push(v@).drop_last() =~= prev);
            assert(c.take(pos) + c.subrange(pos, c.len() as int) =~= c.take(c.len() as int));
            assert forall|j: int| 0 <= j < prev.push(v@).len() implies #[trigger] prev.push(
                v@,
            )[j].len() > 0 by {
                if j < prev.len() {
                    assert(prev.push(v@)[j] == prev[j]);
                }
            }
        }
    }
}

/// A run of reads of a content stream, started at the beginning, while the
/// body's bytes only grow, returns the bytes received in order: the pieces
/// joined are the bytes up to the stream's position, each piece is non-empty,
/// and once the stream has ended they are the whole announced content.
pub proof fn content_stream_run(s: Seq<ContentStream>, bodies: Seq<BodyModel>, rs: Seq<Next>)
    requires
        rs.len() > 0,
        s.len() == rs.len() + 1,
        bodies.len() == rs.len(),
        s[0].current_pos == 0,
        forall|i: int| 0 <= i < rs.len() ==> (#[trigger] bodies[i]) is Full,
        forall|i: int| 0 <= i < rs.len() ==> #[trigger] content_step(s[i], s[i + 1], bodies[i], rs[i]),
        forall|i: int| 0 <= i < rs.len() - 1 ==> #[trigger] content_grows(bodies[i], bodies[i + 1]),
    ensures
        ({
            let last = bodies[rs.len() - 1];
            let pos = s[rs.len() as int].current_pos;
            &&& pos <= last->content.len()
            &&& concat(items_of(rs)) == last->content.take(pos as int)
            &&& forall|j: int| 0 <= j < items_of(rs).len() ==> #[trigger] items_of(rs)[j].len() > 0
            &&& rs.last() == Next::End ==> concat(items_of(rs)) == last->content
                && last->content.len() == last->expected
        }),
{
    let n = rs.len() as int;
    lemma_content_run(s, bodies, rs, n);
    assert(rs.take(n) =~= rs);
    let k = n - 1;
    assert(content_step(s[k], s[k + 1], bodies[k], rs[k]));
    let c = bodies[n - 1]->content;
    if rs.last() == Next::End {
        assert(c.take(c.len() as int) =~= c);
    }
}


/// Whether a chunked body can turn from `a` into `b`: chunks are only added
/// after those received, and a complete body no longer changes.
pub open spec fn chunks_grow(a: BodyModel, b: BodyModel) -> bool {
    &&& a is Chunked
    &&& b is Chunked
    &&& a->chunks.len() <= b->chunks.len()
    &&& b->chunks.take(a->chunks.len() as int) == a->chunks
    &&& a->complete ==> b == a
}

/// The chunks as a raw stream returns them: each framed for the wire.
pub open spec fn framed_items(chunks: Seq<Seq<u8>>) -> Seq<Seq<u8>> {
    chunks.map_values(|c: Seq<u8>| framed_chunk(c))
}

/// What a chunk stream that has read up to `pos` has returned.
pub open spec fn chunk_items(chunks: Seq<Seq<u8>>, pos: int, raw: bool, done: bool) -> Seq<Seq<u8>> {
    if raw {
        framed_items(chunks.take(pos)) + (if done {
            seq![last_chunk()]
        } else {
            Seq::<Seq<u8>>::empty()
        })
    } else {
        chunks.take(pos)
    }
}

proof fn lemma_chunk_run(s: Seq<ChunkStream>, bodies: Seq<BodyModel>, rs: Seq<Next>, n: int)
    requires
        s.len() == rs.len() + 1,
        bodies.len() == rs.len(),
        1 <= n <= rs.len(),
        s[0].current_pos == 0,
        !s[0].done,
        forall|i: int| 0 <= i < rs.len() ==> (#[trigger] bodies[i]) is Chunked,
        forall|i: int| 0 <= i < rs.len() ==> #[trigger] chunk_step(s[i], s[i + 1], bodies[i], rs[i]),
        forall|i: int| 0 <= i < rs.len() - 1 ==> #[trigger] chunks_grow(bodies[i], bodies[i + 1]),
    ensures
        ({
            let b = bodies[n - 1];
            let t = s[n];
            &&& t.raw == s[0].raw
            &&& t.current_pos <= b->chunks.len()
            &&& t.done ==> s[0].raw && t.current_pos == b->chunks.len() && b->complete
            &&& items_of(rs.take(n)) == chunk_items(b->chunks, t.current_pos as int, t.raw, t.done)
        }),
    decreases n,
{
    let k = n - 1;
    assert(chunk_step(s[k], s[k + 1], bodies[k], rs[k]));
    assert(rs.take(n).drop_last() =~= rs.take(k));
    assert(rs.take(n).last() == rs[k]);
    let b = bodies[k];
    let c = b->chunks;
    let a = s[k];
    let t = s[n];
    let pos = a.current_pos as int;
    if n == 1 {
        assert(rs.take(0) =~= Seq::<Next>::empty());
        assert(c.take(0) =~= Seq::<Seq<u8>>::empty());
        assert(framed_items(c.take(0)) =~= Seq::<Seq<u8>>::empty());
    } else {
        lemma_chunk_run(s, bodies, rs, k);
        let k2 = n - 2;
        assert(chunks_grow(bodies[k2], bodies[k2 + 1]));
        let p = bodies[k2]->chunks;
        assert(c.take(pos) =~= p.take(pos));
    }
    let prev = items_of(rs.take(k));
    assert(prev == chunk_items(c, pos, a.raw, a.done));
    if pos < c.len() {
        assert(!a.done);
        let v = rs[k]->Item_0;
        assert(items_of(rs.take(n)) == prev.push(v@));
        assert(c.take(pos + 1) =~= c.take(pos).push(c[pos]));
        if a.raw {
            assert(framed_items(c.take(pos + 1)) =~= framed_items(c.take(pos)).push(framed_chunk(c[pos])));
            assert(chunk_items(c, pos, true, false) =~= framed_items(c.take(pos)));
            assert(chunk_items(c, pos + 1, true, false) =~= framed_items(c.take(pos + 1)));
        }
    } else {
        if b->complete && a.raw && !a.done {
            let v = rs[k]->Item_0;
            assert(items_of(rs.take(n)) == prev.push(v@));
            assert(chunk_items(c, pos, true, false) =~= framed_items(c.take(pos)));
            assert(chunk_items(c, pos, true, true) =~= framed_items(c.take(pos)).push(last_chunk()));
        }
    }
}

/// A run of reads of a chunk stream, started at the first chunk, while the
/// body only gains chunks: the stream returns the chunks in the order they
/// were pushed (each framed, for a raw stream, then the closing chunk once);
/// and once it has ended every chunk has been returned and the body is
/// complete.
pub proof fn chunk_stream_run(s: Seq<ChunkStream>, bodies: Seq<BodyModel>, rs: Seq<Next>)
    requires
        rs.len() > 0,
        s.len() == rs.len() + 1,
        bodies.len() == rs.len(),
        s[0].current_pos == 0,
        !s[0].done,
        forall|i: int| 0 <= i < rs.len() ==> (#[trigger] bodies[i]) is Chunked,
        forall|i: int| 0 <= i < rs.len() ==> #[trigger] chunk_step(s[i], s[i + 1], bodies[i], rs[i]),
        forall|i: int| 0 <= i < rs.len() - 1 ==> #[trigger] chunks_grow(bodies[i], bodies[i + 1]),
    ensures
        ({
            let last = bodies[rs.len() - 1];
            let t = s[rs.len() as int];
            &&& t.current_pos <= last->chunks.len()
            &&& items_of(rs) == chunk_items(last->chunks, t.current_pos as int, s[0].raw, t.done)
            &&& t.done ==> s[0].raw && t.current_pos == last->chunks.len() && last->complete
            &&& rs.last() == Next::End ==> t.current_pos == last->chunks.len() && last->complete
                && (s[0].raw ==> t.done)
        }),
{
    let n = rs.len() as int;
    lemma_chunk_run(s, bodies, rs, n);
    assert(rs.take(n) =~= rs);
    let k = n - 1;
    assert(chunk_step(s[k], s[k + 1], bodies[k], rs[k]));
}

impl ContentStream {
    /// Everything after the current position, once there is something; the end
    /// once the announced length has been read.
    pub fn next(&mut self, body: &Body) -> (r: Next)
        requires
            !body.is_chunked(),
        ensures
            content_step(*old(self), *final(self), body@, r),
    {
        match &body.content {
            Content::Full(state) => {
                if self.current_pos >= state.content.len() {
                    if state.content.len() != state.expected_length {
                        return Next::Pending;
                    }
                    return Next::End;
                }
                let data = bytes_range(
                    state.content.as_slice(),
                    self.current_pos,
                    state.content.len(),
                );
                self.current_pos = state.content.len();
                Next::Item(data)
            },
            Content::Chunked(_) => Next::End,
        }
    }
}

impl ChunkStream {
    /// The next chunk (framed, for a raw stream), or the closing chunk of a raw
    /// stream, or the end once the last chunk has been read.
    pub fn next(&mut self, body: &Body) -> (r: Next)
        requires
            body.is_chunked(),
        ensures
            chunk_step(*old(self), *final(self), body@, r),
    {
        match &body.content {
            Content::Chunked(state) => {
                if self.current_pos >= state.chunks.len() {
                    if !state.complete {
                        return Next::Pending;
                    } else if self.raw && !self.done {
                        self.done = true;
                        let v: Vec<u8> = vec![48u8, 13u8, 10u8, 13u8, 10u8];
                        assert(v@ =~= last_chunk());
                        return Next::Item(v);
                    } else {
                        return Next::End;
                    }
                }
                let pos = self.current_pos;
                let chunk = state.chunks[pos].as_slice();
                assert(state.chunks@.map_values(|c: Vec<u8>| c@)[pos as int] == state.chunks@[pos as int]@);
                self.current_pos = pos + 1;
                if self.raw {
                    Next::Item(frame_chunk(chunk))
                } else {
                    Next::Item(copy_bytes(chunk))
                }
            },
            Content::Full(_) => Next::End,
        }
    }
}

impl BodyStream {
    /// The next item of whichever stream this is.
    pub fn next(&mut self, body: &Body) -> (r: Next)
        requires
            match *old(self) {
                BodyStream::Content(_) => !body.is_chunked(),
                BodyStream::Chunks(_) => body.is_chunked(),
            },
        ensures
            match (*old(self), *final(self)) {
                (BodyStream::Content(a), BodyStream::Content(b)) => content_step(a, b, body@, r),
                (BodyStream::Chunks(a), BodyStream::Chunks(b)) => chunk_step(a, b, body@, r),
                _ => false,
            },
    {
        match self {
            BodyStream::Content(s) => s.next(body),
            BodyStream::Chunks(s) => s.next(body),
        }
    }
}

/// What a body can be made from: a body, or text.
pub trait IntoBody {
    spec fn body_view(&self) -> BodyModel;

    fn into_body(self) -> (b: Body)
        ensures
            b@ == self.body_view(),
    ;
}

impl IntoBody for Body {
    open spec fn body_view(&self) -> BodyModel {
        self@
    }

    fn into_body(self) -> (b: Body) {
        self
    }
}

impl IntoBody for String {
    open spec fn body_view(&self) -> BodyModel {
        BodyModel::Full {
            content: vstd::utf8::encode_utf8(self@),
            expected: vstd::utf8::encode_utf8(self@).len(),
        }
    }

    fn into_body(self) -> (b: Body) {
        Body::from_text(self)
    }
}

impl<'a> IntoBody for &'a str {
    open spec fn body_view(&self) -> BodyModel {
        BodyModel::Full {
            content: vstd::utf8::encode_utf8((*self)@),
            expected: vstd::utf8::encode_utf8((*self)@).len(),
        }
    }

    fn into_body(self) -> (b: Body) {
        Body::from_text(self)
    }
}

} // verus!
