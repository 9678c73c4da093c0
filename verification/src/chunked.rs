//! The chunked transfer coding read back: the bytes that a raw chunk stream
//! writes for a body are parsed into that body.
use vstd::prelude::*;

use crate::body::{concat, framed_chunk, hex_ascii, hex_digit_byte, last_chunk};
use crate::parser::{
    allowed, chunk_byte, clear, commit_chunksize, finish, hex_byte, push_buf, push_body, run, size_line,
    step, Outcome, ParserView, State,
};
use crate::text::{
    all_digits, digit_char, digits_value, hex_digit_value, hex_lower, is_hex_digit, is_ws,
    parse_bounded, parse_nat, trim, trim_end, trim_start, value_of_digit,
};

verus! {

broadcast use vstd::utf8::encode_utf8_valid_utf8, vstd::utf8::encode_utf8_decode_utf8;

proof fn lemma_encode_push(s: Seq<char>, c: char)
    ensures
        vstd::utf8::encode_utf8(s.push(c)) == vstd::utf8::encode_utf8(s) + vstd::utf8::encode_scalar(
            c as u32,
        ),
    decreases s.len(),
{
    if s.len() == 0 {
        assert(s.push(c).drop_first() =~= Seq::<char>::empty());
        assert(vstd::utf8::encode_utf8(Seq::<char>::empty()) =~= Seq::<u8>::empty());
    } else {
        assert(s.push(c).drop_first() =~= s.drop_first().push(c));
        lemma_encode_push(s.drop_first(), c);
    }
}

proof fn lemma_digit_encoding(d: nat)
    requires
        d < 16,
    ensures
        vstd::utf8::encode_scalar(digit_char(d) as u32) == seq![hex_digit_byte(d)],
        is_hex_digit(digit_char(d)),
        hex_digit_value(digit_char(d)) == d,
        hex_byte(hex_digit_byte(d)),
{
    let v: u32 = if d < 10 {
        (48 + d) as u32
    } else {
        (97 + d - 10) as u32
    };
    assert(digit_char(d) as u32 == v);
    assert(v <= 0x7f);
    assert((v & 0x7f) == v) by (bit_vector)
        requires
            v <= 0x7f,
    ;
    assert(hex_digit_byte(d) == v as u8);
}

proof fn lemma_hex_encoding(n: nat)
    ensures
        hex_ascii(n) == vstd::utf8::encode_utf8(hex_lower(n)),
        forall|i: int| 0 <= i < hex_lower(n).len() ==> is_hex_digit(#[trigger] hex_lower(n)[i]),
        forall|i: int| 0 <= i < hex_ascii(n).len() ==> hex_byte(#[trigger] hex_ascii(n)[i]),
        hex_lower(n).len() > 0,
    decreases n,
{
    if n < 16 {
        lemma_digit_encoding(n);
        lemma_encode_push(Seq::<char>::empty(), digit_char(n));
        assert(Seq::<char>::empty().push(digit_char(n)) =~= seq![digit_char(n)]);
        assert(vstd::utf8::encode_utf8(Seq::<char>::empty()) =~= Seq::<u8>::empty());
        assert(Seq::<u8>::empty() + seq![hex_digit_byte(n)] =~= seq![hex_digit_byte(n)]);
    } else {
        lemma_hex_encoding(n / 16);
        lemma_digit_encoding(n % 16);
        lemma_encode_push(hex_lower(n / 16), digit_char(n % 16));
        assert(hex_ascii(n) =~= hex_ascii(n / 16) + seq![hex_digit_byte(n % 16)]);
        assert forall|i: int| 0 <= i < hex_ascii(n).len() implies hex_byte(
            #[trigger] hex_ascii(n)[i],
        ) by {
            if i < hex_ascii(n / 16).len() {
                assert(hex_ascii(n)[i] == hex_ascii(n / 16)[i]);
            }
        }
        assert forall|i: int| 0 <= i < hex_lower(n).len() implies is_hex_digit(
            #[trigger] hex_lower(n)[i],
        ) by {
            if i < hex_lower(n / 16).len() {
                assert(hex_lower(n)[i] == hex_lower(n / 16)[i]);
            }
        }
    }
}

proof fn lemma_hex_value(n: nat)
    ensures
        digits_value(hex_lower(n), 16) == n,
    decreases n,
{
    lemma_digit_encoding(n % 16);
    if n < 16 {
        assert(seq![digit_char(n)].drop_last() =~= Seq::<char>::empty());
        vstd::arithmetic::div_mod::lemma_small_mod(n, 16);
        assert(hex_lower(n).last() == digit_char(n));
        assert(value_of_digit(digit_char(n), 16) == n);
        assert(digits_value(Seq::<char>::empty(), 16) == 0);
    } else {
        lemma_hex_value(n / 16);
        assert(hex_lower(n).drop_last() =~= hex_lower(n / 16));
        assert(hex_lower(n).last() == digit_char(n % 16));
        assert(value_of_digit(digit_char(n % 16), 16) == n % 16);
        vstd::arithmetic::div_mod::lemma_fundamental_div_mod(n as int, 16);
        assert(digits_value(hex_lower(n), 16) == digits_value(hex_lower(n / 16), 16) * 16 + n % 16);
    }
}

/// The size line that the writer puts before a chunk is read back as the
/// chunk's size.
proof fn lemma_size_line_value(n: nat)
    requires
        n <= usize::MAX,
    ensures
        vstd::utf8::valid_utf8(hex_ascii(n)),
        parse_bounded(trim(vstd::utf8::decode_utf8(hex_ascii(n))), 16, usize::MAX as nat) == Some(n),
{
    lemma_hex_encoding(n);
    lemma_hex_value(n);
    let s = hex_lower(n);
    assert(vstd::utf8::decode_utf8(hex_ascii(n)) == s);
    assert(!is_ws(s[0]));
    assert(!is_ws(s.last()));
    assert(trim_start(s) == s);
    assert(trim(s) == s);
    assert(s[0] != '+');
    assert(all_digits(s, 16));
}

proof fn lemma_run_hex(q: ParserView, h: Seq<u8>)
    requires
        q.state == State::InChunkedBodySize,
        forall|i: int| 0 <= i < h.len() ==> hex_byte(#[trigger] h[i]),
    ensures
        run(q, h) == Outcome::Running(ParserView { buf: q.buf + h, ..q }),
    decreases h.len(),
{
    if h.len() == 0 {
        assert(q.buf + h =~= q.buf);
        assert(ParserView { buf: q.buf + h, ..q } == q);
    } else {
        let d = h.drop_last();
        assert forall|i: int| 0 <= i < d.len() implies hex_byte(#[trigger] d[i]) by {
            assert(d[i] == h[i]);
        }
        lemma_run_hex(q, d);
        assert(hex_byte(h[h.len() - 1]));
        assert((q.buf + d).push(h.last()) =~= q.buf + h);
    }
}

proof fn lemma_run_data(q: ParserView, d: Seq<u8>, k: int)
    requires
        q.state == State::InChunkedBodyContent,
        q.chunk_pos == 0,
        q.expected_chunk_size == d.len(),
        d.len() >= 1,
        0 <= k <= d.len(),
    ensures
        run(q, d.take(k)) == Outcome::Running(
            if k < d.len() {
                ParserView { body: q.body + d.take(k), chunk_pos: k as usize, ..q }
            } else {
                ParserView {
                    body: q.body + d,
                    chunk_pos: d.len() as usize,
                    state: State::InChunkComplete,
                    buf: Seq::empty(),
                    ..q
                }
            },
        ),
    decreases k,
{
    if k == 0 {
        assert(d.take(0) =~= Seq::<u8>::empty());
        assert(q.body + d.take(0) =~= q.body);
        assert(ParserView { body: q.body + d.take(0), chunk_pos: 0usize, ..q } == q);
    } else {
        lemma_run_data(q, d, k - 1);
        assert(d.take(k).drop_last() =~= d.take(k - 1));
        assert(d.take(k).last() == d[k - 1]);
        let r = ParserView { body: q.body + d.take(k - 1), chunk_pos: (k - 1) as usize, ..q };
        assert((q.body + d.take(k - 1)).push(d[k - 1]) =~= q.body + d.take(k));
        if k == d.len() {
            assert(d.take(k) =~= d);
        }
        assert(step(r, d[k - 1]) == chunk_byte(r, d[k - 1]));
    }
}

proof fn lemma_run_pair(q: ParserView, a: u8, b: u8)
    ensures
        run(q, seq![a, b]) == (match step(q, a) {
            Outcome::Running(r) => step(r, b),
            o => o,
        }),
{
    assert(seq![a, b].drop_last() =~= seq![a]);
    assert(seq![a].drop_last() =~= Seq::<u8>::empty());
    assert(run(q, Seq::<u8>::empty()) == Outcome::Running(q));
    assert(run(q, seq![a]) == step(q, a));
    assert(seq![a, b].last() == b);
}

/// The bytes of all chunks framed one after the other.
pub open spec fn framed_all(chunks: Seq<Seq<u8>>) -> Seq<u8>
    decreases chunks.len(),
{
    if chunks.len() == 0 {
        Seq::empty()
    } else {
        framed_all(chunks.drop_last()) + framed_chunk(chunks.last())
    }
}

/// What a raw chunk stream writes for a complete chunked body: each chunk
/// framed, then the closing chunk.
pub open spec fn chunked_wire(chunks: Seq<Seq<u8>>) -> Seq<u8> {
    framed_all(chunks) + last_chunk()
}

proof fn lemma_run_chunk(q: ParserView, d: Seq<u8>)
    requires
        q.state == State::InChunkedBodySize,
        q.buf.len() == 0,
        0 < d.len() <= usize::MAX,
    ensures
        run(q, framed_chunk(d)) == Outcome::Running(
            ParserView {
                body: q.body + d,
                expected_chunk_size: d.len() as usize,
                chunk_pos: d.len() as usize,
                buf: Seq::empty(),
                ..q
            },
        ),
{
    let n = d.len();
    let h = hex_ascii(n);
    lemma_hex_encoding(n);
    lemma_size_line_value(n);
    let crlf = seq![13u8, 10u8];
    lemma_run_hex(q, h);
    assert(q.buf + h =~= h);
    let q1 = ParserView { buf: h, ..q };
    lemma_run_pair(q1, 13u8, 10u8);
    let q2 = ParserView {
        expected_chunk_size: n as usize,
        chunk_pos: 0,
        buf: Seq::<u8>::empty(),
        ..q1
    };
    assert(commit_chunksize(q1) == Outcome::Running(q2));
    assert(allowed(State::InChunkedBodySize, State::InChunkedBodyContent));
    let q3 = ParserView { state: State::InChunkedBodyContent, ..q2 };
    assert(size_line(q1) == Outcome::Running(q3));
    assert(run(q1, crlf) == Outcome::Running(q3));
    lemma_run_data(q3, d, n as int);
    assert(d.take(n as int) =~= d);
    let q4 = ParserView {
        body: q3.body + d,
        chunk_pos: n as usize,
        state: State::InChunkComplete,
        buf: Seq::empty(),
        ..q3
    };
    lemma_run_pair(q4, 13u8, 10u8);
    let q5 = ParserView { state: State::InChunkedBodySize, ..q4 };
    assert(run(q4, crlf) == Outcome::Running(q5));
    crate::parser::lemma_run_append_pub(q, h, crlf);
    crate::parser::lemma_run_append_pub(q, h + crlf, d);
    crate::parser::lemma_run_append_pub(q, h + crlf + d, crlf);
    assert(framed_chunk(d) =~= h + crlf + d + crlf);
    assert(q5 == ParserView {
        body: q.body + d,
        expected_chunk_size: d.len() as usize,
        chunk_pos: d.len() as usize,
        buf: Seq::empty(),
        ..q
    });
}

/// The parser after the closing chunk's size line, before its final line.
pub open spec fn after_last_size(p: ParserView, chunks: Seq<Seq<u8>>) -> ParserView {
    ParserView {
        state: State::EndChunkedBody,
        body: p.body + concat(chunks),
        expected_chunk_size: 0,
        chunk_pos: 0,
        buf: Seq::empty(),
        ..p
    }
}

proof fn lemma_run_last(q: ParserView)
    requires
        q.state == State::InChunkedBodySize,
        q.buf.len() == 0,
    ensures
        run(q, last_chunk()) == (match finish(
            ParserView {
                state: State::EndChunkedBody,
                expected_chunk_size: 0,
                chunk_pos: 0,
                buf: Seq::empty(),
                ..q
            },
        ) {
            Outcome::Running(r) => Outcome::Stopped(r),
            o => o,
        }),
{
    lemma_size_line_value(0);
    lemma_hex_encoding(0);
    assert(hex_ascii(0) =~= seq![48u8]);
    let q1 = push_buf(q, 48u8);
    assert(q1.buf =~= seq![48u8]);
    assert(step(q, 48u8) == Outcome::Running(q1));
    lemma_run_pair(q1, 13u8, 10u8);
    let q2 = ParserView { expected_chunk_size: 0, chunk_pos: 0, buf: Seq::<u8>::empty(), ..q1 };
    assert(commit_chunksize(q1) == Outcome::Running(q2));
    let q3 = ParserView { state: State::EndChunkedBody, ..q2 };
    assert(size_line(q1) == Outcome::Running(q3));
    lemma_run_pair(q3, 13u8, 10u8);
    assert(run(q, seq![48u8]) == step(q, 48u8)) by {
        assert(seq![48u8].drop_last() =~= Seq::<u8>::empty());
        assert(run(q, Seq::<u8>::empty()) == Outcome::Running(q));
        assert(seq![48u8].last() == 48u8);
    }
    crate::parser::lemma_run_append_pub(q, seq![48u8], seq![13u8, 10u8]);
    crate::parser::lemma_run_append_pub(q, seq![48u8] + seq![13u8, 10u8], seq![13u8, 10u8]);
    assert(last_chunk() =~= seq![48u8] + seq![13u8, 10u8] + seq![13u8, 10u8]);
    assert(q3 == ParserView {
        state: State::EndChunkedBody,
        expected_chunk_size: 0,
        chunk_pos: 0,
        buf: Seq::empty(),
        ..q
    });
}

proof fn lemma_run_framed_all(q: ParserView, chunks: Seq<Seq<u8>>)
    requires
        q.state == State::InChunkedBodySize,
        q.buf.len() == 0,
        forall|i: int| 0 <= i < chunks.len() ==> 0 < (#[trigger] chunks[i]).len() <= usize::MAX,
    ensures
        run(q, framed_all(chunks)) matches Outcome::Running(r) && r == (ParserView {
            body: q.body + concat(chunks),
            expected_chunk_size: r.expected_chunk_size,
            chunk_pos: r.chunk_pos,
            ..q
        }),
    decreases chunks.len(),
{
    if chunks.len() == 0 {
        assert(q.body + concat(chunks) =~= q.body);
    } else {
        let init = chunks.drop_last();
        assert forall|i: int| 0 <= i < init.len() implies 0 < (#[trigger] init[i]).len() <= usize::MAX by {
            assert(init[i] == chunks[i]);
        }
        lemma_run_framed_all(q, init);
        let r = run(q, framed_all(init))->Running_0;
        assert(chunks[chunks.len() - 1] == chunks.last());
        lemma_run_chunk(r, chunks.last());
        crate::parser::lemma_run_append_pub(q, framed_all(init), framed_chunk(chunks.last()));
        assert(q.body + concat(init) + chunks.last() =~= q.body + concat(chunks));
    }
}

/// What a raw chunk stream writes for a complete chunked body is read back
/// as that body: a parser waiting for a chunk size, fed each chunk framed
/// (every chunk holding at least one byte) and then the closing chunk, ends
/// the message with the chunks' bytes appended to its body.
pub proof fn chunked_wire_parses(p: ParserView, chunks: Seq<Seq<u8>>)
    requires
        p.state == State::InChunkedBodySize,
        p.buf.len() == 0,
        forall|i: int| 0 <= i < chunks.len() ==> 0 < (#[trigger] chunks[i]).len() <= usize::MAX,
    ensures
        crate::parser::parse_outcome(p, chunked_wire(chunks)) == finish(after_last_size(p, chunks)),
{
    lemma_run_framed_all(p, chunks);
    let r = run(p, framed_all(chunks))->Running_0;
    lemma_run_last(r);
    crate::parser::lemma_run_append_pub(p, framed_all(chunks), last_chunk());
    let end = ParserView {
        state: State::EndChunkedBody,
        expected_chunk_size: 0,
        chunk_pos: 0,
        buf: Seq::empty(),
        ..r
    };
    assert(end == after_last_size(p, chunks));
}

} // verus!
