//! Chunked transfer coding.
//!
//! [`copy_chunked`] streams a body source to a sink as HTTP chunked
//! transfer coding: every non-empty slice read from the source becomes one
//! chunk (hexadecimal size, CRLF, the bytes, CRLF), and the terminating
//! sequence `0\r\n\r\n` is written once at the end.  Nothing is buffered,
//! coalesced or split.
//!
//! The coding is specified by its decoder, [`decode_chunked`], and the
//! encoder's contract is the round trip: whatever chunk sizes the source
//! hands out, decoding the emitted bytes recovers exactly the body.

use vstd::prelude::*;

use crate::numfmt::{hex_bytes, hex_value, is_hex_digit, lemma_spec_hex_value, spec_hex};
use crate::stream::{BodySource, Sink};

verus! {

broadcast use vstd::seq_lib::group_seq_properties;

/// The two-byte line terminator `\r\n`.
pub open spec fn crlf() -> Seq<u8> {
    seq![13u8, 10u8]
}

/// One encoded chunk: the hexadecimal size, CRLF, the data, CRLF.
pub open spec fn chunk_frame(data: Seq<u8>) -> Seq<u8> {
    spec_hex(data.len()) + crlf() + data + crlf()
}

/// The terminating sequence: a zero-sized chunk and the final empty line,
/// `0\r\n\r\n`.
pub open spec fn chunk_terminator() -> Seq<u8> {
    seq![48u8, 13u8, 10u8, 13u8, 10u8]
}

/// The number of leading hexadecimal digits of `s`.
pub open spec fn hex_prefix_len(s: Seq<u8>) -> nat
    decreases s.len(),
{
    if s.len() == 0 || !is_hex_digit(s[0]) {
        0
    } else {
        (1 + hex_prefix_len(s.drop_first())) as nat
    }
}

/// Decodes a complete chunked-coded stream: a sequence of non-empty
/// chunks, closed by exactly one terminating sequence, with no trailers
/// and nothing after it.  Returns the body, or `None` if `s` is not a
/// well-formed coding.
pub open spec fn decode_chunked(s: Seq<u8>) -> Option<Seq<u8>>
    decreases s.len(),
{
    let k = hex_prefix_len(s) as int;
    if k == 0 {
        None
    } else if s.len() < k + 2 || s[k] != 13 || s[k + 1] != 10 {
        None
    } else {
        let n = hex_value(s.take(k)) as int;
        if n == 0 {
            if s.len() == k + 4 && s[k + 2] == 13 && s[k + 3] == 10 {
                Some(Seq::<u8>::empty())
            } else {
                None
            }
        } else if s.len() < k + 2 + n + 2 {
            None
        } else if s[k + 2 + n] != 13 || s[k + 2 + n + 1] != 10 {
            None
        } else {
            match decode_chunked(s.skip(k + 2 + n + 2)) {
                Some(rest) => Some(s.subrange(k + 2, k + 2 + n) + rest),
                None => None,
            }
        }
    }
}

/// A hexadecimal-digit prefix followed by a non-digit scans to exactly its
/// own length.
proof fn lemma_hex_prefix_of(digits: Seq<u8>, tail: Seq<u8>)
    requires
        forall|i: int| 0 <= i < digits.len() ==> is_hex_digit(#[trigger] digits[i]),
        tail.len() > 0,
        !is_hex_digit(tail[0]),
    ensures
        hex_prefix_len(digits + tail) == digits.len(),
    decreases digits.len(),
{
    let s = digits + tail;
    if digits.len() == 0 {
        assert(s =~= tail);
    } else {
        assert(s[0] == digits[0]);
        lemma_hex_prefix_of(digits.drop_first(), tail);
        assert(s.drop_first() =~= digits.drop_first() + tail);
    }
}

/// Prepending one well-formed non-empty chunk to a stream prepends its
/// data to whatever the stream decodes to.
proof fn lemma_frame_step(data: Seq<u8>, rest: Seq<u8>)
    requires
        data.len() >= 1,
    ensures
        decode_chunked(chunk_frame(data) + rest) == match decode_chunked(rest) {
            Some(b) => Some(data + b),
            None => None::<Seq<u8>>,
        },
{
    let hx = spec_hex(data.len());
    lemma_spec_hex_value(data.len());
    let k = hx.len() as int;
    let s = chunk_frame(data) + rest;
    let tail = crlf() + data + crlf() + rest;
    assert(s =~= hx + tail);
    assert(tail[0] == 13);
    assert(!is_hex_digit(13u8));
    lemma_hex_prefix_of(hx, tail);
    assert(hex_prefix_len(s) == k);
    assert(s.take(k) =~= hx);
    let n = data.len() as int;
    assert(hex_value(s.take(k)) == n);
    assert(s.len() == k + 2 + n + 2 + rest.len());
    assert(s[k] == tail[0]);
    assert(s[k + 1] == tail[1]);
    assert(tail[1] == 10);
    assert(s[k + 2 + n] == tail[2 + n]);
    assert((crlf() + data + crlf())[2 + n] == 13);
    assert(s[k + 2 + n + 1] == tail[2 + n + 1]);
    assert((crlf() + data + crlf())[2 + n + 1] == 10);
    assert(s.subrange(k + 2, k + 2 + n) =~= data);
    assert(s.skip(k + 2 + n + 2) =~= rest);
}

/// The terminating sequence alone decodes to the empty body.
proof fn lemma_terminator_decodes()
    ensures
        decode_chunked(chunk_terminator()) == Some(Seq::<u8>::empty()),
{
    let s = chunk_terminator();
    assert(is_hex_digit(48u8));
    assert(!is_hex_digit(13u8));
    assert(s.drop_first() =~= seq![13u8, 10u8, 13u8, 10u8]);
    assert(hex_prefix_len(s.drop_first()) == 0);
    assert(hex_prefix_len(s) == 1);
    assert(s.take(1) =~= seq![48u8]);
    assert(seq![48u8].drop_last() =~= Seq::<u8>::empty());
    assert(hex_value(Seq::<u8>::empty()) == 0);
    assert(hex_value(s.take(1)) == 0);
    assert(s.len() == 5 && s[1] == 13 && s[2] == 10 && s[3] == 13 && s[4] == 10);
}

/// That `enc` is a chunked-coding prefix carrying exactly `data`: whatever
/// completes the stream, `enc` contributes `data` to the front of the
/// decoded body.
#[verifier::opaque]
pub open spec fn encodes_prefix(enc: Seq<u8>, data: Seq<u8>) -> bool {
    forall|rest: Seq<u8>|
        #[trigger] decode_chunked(enc + rest) == match decode_chunked(rest) {
            Some(b) => Some(data + b),
            None => None::<Seq<u8>>,
        }
}

proof fn lemma_encodes_prefix_empty()
    ensures
        encodes_prefix(Seq::<u8>::empty(), Seq::<u8>::empty()),
{
    reveal(encodes_prefix);
    assert forall|rest: Seq<u8>|
        #[trigger] decode_chunked(Seq::<u8>::empty() + rest) == match decode_chunked(rest) {
            Some(b) => Some(Seq::<u8>::empty() + b),
            None => None::<Seq<u8>>,
        } by {
        assert(Seq::<u8>::empty() + rest =~= rest);
        match decode_chunked(rest) {
            Some(b) => {
                assert(Seq::<u8>::empty() + b =~= b);
            },
            None => {},
        }
    }
}

#[verifier::rlimit(50)]
proof fn lemma_encodes_prefix_extend(enc: Seq<u8>, data: Seq<u8>, chunk: Seq<u8>)
    requires
        encodes_prefix(enc, data),
        chunk.len() >= 1,
    ensures
        encodes_prefix(enc + chunk_frame(chunk), data + chunk),
{
    reveal(encodes_prefix);
    let enc2 = enc + chunk_frame(chunk);
    assert forall|rest: Seq<u8>|
        #[trigger] decode_chunked(enc2 + rest) == match decode_chunked(rest) {
            Some(b) => Some((data + chunk) + b),
            None => None::<Seq<u8>>,
        } by {
        lemma_frame_step(chunk, rest);
        assert(enc2 + rest =~= enc + (chunk_frame(chunk) + rest));
        assert(decode_chunked(enc + (chunk_frame(chunk) + rest)) == match decode_chunked(
            chunk_frame(chunk) + rest,
        ) {
            Some(b) => Some(data + b),
            None => None::<Seq<u8>>,
        });
        match decode_chunked(rest) {
            Some(b) => {
                assert(data + (chunk + b) =~= (data + chunk) + b);
            },
            None => {},
        }
    }
}

/// A chunked-coding prefix closed by the terminating sequence decodes to
/// exactly the data it carries.
proof fn lemma_encodes_prefix_close(enc: Seq<u8>, data: Seq<u8>)
    requires
        encodes_prefix(enc, data),
    ensures
        decode_chunked(enc + chunk_terminator()) == Some(data),
{
    reveal(encodes_prefix);
    lemma_terminator_decodes();
    assert(decode_chunked(enc + chunk_terminator()) == Some(data + Seq::<u8>::empty()));
    assert(data + Seq::<u8>::empty() =~= data);
}

/// Writes one chunk: the hexadecimal size, CRLF, the data, CRLF.
/// A write of an empty slice would be the terminating sequence, so the
/// caller keeps those out.
fn write_chunk<W: Sink>(dst: &mut W, data: &[u8]) -> (r: Result<(), ()>)
    requires
        data@.len() >= 1,
    ensures
        r is Ok ==> final(dst).out() == old(dst).out() + chunk_frame(data@),
        r is Err ==> !old(dst).infallible(),
        final(dst).infallible() == old(dst).infallible(),
{
    let size = hex_bytes(data.len());
    let mut line: Vec<u8> = size;
    line.push(13);
    line.push(10);
    match dst.write_all(line.as_slice()) {
        Ok(()) => {},
        Err(()) => {
            return Err(());
        },
    }
    match dst.write_all(data) {
        Ok(()) => {},
        Err(()) => {
            return Err(());
        },
    }
    let mut end: Vec<u8> = Vec::new();
    end.push(13);
    end.push(10);
    match dst.write_all(end.as_slice()) {
        Ok(()) => {},
        Err(()) => {
            return Err(());
        },
    }
    proof {
        assert(line@ =~= spec_hex(data@.len()) + crlf());
        assert(end@ =~= crlf());
        assert(old(dst).out() + line@ + data@ + end@ =~= old(dst).out() + chunk_frame(data@));
    }
    Ok(())
}

/// Writes the terminating sequence `0\r\n\r\n`.
fn write_terminator<W: Sink>(dst: &mut W) -> (r: Result<(), ()>)
    ensures
        r is Ok ==> final(dst).out() == old(dst).out() + chunk_terminator(),
        r is Err ==> !old(dst).infallible(),
        final(dst).infallible() == old(dst).infallible(),
{
    let mut t: Vec<u8> = Vec::new();
    t.push(48);
    t.push(13);
    t.push(10);
    t.push(13);
    t.push(10);
    proof {
        assert(t@ =~= chunk_terminator());
    }
    dst.write_all(t.as_slice())
}

/// Streams the whole of `src` to `dst` under chunked transfer coding.
///
/// On success the bytes appended to the sink are a complete chunked
/// coding — non-empty chunks as the source handed them out, closed by the
/// terminating sequence exactly once — and decoding them per the chunked
/// grammar recovers exactly the body the source held.
pub fn copy_chunked<R: BodySource, W: Sink>(src: &mut R, dst: &mut W) -> (r: Result<(), ()>)
    ensures
        r is Ok ==> exists|enc: Seq<u8>|
            final(dst).out() == old(dst).out() + enc && #[trigger] decode_chunked(enc) == Some(
                old(src).remaining(),
            ),
        r is Err ==> !old(dst).infallible(),
        final(dst).infallible() == old(dst).infallible(),
{
    let ghost mut enc: Seq<u8> = Seq::<u8>::empty();
    let ghost mut consumed: Seq<u8> = Seq::<u8>::empty();
    proof {
        lemma_encodes_prefix_empty();
        assert(old(dst).out() + enc =~= old(dst).out());
    }
    loop
        invariant
            dst.out() == old(dst).out() + enc,
            dst.infallible() == old(dst).infallible(),
            old(src).remaining() == consumed + src.remaining(),
            encodes_prefix(enc, consumed),
        decreases src.remaining().len(),
    {
        let buf = src.read_some(4096);
        if buf.len() == 0 {
            match write_terminator(dst) {
                Ok(()) => {},
                Err(()) => {
                    return Err(());
                },
            }
            proof {
                lemma_encodes_prefix_close(enc, consumed);
                assert(consumed + src.remaining() =~= consumed);
                assert(old(dst).out() + enc + chunk_terminator() =~= old(dst).out() + (enc
                    + chunk_terminator()));
                assert(decode_chunked(enc + chunk_terminator()) == Some(old(src).remaining()));
            }
            return Ok(());
        }
        match write_chunk(dst, buf.as_slice()) {
            Ok(()) => {},
            Err(()) => {
                return Err(());
            },
        }
        proof {
            lemma_encodes_prefix_extend(enc, consumed, buf@);
            assert(old(dst).out() + enc + chunk_frame(buf@) =~= old(dst).out() + (enc + chunk_frame(
                buf@,
            )));
        }
        proof {
            enc = enc + chunk_frame(buf@);
            consumed = consumed + buf@;
            assert(old(src).remaining() =~= consumed + src.remaining());
        }
    }
}

} // verus!
