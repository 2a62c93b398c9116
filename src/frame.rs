//! Length-prefixed framing: a four-byte big-endian length, then the payload.

use tokio_util::codec::{Decoder, Encoder, LengthDelimitedCodec};
use vstd::prelude::*;
use vstd::slice::{slice_subrange, slice_to_vec};

verus! {

/// std's I/O error, carried opaquely: the codec's failures arrive as one.
#[verifier::external_type_specification]
#[verifier::external_body]
pub struct ExIoError(std::io::Error);

/// Bytes in a length header.
pub const HEADER_LEN: usize = 4;

/// The largest payload accepted when no other bound is configured.
pub const DEFAULT_MAX_FRAME_LEN: usize = 8 * 1024 * 1024;

/// The largest payload that a four-byte header can describe.
pub const LARGEST_HEADER_VALUE: usize = 0xffff_ffff;

/// The four header bytes that announce a payload of `n` bytes.
pub open spec fn length_header(n: u32) -> Seq<u8> {
    seq![(n >> 24u32) as u8, (n >> 16u32) as u8, (n >> 8u32) as u8, n as u8]
}

/// The length announced by the first four bytes of `b`.
pub open spec fn header_value(b: Seq<u8>) -> u32
    recommends
        b.len() >= 4,
{
    ((b[0] as u32) << 24u32) | ((b[1] as u32) << 16u32) | ((b[2] as u32) << 8u32) | (b[3] as u32)
}

/// The wire form of one message.
pub open spec fn frame_of(m: Seq<u8>) -> Seq<u8>
    recommends
        m.len() <= u32::MAX,
{
    length_header(m.len() as u32) + m
}

/// Splits as many whole frames as possible off the front of `s`. Returns the
/// payloads in order, the bytes left over, and whether the next header
/// announced more than `max` bytes (parsing stops there).
pub open spec fn parse_frames(max: nat, s: Seq<u8>) -> (Seq<Seq<u8>>, Seq<u8>, bool)
    decreases s.len(),
{
    if s.len() < 4 {
        (seq![], s, false)
    } else {
        let n = header_value(s) as int;
        if n > max {
            (seq![], s, true)
        } else if s.len() < 4 + n {
            (seq![], s, false)
        } else {
            let (f, r, e) = parse_frames(max, s.subrange(4 + n, s.len() as int));
            (seq![s.subrange(4, 4 + n)] + f, r, e)
        }
    }
}

/// The errors of framing.
#[derive(Debug, Clone, Copy, PartialEq, Eq, Structural)]
pub enum FrameError {
    /// A header announced, or a message held, more bytes than the limit.
    TooLarge,
    /// The stream ended inside a frame.
    Truncated,
}

/// Relies on `LengthDelimitedCodec`'s `Encoder<&[u8]>::encode` as built by
/// `builder().max_frame_length(max).new_codec()`: it refuses a message longer
/// than `max`, else writes its length as four big-endian bytes, then the message.
#[verifier::external_body]
fn codec_encode(max: usize, data: &[u8]) -> (r: Result<Vec<u8>, std::io::Error>)
    requires
        max <= LARGEST_HEADER_VALUE,
    ensures
        data@.len() > max ==> r is Err,
        data@.len() <= max ==> r is Ok && r->Ok_0@ == frame_of(data@),
{
    let mut codec = LengthDelimitedCodec::builder().max_frame_length(max).new_codec();
    let mut dst = bytes::BytesMut::new();
    codec.encode(data, &mut dst).map(|()| dst.to_vec())
}

/// Relies on `LengthDelimitedCodec`'s `Decoder::decode` on a fresh codec built
/// by `builder().max_frame_length(max).new_codec()`: under four bytes it waits;
/// a header above `max` is an error; it waits until the whole payload is there,
/// then returns the payload.
#[verifier::external_body]
fn codec_decode(max: usize, buf: &[u8]) -> (r: Result<Option<Vec<u8>>, std::io::Error>)
    requires
        max <= LARGEST_HEADER_VALUE,
    ensures
        buf@.len() < 4 ==> r is Ok && r->Ok_0 is None,
        buf@.len() >= 4 && header_value(buf@) > max ==> r is Err,
        buf@.len() >= 4 && header_value(buf@) <= max && buf@.len() < 4 + header_value(buf@)
            ==> r is Ok && r->Ok_0 is None,
        buf@.len() >= 4 && header_value(buf@) <= max && buf@.len() >= 4 + header_value(buf@)
            ==> r is Ok && r->Ok_0 is Some && r->Ok_0->Some_0@ == buf@.subrange(
            4,
            4 + header_value(buf@),
        ),
{
    let mut codec = LengthDelimitedCodec::builder().max_frame_length(max).new_codec();
    let mut src = bytes::BytesMut::from(buf);
    codec.decode(&mut src).map(|o| o.map(|b| b.to_vec()))
}

/// The views of a list of byte vectors.
pub open spec fn payloads(v: Seq<Vec<u8>>) -> Seq<Seq<u8>> {
    v.map_values(|x: Vec<u8>| x@)
}

/// What a whole stream, read until the transport closed, decodes to.
pub open spec fn decode_stream_spec(max: nat, s: Seq<u8>) -> Result<Seq<Seq<u8>>, FrameError> {
    let (f, r, e) = parse_frames(max, s);
    if e {
        Err(FrameError::TooLarge)
    } else if r.len() > 0 {
        Err(FrameError::Truncated)
    } else {
        Ok(f)
    }
}

proof fn lemma_header_round_trip(n: u32)
    ensures
        header_value(length_header(n)) == n,
{
    assert((((((n >> 24u32) as u8) as u32) << 24u32) | ((((n >> 16u32) as u8) as u32) << 16u32)
        | ((((n >> 8u32) as u8) as u32) << 8u32) | ((n as u8) as u32)) == n) by (bit_vector);
}

/// A frame followed by any bytes decodes to its message, followed by what
/// those bytes decode to.
pub proof fn lemma_frame_then_rest(max: nat, m: Seq<u8>, rest: Seq<u8>)
    requires
        m.len() <= max,
        max <= u32::MAX,
    ensures
        ({
            let (f, r, e) = parse_frames(max, rest);
            parse_frames(max, frame_of(m) + rest) == (seq![m] + f, r, e)
        }),
{
    let n = m.len() as u32;
    let s = frame_of(m) + rest;
    lemma_header_round_trip(n);
    assert(s.subrange(0, 4) =~= length_header(n));
    assert(header_value(s) == header_value(length_header(n)));
    assert(s.subrange(4, 4 + n) =~= m);
    assert(s.subrange(4 + n, s.len() as int) =~= rest);
}

/// Encoding a message and decoding the bytes gives back exactly that message,
/// with nothing left over, for every message within the limit.
pub proof fn lemma_frame_round_trip(max: nat, m: Seq<u8>)
    requires
        m.len() <= max,
        max <= u32::MAX,
    ensures
        parse_frames(max, frame_of(m)) == (seq![m], Seq::<u8>::empty(), false),
        decode_stream_spec(max, frame_of(m)) == Ok::<Seq<Seq<u8>>, FrameError>(seq![m]),
{
    lemma_frame_then_rest(max, m, Seq::<u8>::empty());
    assert(frame_of(m) + Seq::<u8>::empty() =~= frame_of(m));
    assert(seq![m] + Seq::<Seq<u8>>::empty() =~= seq![m]);
}

/// A length-prefixed codec with a bound on the payload length.
pub struct FrameCodec {
    max_frame_len: usize,
}

impl FrameCodec {
    /// The bound on a payload's length.
    pub closed spec fn max(&self) -> nat {
        self.max_frame_len as nat
    }

    pub closed spec fn wf(&self) -> bool {
        self.max_frame_len <= LARGEST_HEADER_VALUE
    }

    /// A codec with the default bound.
    pub fn new() -> (r: FrameCodec)
        ensures
            r.wf(),
            r.max() == DEFAULT_MAX_FRAME_LEN,
    {
        FrameCodec { max_frame_len: DEFAULT_MAX_FRAME_LEN }
    }

    /// A codec with the bound `max`, lowered to what a header can hold.
    pub fn with_max_frame_len(max: usize) -> (r: FrameCodec)
        ensures
            r.wf(),
            r.max() == if max <= LARGEST_HEADER_VALUE { max } else { LARGEST_HEADER_VALUE },
    {
        if max <= LARGEST_HEADER_VALUE {
            FrameCodec { max_frame_len: max }
        } else {
            FrameCodec { max_frame_len: LARGEST_HEADER_VALUE }
        }
    }

    pub fn max_frame_len(&self) -> (r: usize)
        ensures
            r == self.max(),
    {
        self.max_frame_len
    }

    /// The wire form of `msg`: its length header, then its bytes.
    pub fn encode(&self, msg: &[u8]) -> (r: Result<Vec<u8>, FrameError>)
        requires
            self.wf(),
        ensures
            msg@.len() <= self.max() <==> r is Ok,
            r is Ok ==> r->Ok_0@ == frame_of(msg@),
            r is Err ==> r->Err_0 == FrameError::TooLarge,
    {
        match codec_encode(self.max_frame_len, msg) {
            Ok(v) => Ok(v),
            Err(_) => Err(FrameError::TooLarge),
        }
    }

    /// Splits the whole frames off the front of `buf`: the payloads in order,
    /// the bytes that do not yet form a frame, and whether parsing stopped at
    /// a header over the bound.
    pub fn split_frames(&self, buf: &[u8]) -> (r: (Vec<Vec<u8>>, Vec<u8>, bool))
        requires
            self.wf(),
        ensures
            (payloads(r.0@), r.1@, r.2) == parse_frames(self.max(), buf@),
    {
        let mut frames: Vec<Vec<u8>> = Vec::new();
        let mut pos: usize = 0;
        proof {
            assert(buf@.subrange(0, buf@.len() as int) =~= buf@);
            let (f, r, e) = parse_frames(self.max(), buf@);
            assert(payloads(frames@) + f =~= f);
        }
        loop
            invariant
                self.wf(),
                pos <= buf@.len(),
                ({
                    let (f, r, e) = parse_frames(self.max(), buf@.subrange(pos as int, buf@.len() as int));
                    parse_frames(self.max(), buf@) == (payloads(frames@) + f, r, e)
                }),
            decreases buf@.len() - pos,
        {
            let rest = slice_subrange(buf, pos, buf.len());
            let ghost old_frames = frames@;
            match codec_decode(self.max_frame_len, rest) {
                Err(_) => {
                    assert(payloads(frames@) + Seq::<Seq<u8>>::empty() =~= payloads(frames@));
                    return (frames, slice_to_vec(rest), true);
                },
                Ok(None) => {
                    assert(payloads(frames@) + Seq::<Seq<u8>>::empty() =~= payloads(frames@));
                    return (frames, slice_to_vec(rest), false);
                },
                Ok(Some(p)) => {
                    let ghost n = header_value(rest@) as int;
                    assert(rest@.subrange(4 + n, rest@.len() as int) =~= buf@.subrange(
                        pos + 4 + n,
                        buf@.len() as int,
                    ));
                    pos = pos + HEADER_LEN + p.len();
                    frames.push(p);
                    assert(payloads(frames@) =~= payloads(old_frames) + seq![p@]);
                    let ghost (f, r, e) = parse_frames(self.max(), buf@.subrange(pos as int, buf@.len() as int));
                    assert(payloads(old_frames) + (seq![p@] + f) =~= payloads(frames@) + f);
                },
            }
        }
    }

    /// Decodes a whole stream, read until the transport closed. Bytes left
    /// inside an unfinished frame mean the stream was cut short.
    pub fn decode_stream(&self, buf: &[u8]) -> (r: Result<Vec<Vec<u8>>, FrameError>)
        requires
            self.wf(),
        ensures
            match r {
                Ok(v) => decode_stream_spec(self.max(), buf@) == Ok::<Seq<Seq<u8>>, FrameError>(payloads(v@)),
                Err(e) => decode_stream_spec(self.max(), buf@) == Err::<Seq<Seq<u8>>, FrameError>(e),
            },
    {
        let (frames, rest, too_large) = self.split_frames(buf);
        if too_large {
            Err(FrameError::TooLarge)
        } else if rest.len() > 0 {
            Err(FrameError::Truncated)
        } else {
            Ok(frames)
        }
    }
}

} // verus!
