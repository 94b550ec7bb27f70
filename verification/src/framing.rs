//! The three inner framings that delimit messages inside the relayed stream.
//!
//! * abridged: one length byte counting 4-byte words, or `0x7f` followed by a
//!   3-byte little-endian word count;
//! * intermediate: a 4-byte little-endian byte count;
//! * padded intermediate: as intermediate, where the count also covers up to
//!   three trailing padding bytes; payloads are word-aligned, so the padding
//!   length is the count's remainder modulo 4.
//!
//! In every variant the top bit of the length prefix is the quick-ack flag.

use vstd::prelude::*;
use crate::buffer::copy_range;

verus! {

/// Largest payload, in bytes, that a frame may carry.
pub const MAX_FRAME_LEN: usize = 0x100_0000;

/// Inner framing variant.
#[derive(Clone, Copy, Debug, PartialEq, Eq, Structural)]
pub enum Framing {
    Abridged,
    Intermediate,
    PaddedIntermediate,
}

/// Why a frame cannot be encoded or decoded.
#[derive(Clone, Copy, Debug, PartialEq, Eq, Structural)]
pub enum FrameError {
    /// The payload is longer than `MAX_FRAME_LEN`.
    TooLong,
    /// The framing needs a payload of whole 4-byte words.
    Unaligned,
    /// The framing takes no padding, or less than was given.
    BadPadding,
}

/// One message of the relayed stream.
#[derive(Debug)]
pub struct Frame {
    pub quick_ack: bool,
    pub payload: Vec<u8>,
}

/// What a byte sequence holds at its front, as a mathematical value.
pub enum Parsed {
    /// The prefix or the body is not complete yet.
    Incomplete,
    /// The prefix announces a payload above `MAX_FRAME_LEN`.
    TooLong,
    /// A whole frame, taking up the first `consumed` bytes.
    Frame { quick_ack: bool, payload: Seq<u8>, consumed: nat },
}

/// The three low bytes of `v`, least significant first.
pub open spec fn le3(v: nat) -> Seq<u8> {
    seq![(v % 256) as u8, ((v / 256) % 256) as u8, ((v / 65536) % 256) as u8]
}

/// The four low bytes of `v`, least significant first.
pub open spec fn le4(v: nat) -> Seq<u8> {
    seq![
        (v % 256) as u8,
        ((v / 256) % 256) as u8,
        ((v / 65536) % 256) as u8,
        ((v / 16777216) % 256) as u8,
    ]
}

/// The number that the bytes `s[at..at + 3]` spell, least significant first.
pub open spec fn le3_value(s: Seq<u8>, at: int) -> nat {
    (s[at] as nat) + 256 * (s[at + 1] as nat) + 65536 * (s[at + 2] as nat)
}

/// The number that the bytes `s[at..at + 4]` spell, least significant first.
pub open spec fn le4_value(s: Seq<u8>, at: int) -> nat {
    (s[at] as nat) + 256 * (s[at + 1] as nat) + 65536 * (s[at + 2] as nat) + 16777216 * (
    s[at + 3] as nat)
}

/// The weight of the quick-ack flag in a prefix whose top bit is worth `unit`.
pub open spec fn ack_bit(quick_ack: bool, unit: nat) -> nat {
    if quick_ack {
        unit
    } else {
        0
    }
}

/// The reason, if any, for which a payload and padding of these lengths
/// cannot be framed.
pub open spec fn encode_refusal(framing: Framing, payload_len: nat, padding_len: nat) -> Option<
    FrameError,
> {
    if payload_len > MAX_FRAME_LEN {
        Some(FrameError::TooLong)
    } else if framing != Framing::Intermediate && payload_len % 4 != 0 {
        Some(FrameError::Unaligned)
    } else if padding_len > 3 || (framing != Framing::PaddedIntermediate && padding_len > 0) {
        Some(FrameError::BadPadding)
    } else {
        None
    }
}

/// The length prefix of a frame whose payload and padding take `total` bytes.
pub open spec fn frame_prefix(framing: Framing, quick_ack: bool, total: nat) -> Seq<u8> {
    match framing {
        Framing::Abridged => if total / 4 < 0x7f {
            seq![(total / 4 + ack_bit(quick_ack, 0x80)) as u8]
        } else {
            seq![(0x7f + ack_bit(quick_ack, 0x80)) as u8] + le3(total / 4)
        },
        _ => le4(total + ack_bit(quick_ack, 0x8000_0000)),
    }
}

/// The bytes of one frame: prefix, payload, padding.
pub open spec fn encoded_frame(
    framing: Framing,
    quick_ack: bool,
    payload: Seq<u8>,
    padding: Seq<u8>,
) -> Seq<u8> {
    frame_prefix(framing, quick_ack, payload.len() + padding.len()) + payload + padding
}

/// How many bytes the length prefix at the front of `input` takes.
pub open spec fn prefix_width(framing: Framing, input: Seq<u8>) -> nat {
    match framing {
        Framing::Abridged => if input.len() > 0 && input[0] % 128 == 0x7f {
            4
        } else {
            1
        },
        _ => 4,
    }
}

/// The byte count, payload and padding together, that a complete prefix at
/// the front of `input` announces.
pub open spec fn announced_total(framing: Framing, input: Seq<u8>) -> nat {
    match framing {
        Framing::Abridged => if input[0] % 128 == 0x7f {
            4 * le3_value(input, 1)
        } else {
            4 * ((input[0] % 128) as nat)
        },
        _ => le4_value(input, 0) % 0x8000_0000,
    }
}

/// The quick-ack flag of a complete prefix at the front of `input`.
pub open spec fn announced_ack(framing: Framing, input: Seq<u8>) -> bool {
    match framing {
        Framing::Abridged => input[0] >= 0x80,
        _ => le4_value(input, 0) >= 0x8000_0000,
    }
}

/// The part of an announced byte count that is payload.
pub open spec fn payload_part(framing: Framing, total: nat) -> nat {
    match framing {
        Framing::PaddedIntermediate => (total - total % 4) as nat,
        _ => total,
    }
}

/// What stands at the front of `input` under `framing`.
pub open spec fn parse_frame(framing: Framing, input: Seq<u8>) -> Parsed {
    let width = prefix_width(framing, input);
    if input.len() < width {
        Parsed::Incomplete
    } else {
        let total = announced_total(framing, input);
        let body = payload_part(framing, total);
        if body > MAX_FRAME_LEN {
            Parsed::TooLong
        } else if input.len() < width + total {
            Parsed::Incomplete
        } else {
            Parsed::Frame {
                quick_ack: announced_ack(framing, input),
                payload: input.subrange(width as int, (width + body) as int),
                consumed: width + total,
            }
        }
    }
}

/// Appends the four low bytes of `v`, least significant first.
fn push_le4(out: &mut Vec<u8>, v: u64)
    ensures
        final(out)@ == old(out)@ + le4(v as nat),
{
    out.push((v % 256) as u8);
    out.push(((v / 256) % 256) as u8);
    out.push(((v / 65536) % 256) as u8);
    out.push(((v / 16777216) % 256) as u8);
    assert(out@ =~= old(out)@ + le4(v as nat));
}

/// Frames `payload` under `framing`, followed by `padding`.
///
/// Only the padded intermediate framing takes padding, at most three bytes of
/// it; it and the abridged framing carry whole 4-byte words only.
pub fn encode_frame(framing: Framing, quick_ack: bool, payload: &[u8], padding: &[u8]) -> (r:
    Result<Vec<u8>, FrameError>)
    ensures
        match encode_refusal(framing, payload@.len(), padding@.len()) {
            Some(e) => r == Err::<Vec<u8>, FrameError>(e),
            None => r matches Ok(bytes) && bytes@ == encoded_frame(
                framing,
                quick_ack,
                payload@,
                padding@,
            ),
        },
{
    let aligned = payload.len() % 4 == 0;
    if payload.len() > MAX_FRAME_LEN {
        return Err(FrameError::TooLong);
    }
    let mut out: Vec<u8> = Vec::new();
    match framing {
        Framing::Abridged => {
            if !aligned {
                return Err(FrameError::Unaligned);
            }
            if padding.len() > 0 {
                return Err(FrameError::BadPadding);
            }
            let words: usize = payload.len() / 4;
            let flag: u8 = if quick_ack {
                0x80
            } else {
                0
            };
            if words < 0x7f {
                out.push(words as u8 + flag);
            } else {
                out.push(0x7f + flag);
                out.push((words % 256) as u8);
                out.push(((words / 256) % 256) as u8);
                out.push(((words / 65536) % 256) as u8);
            }
            assert(out@ =~= frame_prefix(framing, quick_ack, payload@.len() + padding@.len()));
        },
        Framing::Intermediate | Framing::PaddedIntermediate => {
            if framing == Framing::PaddedIntermediate && !aligned {
                return Err(FrameError::Unaligned);
            }
            if padding.len() > 3 || (framing == Framing::Intermediate && padding.len() > 0) {
                return Err(FrameError::BadPadding);
            }
            let flag: u64 = if quick_ack {
                0x8000_0000
            } else {
                0
            };
            let total: u64 = payload.len() as u64 + padding.len() as u64;
            push_le4(&mut out, total + flag);
            assert(out@ =~= frame_prefix(framing, quick_ack, payload@.len() + padding@.len()));
        },
    }
    out.extend_from_slice(payload);
    out.extend_from_slice(padding);
    Ok(out)
}

/// Reads the number that `input[at..at + 4]` spells, least significant first.
fn read_le4(input: &[u8], at: usize) -> (v: u64)
    requires
        at + 4 <= input@.len(),
    ensures
        v == le4_value(input@, at as int),
{
    input[at] as u64 + 256 * (input[at + 1] as u64) + 65536 * (input[at + 2] as u64) + 16777216 * (
    input[at + 3] as u64)
}

/// Takes one frame off the front of `input`.
///
/// `Ok(None)` asks for more bytes: nothing has been decided against the
/// stream. `Ok(Some((frame, n)))` hands out the frame that the first `n`
/// bytes hold; what follows them belongs to the next frame.
pub fn decode_frame(framing: Framing, input: &[u8]) -> (r: Result<Option<(Frame, usize)>, FrameError>)
    ensures
        match parse_frame(framing, input@) {
            Parsed::Incomplete => r matches Ok(None),
            Parsed::TooLong => r matches Err(FrameError::TooLong),
            Parsed::Frame { quick_ack, payload, consumed } => r matches Ok(Some((frame, n)))
                && frame.quick_ack == quick_ack && frame.payload@ == payload && n == consumed,
        },
{
    let width: usize = match framing {
        Framing::Abridged => if input.len() > 0 && input[0] % 128 == 0x7f {
            4
        } else {
            1
        },
        _ => 4,
    };
    if input.len() < width {
        return Ok(None);
    }
    let (quick_ack, total): (bool, u64) = match framing {
        Framing::Abridged => {
            let words: u64 = if input[0] % 128 == 0x7f {
                input[1] as u64 + 256 * (input[2] as u64) + 65536 * (input[3] as u64)
            } else {
                (input[0] % 128) as u64
            };
            (input[0] >= 0x80, 4 * words)
        },
        _ => {
            let word = read_le4(input, 0);
            (word >= 0x8000_0000, word % 0x8000_0000)
        },
    };
    let body: u64 = match framing {
        Framing::PaddedIntermediate => total - total % 4,
        _ => total,
    };
    if body > MAX_FRAME_LEN as u64 {
        return Err(FrameError::TooLong);
    }
    if (input.len() as u64) < width as u64 + total {
        return Ok(None);
    }
    let payload = copy_range(input, width, width + body as usize);
    Ok(Some((Frame { quick_ack, payload }, width + total as usize)))
}

/// A 4-byte prefix spells the number it was made from.
proof fn lemma_le4_value(v: nat, input: Seq<u8>)
    requires
        v < 0x1_0000_0000,
        input.len() >= 4,
        input.subrange(0, 4) == le4(v),
    ensures
        le4_value(input, 0) == v,
{
    let p = le4(v);
    assert(input[0] == input.subrange(0, 4)[0] && input[1] == input.subrange(0, 4)[1]);
    assert(input[2] == input.subrange(0, 4)[2] && input[3] == input.subrange(0, 4)[3]);
    assert(p[0] == v % 256 && p[1] == (v / 256) % 256 && p[2] == (v / 65536) % 256);
    assert(p[3] == (v / 16777216) % 256);
}

/// The three bytes behind an abridged escape byte spell the word count.
proof fn lemma_le3_value(v: nat, input: Seq<u8>)
    requires
        v < 0x100_0000,
        input.len() >= 4,
        input.subrange(1, 4) == le3(v),
    ensures
        le3_value(input, 1) == v,
{
    let p = le3(v);
    assert(input[1] == input.subrange(1, 4)[0] && input[2] == input.subrange(1, 4)[1]);
    assert(input[3] == input.subrange(1, 4)[2]);
    assert(p[0] == v % 256 && p[1] == (v / 256) % 256 && p[2] == (v / 65536) % 256);
}

/// What the decoder reads off the prefix of an encoded frame.
proof fn lemma_prefix_read_back(framing: Framing, quick_ack: bool, total: nat, input: Seq<u8>)
    requires
        total <= MAX_FRAME_LEN + 3,
        framing == Framing::Abridged ==> total % 4 == 0,
        input.len() >= frame_prefix(framing, quick_ack, total).len(),
        input.subrange(0, frame_prefix(framing, quick_ack, total).len() as int) == frame_prefix(
            framing,
            quick_ack,
            total,
        ),
    ensures
        prefix_width(framing, input) == frame_prefix(framing, quick_ack, total).len(),
        announced_total(framing, input) == total,
        announced_ack(framing, input) == quick_ack,
{
    let prefix = frame_prefix(framing, quick_ack, total);
    let flag = ack_bit(quick_ack, 0x80);
    match framing {
        Framing::Abridged => {
            assert(input[0] == input.subrange(0, prefix.len() as int)[0]);
            if total / 4 < 0x7f {
                assert(prefix[0] == total / 4 + flag);
            } else {
                assert(prefix[0] == 0x7f + flag);
                assert(prefix.len() == 4);
                assert(input.subrange(1, 4) =~= input.subrange(0, 4).subrange(1, 4));
                assert(prefix.subrange(1, 4) =~= le3(total / 4));
                lemma_le3_value(total / 4, input);
            }
        },
        _ => {
            lemma_le4_value(total + ack_bit(quick_ack, 0x8000_0000), input);
        },
    }
}

/// Decoding undoes encoding: whatever follows an encoded frame in the
/// stream, the decoder hands back the flag and the payload that went in and
/// stops exactly where the frame ends. This holds for every framing and for
/// every payload and padding that the framing accepts.
pub proof fn lemma_decode_inverts_encode(
    framing: Framing,
    quick_ack: bool,
    payload: Seq<u8>,
    padding: Seq<u8>,
    rest: Seq<u8>,
)
    requires
        encode_refusal(framing, payload.len(), padding.len()) is None,
    ensures
        parse_frame(framing, encoded_frame(framing, quick_ack, payload, padding) + rest)
            == (Parsed::Frame {
            quick_ack,
            payload,
            consumed: encoded_frame(framing, quick_ack, payload, padding).len(),
        }),
{
    let total = payload.len() + padding.len();
    let prefix = frame_prefix(framing, quick_ack, total);
    let input = encoded_frame(framing, quick_ack, payload, padding) + rest;
    let width = prefix.len();
    assert(input.subrange(0, width as int) =~= prefix);
    lemma_prefix_read_back(framing, quick_ack, total, input);
    assert(payload_part(framing, total) == payload.len());
    assert(input.subrange(width as int, (width + payload.len()) as int) =~= payload);
}

} // verus!
