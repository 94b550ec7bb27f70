//! The obfuscation envelope: the fixed-size block that opens a connection,
//! carries the nonce and names, under the cipher that the nonce keys, the
//! inner framing and the datacenter.
//!
//! Layout of the 64 bytes: 8 bytes of filler, the 48-byte nonce, and then,
//! readable only after decryption, 4 bytes of framing marker, the datacenter
//! selector as a 2-byte little-endian signed number and 2 more bytes of
//! filler.
//!
//! In disguise mode the envelope is preceded by a preamble that makes the
//! connection look like another protocol: the configured tag, a 2-byte
//! big-endian length and that many bytes, which are skipped unread.

use vstd::prelude::*;
use crate::codec::{
    advance, apply, backward_state, derive_backend_keys, derive_keys, forward_state, keystream,
    CipherModel, CipherState,
};
use crate::error::ProxyError;
use crate::buffer::copy_range;
use crate::framing::Framing;

verus! {

/// Length of the envelope.
pub const ENVELOPE_LEN: usize = 64;

/// Where the nonce starts inside the envelope.
pub const NONCE_START: usize = 8;

/// Where the framing marker starts inside the envelope.
pub const MARKER_START: usize = 56;

/// Where the datacenter selector starts inside the envelope.
pub const SELECTOR_START: usize = 60;

/// What a successful handshake establishes.
pub struct Handshake {
    /// The datacenter that the peer asks for.
    pub dc_id: i16,
    /// The framing of the stream that follows.
    pub framing: Framing,
    /// Encrypts what goes to the peer.
    pub encrypt: CipherState,
    /// Decrypts what comes from the peer after the envelope.
    pub decrypt: CipherState,
    /// How many bytes of the input the handshake took up.
    pub consumed: usize,
}

/// The outcome of parsing, as a mathematical value.
pub enum Outcome {
    /// Not enough bytes yet.
    Malformed,
    /// Enough bytes, rejected for what they hold.
    Invalid,
    Accepted { dc_id: i16, framing: Framing, encrypt: CipherModel, decrypt: CipherModel, consumed: nat },
}

/// Where the envelope stands in the input.
pub enum Located {
    /// Not enough bytes to say.
    Short,
    /// The preamble is not the configured disguise.
    Refused,
    At(nat),
}

/// The byte that a framing's marker repeats four times.
pub open spec fn marker_byte(framing: Framing) -> u8 {
    match framing {
        Framing::Abridged => 0xef,
        Framing::Intermediate => 0xee,
        Framing::PaddedIntermediate => 0xdd,
    }
}

/// The framing that four marker bytes name, if they name one.
pub open spec fn framing_of(marker: Seq<u8>) -> Option<Framing> {
    if marker == seq![0xefu8, 0xefu8, 0xefu8, 0xefu8] {
        Some(Framing::Abridged)
    } else if marker == seq![0xeeu8, 0xeeu8, 0xeeu8, 0xeeu8] {
        Some(Framing::Intermediate)
    } else if marker == seq![0xddu8, 0xddu8, 0xddu8, 0xddu8] {
        Some(Framing::PaddedIntermediate)
    } else {
        None
    }
}

/// The signed number that two bytes spell, least significant first.
pub open spec fn selector_value(low: u8, high: u8) -> int {
    let raw = low as int + 256 * (high as int);
    if raw >= 0x8000 {
        raw - 0x1_0000
    } else {
        raw
    }
}

/// The fewest bytes that can hold a handshake.
pub open spec fn min_handshake_len(tag: Option<Seq<u8>>) -> nat {
    match tag {
        None => ENVELOPE_LEN as nat,
        Some(t) => t.len() + 2 + ENVELOPE_LEN as nat,
    }
}

/// Finds the envelope. Without a tag it opens the input. With one, the input
/// opens with the tag, a 2-byte big-endian length and a body of that length,
/// and the envelope follows the body.
pub open spec fn locate(tag: Option<Seq<u8>>, input: Seq<u8>) -> Located {
    if input.len() < min_handshake_len(tag) {
        Located::Short
    } else {
        match tag {
            None => Located::At(0),
            Some(t) => {
                let body = 256 * (input[t.len() as int] as nat) + (input[t.len() as int + 1] as nat);
                if input.subrange(0, t.len() as int) != t {
                    Located::Refused
                } else if input.len() < t.len() + 2 + body + ENVELOPE_LEN {
                    Located::Short
                } else {
                    Located::At(t.len() + 2 + body)
                }
            },
        }
    }
}

/// What an envelope holds for a receiver on a leg with this secret.
pub open spec fn read_envelope(secret: Option<Seq<u8>>, envelope: Seq<u8>, start: nat) -> Outcome {
    let nonce = envelope.subrange(NONCE_START as int, MARKER_START as int);
    let decrypt = forward_state(secret, nonce);
    let clear = apply(decrypt, envelope);
    match framing_of(clear.subrange(MARKER_START as int, SELECTOR_START as int)) {
        None => Outcome::Invalid,
        Some(framing) => Outcome::Accepted {
            dc_id: selector_value(
                clear[SELECTOR_START as int],
                clear[SELECTOR_START as int + 1],
            ) as i16,
            framing,
            encrypt: backward_state(secret, nonce),
            decrypt: advance(decrypt, ENVELOPE_LEN as nat),
            consumed: start + ENVELOPE_LEN as nat,
        },
    }
}

/// What the first bytes of a connection amount to.
pub open spec fn handshake_outcome(
    secret: Option<Seq<u8>>,
    tag: Option<Seq<u8>>,
    input: Seq<u8>,
) -> Outcome {
    match locate(tag, input) {
        Located::Short => Outcome::Malformed,
        Located::Refused => Outcome::Invalid,
        Located::At(start) => read_envelope(
            secret,
            input.subrange(start as int, start + ENVELOPE_LEN as int),
            start,
        ),
    }
}

/// The view of an optional byte string.
pub open spec fn opt_view(bytes: Option<&[u8]>) -> Option<Seq<u8>> {
    match bytes {
        Some(b) => Some(b@),
        None => None,
    }
}

/// Tells whether `input` opens with `prefix`.
fn starts_with(input: &[u8], prefix: &[u8]) -> (r: bool)
    requires
        prefix@.len() <= input@.len(),
    ensures
        r == (input@.subrange(0, prefix@.len() as int) == prefix@),
{
    let mut i: usize = 0;
    while i < prefix.len()
        invariant
            i <= prefix@.len() <= input@.len(),
            forall|k: int| 0 <= k < i ==> input@[k] == prefix@[k],
        decreases prefix@.len() - i,
    {
        if input[i] != prefix[i] {
            assert(input@.subrange(0, prefix@.len() as int)[i as int] != prefix@[i as int]);
            return false;
        }
        i = i + 1;
    }
    assert(input@.subrange(0, prefix@.len() as int) =~= prefix@);
    true
}

/// Finds the envelope in `input`.
fn locate_envelope(tag: Option<&[u8]>, input: &[u8]) -> (r: Result<usize, ProxyError>)
    ensures
        match r {
            Ok(start) => locate(opt_view(tag), input@) == Located::At(start as nat) && start
                + ENVELOPE_LEN <= input@.len(),
            Err(ProxyError::MalformedHandshake) => locate(opt_view(tag), input@) is Short,
            Err(e) => e == ProxyError::InvalidHandshake && locate(opt_view(tag), input@) is Refused,
        },
{
    match tag {
        None => {
            if input.len() < ENVELOPE_LEN {
                Err(ProxyError::MalformedHandshake)
            } else {
                Ok(0)
            }
        },
        Some(t) => {
            if input.len() < ENVELOPE_LEN + 2 || input.len() - (ENVELOPE_LEN + 2) < t.len() {
                return Err(ProxyError::MalformedHandshake);
            }
            if !starts_with(input, t) {
                return Err(ProxyError::InvalidHandshake);
            }
            let body: usize = 256 * (input[t.len()] as usize) + input[t.len() + 1] as usize;
            if input.len() - (ENVELOPE_LEN + 2) - t.len() < body {
                return Err(ProxyError::MalformedHandshake);
            }
            Ok(t.len() + 2 + body)
        },
    }
}

/// Reads the framing that four clear marker bytes name.
fn read_marker(clear: &[u8]) -> (r: Option<Framing>)
    requires
        clear@.len() == ENVELOPE_LEN,
    ensures
        r == framing_of(clear@.subrange(MARKER_START as int, SELECTOR_START as int)),
{
    let ghost marker = clear@.subrange(MARKER_START as int, SELECTOR_START as int);
    let first = clear[MARKER_START];
    assert(marker[0] == clear@[56] && marker[1] == clear@[57] && marker[2] == clear@[58]
        && marker[3] == clear@[59]);
    if clear[MARKER_START + 1] != first || clear[MARKER_START + 2] != first || clear[MARKER_START
        + 3] != first {
        return None;
    }
    assert(marker =~= seq![first, first, first, first]);
    if first == 0xef {
        Some(Framing::Abridged)
    } else if first == 0xee {
        Some(Framing::Intermediate)
    } else if first == 0xdd {
        Some(Framing::PaddedIntermediate)
    } else {
        assert(marker[0] == first);
        None
    }
}

/// Reads two bytes as a signed number, least significant first.
fn read_selector(low: u8, high: u8) -> (v: i16)
    ensures
        v == selector_value(low, high),
{
    let raw: i32 = low as i32 + 256 * (high as i32);
    if raw >= 0x8000 {
        (raw - 0x1_0000) as i16
    } else {
        raw as i16
    }
}

/// Parses the handshake that opens a client connection.
///
/// `MalformedHandshake` means that `input` does not hold the whole handshake
/// yet: the caller keeps the connection and parses again when more bytes
/// have come. `InvalidHandshake` means that the bytes are there and are
/// rejected: the preamble is not the configured disguise, or the clear
/// envelope names no framing. An input shorter than the shortest handshake
/// is never rejected, whatever it holds.
pub fn parse_handshake(secret: &[u8], tag: Option<&[u8]>, input: &[u8]) -> (r: Result<
    Handshake,
    ProxyError,
>)
    ensures
        match handshake_outcome(Some(secret@), opt_view(tag), input@) {
            Outcome::Malformed => r matches Err(ProxyError::MalformedHandshake),
            Outcome::Invalid => r matches Err(ProxyError::InvalidHandshake),
            Outcome::Accepted { dc_id, framing, encrypt, decrypt, consumed } => r matches Ok(h)
                && h.dc_id == dc_id && h.framing == framing && h.encrypt@ == encrypt && h.decrypt@
                == decrypt && h.consumed == consumed,
        },
        input@.len() < min_handshake_len(opt_view(tag)) ==> r matches Err(
            ProxyError::MalformedHandshake,
        ),
{
    let start = match locate_envelope(tag, input) {
        Ok(start) => start,
        Err(e) => {
            return Err(e);
        },
    };
    assert(start + ENVELOPE_LEN <= input.len());
    let envelope = copy_range(input, start, start + ENVELOPE_LEN);
    let nonce = copy_range(envelope.as_slice(), NONCE_START, MARKER_START);
    assert(envelope@ == input@.subrange(start as int, start + ENVELOPE_LEN as int));
    match derive_keys(secret, nonce.as_slice()) {
        Err(e) => Err(e),
        Ok((encrypt, decrypt)) => {
            let mut decrypt = decrypt;
            let clear = decrypt.transform(envelope.as_slice());
            match read_marker(clear.as_slice()) {
                None => Err(ProxyError::InvalidHandshake),
                Some(framing) => Ok(
                    Handshake {
                        dc_id: read_selector(clear[SELECTOR_START], clear[SELECTOR_START + 1]),
                        framing,
                        encrypt,
                        decrypt,
                        consumed: start + ENVELOPE_LEN,
                    },
                ),
            }
        },
    }
}

/// However short of the shortest handshake the input is, and whatever it
/// holds, the outcome is `Malformed`: never a rejection.
pub proof fn lemma_short_input_is_malformed(
    secret: Option<Seq<u8>>,
    tag: Option<Seq<u8>>,
    input: Seq<u8>,
)
    requires
        input.len() < min_handshake_len(tag),
    ensures
        handshake_outcome(secret, tag, input) == Outcome::Malformed,
{
}

/// What the sender of a handshake holds once the envelope is made.
pub struct Envelope {
    /// The 64 bytes to send.
    pub wire: Vec<u8>,
    /// Encrypts what follows the envelope.
    pub encrypt: CipherState,
    /// Decrypts what the peer answers.
    pub decrypt: CipherState,
}

/// Tells whether a byte opens one of the words that must not open an
/// envelope: they would pass for another protocol or for a bare framing
/// marker.
pub open spec fn reserved_lead(b: u8) -> bool {
    b == 0xef || b == 0xee || b == 0xdd || b == 0x16 || b == 0x47 || b == 0x48 || b == 0x4f || b
        == 0x50
}

/// The filler that a 64-byte seed gives: the seed, with its first byte
/// replaced by 1 where it is reserved, and its fifth byte replaced by 1 where
/// bytes 4 to 7 are all zero.
pub open spec fn filler(seed: Seq<u8>) -> Seq<u8> {
    let lead = if reserved_lead(seed[0]) {
        seed.update(0, 1u8)
    } else {
        seed
    };
    if seed[4] == 0 && seed[5] == 0 && seed[6] == 0 && seed[7] == 0 {
        lead.update(4, 1u8)
    } else {
        lead
    }
}

/// The two bytes that spell a selector, least significant first.
pub open spec fn selector_bytes(dc_id: i16) -> Seq<u8> {
    let raw = if dc_id < 0 {
        dc_id + 0x1_0000
    } else {
        dc_id as int
    };
    seq![(raw % 256) as u8, (raw / 256) as u8]
}

/// The envelope before encryption: filler, with the framing marker and the
/// selector in their places.
pub open spec fn envelope_clear(seed: Seq<u8>, framing: Framing, dc_id: i16) -> Seq<u8> {
    let m = marker_byte(framing);
    filler(seed).subrange(0, MARKER_START as int) + seq![m, m, m, m] + selector_bytes(dc_id)
        + filler(seed).subrange(SELECTOR_START as int + 2, ENVELOPE_LEN as int)
}

/// The envelope as sent: the nonce travels in the clear, and what follows it
/// is encrypted as bytes 56 to 63 of the stream that the nonce keys.
pub open spec fn envelope_wire(
    secret: Option<Seq<u8>>,
    seed: Seq<u8>,
    framing: Framing,
    dc_id: i16,
) -> Seq<u8> {
    let clear = envelope_clear(seed, framing, dc_id);
    let encrypt = forward_state(secret, clear.subrange(NONCE_START as int, MARKER_START as int));
    clear.subrange(0, MARKER_START as int) + apply(encrypt, clear).subrange(
        MARKER_START as int,
        ENVELOPE_LEN as int,
    )
}

/// Makes the filler of an envelope out of a seed.
fn make_filler(seed: &[u8]) -> (out: Vec<u8>)
    requires
        seed@.len() == ENVELOPE_LEN,
    ensures
        out@ == filler(seed@),
{
    let mut out = copy_range(seed, 0, ENVELOPE_LEN);
    let lead = seed[0];
    if lead == 0xef || lead == 0xee || lead == 0xdd || lead == 0x16 || lead == 0x47 || lead == 0x48
        || lead == 0x4f || lead == 0x50 {
        out.set(0, 1);
    }
    if seed[4] == 0 && seed[5] == 0 && seed[6] == 0 && seed[7] == 0 {
        out.set(4, 1);
    }
    assert(out@ =~= filler(seed@));
    out
}

/// Makes the envelope that opens a connection to a peer, out of 64 bytes
/// that the caller drew at random.
///
/// `secret` is the secret of the leg, if it has one; the leg to a backend
/// has none. `None` comes back only for a seed that is not `ENVELOPE_LEN`
/// bytes long.
pub fn build_envelope(secret: Option<&[u8]>, seed: &[u8], framing: Framing, dc_id: i16) -> (r:
    Option<Envelope>)
    ensures
        seed@.len() == ENVELOPE_LEN <==> r is Some,
        r matches Some(e) ==> {
            let nonce = envelope_clear(seed@, framing, dc_id).subrange(
                NONCE_START as int,
                MARKER_START as int,
            );
            &&& e.wire@ == envelope_wire(opt_view(secret), seed@, framing, dc_id)
            &&& e.encrypt@ == advance(forward_state(opt_view(secret), nonce), ENVELOPE_LEN as nat)
            &&& e.decrypt@ == backward_state(opt_view(secret), nonce)
        },
{
    if seed.len() != ENVELOPE_LEN {
        return None;
    }
    let mut clear = make_filler(seed);
    let marker: u8 = match framing {
        Framing::Abridged => 0xef,
        Framing::Intermediate => 0xee,
        Framing::PaddedIntermediate => 0xdd,
    };
    let raw: i32 = if dc_id < 0 {
        dc_id as i32 + 0x1_0000
    } else {
        dc_id as i32
    };
    clear.set(MARKER_START, marker);
    clear.set(MARKER_START + 1, marker);
    clear.set(MARKER_START + 2, marker);
    clear.set(MARKER_START + 3, marker);
    clear.set(SELECTOR_START, (raw % 256) as u8);
    clear.set(SELECTOR_START + 1, (raw / 256) as u8);
    assert(clear@ =~= envelope_clear(seed@, framing, dc_id));
    let nonce = copy_range(clear.as_slice(), NONCE_START, MARKER_START);
    let keys = match secret {
        Some(s) => derive_keys(s, nonce.as_slice()),
        None => derive_backend_keys(nonce.as_slice()),
    };
    match keys {
        Err(_) => None,
        Ok((first, second)) => {
            // With a secret the pair is that of the receiving side: the
            // sender encrypts with what the receiver decrypts with.
            let (encrypt, decrypt) = match secret {
                Some(_) => (second, first),
                None => (first, second),
            };
            let mut encrypt = encrypt;
            let sealed = encrypt.transform(clear.as_slice());
            let mut wire = copy_range(clear.as_slice(), 0, MARKER_START);
            let tail = copy_range(sealed.as_slice(), MARKER_START, ENVELOPE_LEN);
            wire.extend_from_slice(tail.as_slice());
            Some(Envelope { wire, encrypt, decrypt })
        },
    }
}

/// Xor-ing twice with the same byte gives the first byte back.
proof fn lemma_xor_twice(a: u8, k: u8)
    ensures
        (a ^ k) ^ k == a,
{
    assert((a ^ k) ^ k == a) by (bit_vector);
}

/// Where the marker and the selector stand in a clear envelope.
proof fn lemma_clear_layout(seed: Seq<u8>, framing: Framing, dc_id: i16)
    requires
        seed.len() == ENVELOPE_LEN,
    ensures
        envelope_clear(seed, framing, dc_id).len() == ENVELOPE_LEN,
        envelope_clear(seed, framing, dc_id).subrange(MARKER_START as int, SELECTOR_START as int)
            == seq![
            marker_byte(framing),
            marker_byte(framing),
            marker_byte(framing),
            marker_byte(framing),
        ],
        selector_value(
            envelope_clear(seed, framing, dc_id)[SELECTOR_START as int],
            envelope_clear(seed, framing, dc_id)[SELECTOR_START as int + 1],
        ) == dc_id,
{
    let clear = envelope_clear(seed, framing, dc_id);
    let m = marker_byte(framing);
    assert(filler(seed).len() == ENVELOPE_LEN);
    assert(clear.len() == ENVELOPE_LEN);
    assert(clear.subrange(MARKER_START as int, SELECTOR_START as int) =~= seq![m, m, m, m]);
    assert(clear[SELECTOR_START as int] == selector_bytes(dc_id)[0]);
    assert(clear[SELECTOR_START as int + 1] == selector_bytes(dc_id)[1]);
}

/// Decrypting the envelope as sent gives the clear marker and selector.
proof fn lemma_wire_opens(secret: Option<Seq<u8>>, seed: Seq<u8>, framing: Framing, dc_id: i16)
    requires
        seed.len() == ENVELOPE_LEN,
    ensures
        ({
            let clear = envelope_clear(seed, framing, dc_id);
            let wire = envelope_wire(secret, seed, framing, dc_id);
            let state = forward_state(
                secret,
                clear.subrange(NONCE_START as int, MARKER_START as int),
            );
            &&& wire.len() == ENVELOPE_LEN
            &&& wire.subrange(NONCE_START as int, MARKER_START as int) == clear.subrange(
                NONCE_START as int,
                MARKER_START as int,
            )
            &&& apply(state, wire).subrange(MARKER_START as int, ENVELOPE_LEN as int)
                == clear.subrange(MARKER_START as int, ENVELOPE_LEN as int)
        }),
{
    lemma_clear_layout(seed, framing, dc_id);
    let clear = envelope_clear(seed, framing, dc_id);
    let wire = envelope_wire(secret, seed, framing, dc_id);
    let state = forward_state(secret, clear.subrange(NONCE_START as int, MARKER_START as int));
    let sealed = apply(state, clear);
    let opened = apply(state, wire);
    assert(wire.len() == ENVELOPE_LEN);
    assert(wire.subrange(NONCE_START as int, MARKER_START as int) =~= clear.subrange(
        NONCE_START as int,
        MARKER_START as int,
    ));
    assert forall|i: int| MARKER_START <= i < ENVELOPE_LEN implies #[trigger] opened[i]
        == clear[i] by {
        assert(wire[i] == sealed[i]);
        lemma_xor_twice(clear[i], keystream(state.key, state.counter, state.offset + i));
    }
    assert(opened.subrange(MARKER_START as int, ENVELOPE_LEN as int) =~= clear.subrange(
        MARKER_START as int,
        ENVELOPE_LEN as int,
    ));
}

/// A receiver reads out of an envelope what its sender put in: followed by
/// whatever comes next in the stream, the envelope made for a datacenter and
/// a framing parses, on a leg with the same secret and no disguise, to that
/// datacenter and that framing, and the receiver's two cipher states are the
/// sender's two, crossed over.
pub proof fn lemma_envelope_reads_back(
    secret: Option<Seq<u8>>,
    seed: Seq<u8>,
    framing: Framing,
    dc_id: i16,
    rest: Seq<u8>,
)
    requires
        seed.len() == ENVELOPE_LEN,
    ensures
        ({
            let nonce = envelope_clear(seed, framing, dc_id).subrange(
                NONCE_START as int,
                MARKER_START as int,
            );
            handshake_outcome(secret, None, envelope_wire(secret, seed, framing, dc_id) + rest)
                == (Outcome::Accepted {
                dc_id,
                framing,
                encrypt: backward_state(secret, nonce),
                decrypt: advance(forward_state(secret, nonce), ENVELOPE_LEN as nat),
                consumed: ENVELOPE_LEN as nat,
            })
        }),
{
    lemma_clear_layout(seed, framing, dc_id);
    lemma_wire_opens(secret, seed, framing, dc_id);
    let clear = envelope_clear(seed, framing, dc_id);
    let nonce = clear.subrange(NONCE_START as int, MARKER_START as int);
    let state = forward_state(secret, nonce);
    let wire = envelope_wire(secret, seed, framing, dc_id);
    let input = wire + rest;
    assert(input.subrange(0, ENVELOPE_LEN as int) =~= wire);
    let opened = apply(state, wire);
    let shown = opened.subrange(MARKER_START as int, ENVELOPE_LEN as int);
    assert(opened.subrange(MARKER_START as int, SELECTOR_START as int) =~= shown.subrange(0, 4));
    assert(clear.subrange(MARKER_START as int, SELECTOR_START as int) =~= clear.subrange(
        MARKER_START as int,
        ENVELOPE_LEN as int,
    ).subrange(0, 4));
    assert(opened[SELECTOR_START as int] == shown[4]);
    assert(opened[SELECTOR_START as int + 1] == shown[5]);
    let m = marker_byte(framing);
    assert(seq![m, m, m, m][0] == m);
    assert(framing_of(seq![m, m, m, m]) == Some(framing));
    assert(locate(None, input) == Located::At(0));
}

} // verus!
