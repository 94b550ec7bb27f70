//! The stream cipher of the obfuscation layer: AES-256 in counter mode,
//! keyed from the nonce that the handshake carries.
//!
//! A cipher state is held as plain values: the key, the number of the
//! keystream block in use and how many bytes of that block are spent. Each
//! `transform` asks the cipher for the keystream from that block on, so a
//! state can be copied, compared and reasoned about, and the bytes that come
//! out are those of one cipher run over the whole stream.

use vstd::prelude::*;
use crate::error::ProxyError;
use crate::buffer::copy_range;

verus! {

/// Length of a cipher key.
pub const KEY_LEN: usize = 32;

/// Length of the initial counter block.
pub const IV_LEN: usize = 16;

/// Length of the nonce that keys one connection: key material followed by
/// the initial counter block.
pub const NONCE_LEN: usize = 48;

/// The SHA-256 digest of `data`.
pub uninterp spec fn sha256_digest(data: Seq<u8>) -> Seq<u8>;

/// Byte `index` of the AES-256 encryption, under `key`, of the block that
/// holds `counter` as sixteen bytes, most significant first.
pub uninterp spec fn aes256_block_byte(key: Seq<u8>, counter: u128, index: int) -> u8;

/// The counter `blocks` steps after `counter`; it wraps at sixteen bytes.
pub open spec fn counter_after(counter: u128, blocks: int) -> u128 {
    ((counter + blocks) % 0x1_0000_0000_0000_0000_0000_0000_0000_0000int) as u128
}

/// The keystream byte `index` positions after the start of the block that
/// `counter` numbers.
pub open spec fn keystream(key: Seq<u8>, counter: u128, index: int) -> u8 {
    aes256_block_byte(key, counter_after(counter, index / 16), index % 16)
}

/// The number that sixteen bytes spell, most significant first.
pub open spec fn be128(s: Seq<u8>) -> nat {
    1329227995784915872903807060280344576 * (s[0] as nat) +
    5192296858534827628530496329220096 * (s[1] as nat) +
    20282409603651670423947251286016 * (s[2] as nat) +
    79228162514264337593543950336 * (s[3] as nat) +
    309485009821345068724781056 * (s[4] as nat) +
    1208925819614629174706176 * (s[5] as nat) +
    4722366482869645213696 * (s[6] as nat) +
    18446744073709551616 * (s[7] as nat) +
    72057594037927936 * (s[8] as nat) +
    281474976710656 * (s[9] as nat) +
    1099511627776 * (s[10] as nat) +
    4294967296 * (s[11] as nat) +
    16777216 * (s[12] as nat) +
    65536 * (s[13] as nat) +
    256 * (s[14] as nat) +
    (s[15] as nat)
}

/// A cipher state as a mathematical value.
pub struct CipherModel {
    pub key: Seq<u8>,
    /// Number of the keystream block in use.
    pub counter: u128,
    /// Bytes of that block already spent.
    pub offset: int,
}

/// The state that a fresh cipher with this key and initial counter block has.
pub open spec fn fresh(key: Seq<u8>, iv: Seq<u8>) -> CipherModel {
    CipherModel { key, counter: be128(iv) as u128, offset: 0 }
}

/// What the cipher in state `m` makes of `data`.
pub open spec fn apply(m: CipherModel, data: Seq<u8>) -> Seq<u8> {
    Seq::new(data.len(), |i: int| data[i] ^ keystream(m.key, m.counter, m.offset + i))
}

/// The state after `m` has processed `n` bytes.
pub open spec fn advance(m: CipherModel, n: nat) -> CipherModel {
    CipherModel {
        key: m.key,
        counter: counter_after(m.counter, (m.offset + n) / 16),
        offset: (m.offset + n) % 16,
    }
}

/// The cipher key that a nonce gives. On a leg with a secret it is the
/// digest of the nonce's first 32 bytes followed by the secret; on a leg
/// without one it is those 32 bytes as they stand.
pub open spec fn stream_key(secret: Option<Seq<u8>>, nonce: Seq<u8>) -> Seq<u8> {
    match secret {
        Some(s) => sha256_digest(nonce.subrange(0, KEY_LEN as int) + s),
        None => nonce.subrange(0, KEY_LEN as int),
    }
}

/// The state that keys the direction in which the nonce travelled.
pub open spec fn forward_state(secret: Option<Seq<u8>>, nonce: Seq<u8>) -> CipherModel {
    fresh(stream_key(secret, nonce), nonce.subrange(KEY_LEN as int, NONCE_LEN as int))
}

/// The state that keys the opposite direction: the same rule on the nonce
/// read backwards.
pub open spec fn backward_state(secret: Option<Seq<u8>>, nonce: Seq<u8>) -> CipherModel {
    forward_state(secret, nonce.reverse())
}

/// Calls `crypto::sha2::Sha256` (`input`, then `result`). The contract names
/// the digest of the input and claims its length, 32 bytes, which the
/// crate gives as `output_bits`.
#[verifier::external_body]
fn sha256(data: &[u8]) -> (out: Vec<u8>)
    ensures
        out@ == sha256_digest(data@),
        out@.len() == 32,
{
    let mut hasher = crypto::sha2::Sha256::new();
    crypto::digest::Digest::input(&mut hasher, data);
    let mut out = [0u8; 32];
    crypto::digest::Digest::result(&mut hasher, &mut out);
    out.to_vec()
}

/// Calls `crypto::aes::ctr` with a 256-bit key and runs `process` once on a
/// fresh cipher. The contract claims what counter mode is: byte `i` of the
/// output is byte `i` of the input xor-ed with byte `i % 16` of the
/// encryption of the counter block numbered `i / 16` steps after the one
/// given, where a step adds one to the block read as a big-endian number and
/// wraps. The block encryption itself is only named. A key of another length
/// makes the crate panic, so it is left out.
#[verifier::external_body]
fn aes256_ctr_xor(key: &[u8], counter: u128, input: &[u8]) -> (out: Vec<u8>)
    requires
        key@.len() == KEY_LEN,
    ensures
        out@.len() == input@.len(),
        forall|i: int|
            0 <= i < input@.len() ==> #[trigger] out@[i] == input@[i] ^ aes256_block_byte(
                key@,
                counter_after(counter, i / 16),
                i % 16,
            ),
{
    let mut out = input.to_vec();
    let mut cipher = crypto::aes::ctr(
        crypto::aes::KeySize::KeySize256,
        key,
        &counter.to_be_bytes(),
    );
    crypto::symmetriccipher::SynchronousStreamCipher::process(&mut *cipher, input, &mut out);
    out
}

/// Reads sixteen bytes as a number, most significant first.
fn read_counter(bytes: &[u8]) -> (c: u128)
    requires
        bytes@.len() == IV_LEN,
    ensures
        c == be128(bytes@),
{
    1329227995784915872903807060280344576 * (bytes[0] as u128) +
    5192296858534827628530496329220096 * (bytes[1] as u128) +
    20282409603651670423947251286016 * (bytes[2] as u128) +
    79228162514264337593543950336 * (bytes[3] as u128) +
    309485009821345068724781056 * (bytes[4] as u128) +
    1208925819614629174706176 * (bytes[5] as u128) +
    4722366482869645213696 * (bytes[6] as u128) +
    18446744073709551616 * (bytes[7] as u128) +
    72057594037927936 * (bytes[8] as u128) +
    281474976710656 * (bytes[9] as u128) +
    1099511627776 * (bytes[10] as u128) +
    4294967296 * (bytes[11] as u128) +
    16777216 * (bytes[12] as u128) +
    65536 * (bytes[13] as u128) +
    256 * (bytes[14] as u128) +
    (bytes[15] as u128)
}

/// One direction of the obfuscation layer: a running AES-256-CTR cipher.
pub struct CipherState {
    key: Vec<u8>,
    counter: u128,
    offset: u8,
}

impl CipherState {
    #[verifier::type_invariant]
    spec fn well_formed(&self) -> bool {
        self.key@.len() == KEY_LEN && self.offset < 16
    }

    /// The state as a mathematical value.
    pub closed spec fn view(&self) -> CipherModel {
        CipherModel { key: self.key@, counter: self.counter, offset: self.offset as int }
    }

    /// A cipher at the start of its stream. `None` unless the key has
    /// `KEY_LEN` bytes and the initial counter block `IV_LEN`.
    pub fn new(key: &[u8], iv: &[u8]) -> (r: Option<CipherState>)
        ensures
            key@.len() == KEY_LEN && iv@.len() == IV_LEN <==> r is Some,
            r matches Some(state) ==> state@ == fresh(key@, iv@),
    {
        if key.len() != KEY_LEN || iv.len() != IV_LEN {
            return None;
        }
        let counter = read_counter(iv);
        let ghost given = key@;
        let key = copy_range(key, 0, key.len());
        assert(key@ =~= given);
        Some(CipherState { key, counter, offset: 0 })
    }

    /// Encrypts or decrypts `data` (the two are one operation) and moves the
    /// state past it, so that the next call goes on where this one stopped.
    pub fn transform(&mut self, data: &[u8]) -> (out: Vec<u8>)
        requires
            data@.len() + 16 <= usize::MAX,
        ensures
            out@ == apply(old(self)@, data@),
            final(self)@ == advance(old(self)@, data@.len()),
    {
        proof {
            use_type_invariant(&*self);
        }
        let skip: usize = self.offset as usize;
        let mut padded: Vec<u8> = Vec::new();
        while padded.len() < skip
            invariant
                padded@.len() <= skip,
            decreases skip - padded@.len(),
        {
            padded.push(0);
        }
        padded.extend_from_slice(data);
        let stream = aes256_ctr_xor(self.key.as_slice(), self.counter, padded.as_slice());
        let out = copy_range(stream.as_slice(), skip, stream.len());
        assert(out@ =~= apply(self@, data@)) by {
            assert forall|i: int| 0 <= i < data@.len() implies out@[i] == data@[i] ^ keystream(
                self@.key,
                self@.counter,
                self@.offset + i,
            ) by {
                assert(out@[i] == stream@[skip + i]);
                assert(padded@[skip + i] == data@[i]);
            }
        }
        let total: u128 = skip as u128 + data.len() as u128;
        self.counter = self.counter.wrapping_add(total / 16);
        self.offset = (total % 16) as u8;
        out
    }
}

/// The bytes of `input` in opposite order.
pub fn reversed(input: &[u8]) -> (out: Vec<u8>)
    ensures
        out@ == input@.reverse(),
{
    let mut out: Vec<u8> = Vec::new();
    let mut i: usize = input.len();
    while i > 0
        invariant
            i <= input@.len(),
            out@.len() == input@.len() - i,
            forall|k: int| 0 <= k < out@.len() ==> out@[k] == input@[input@.len() - 1 - k],
        decreases i,
    {
        i = i - 1;
        out.push(input[i]);
    }
    assert(out@ =~= input@.reverse());
    out
}

/// The cipher that a 48-byte nonce keys in the direction it travelled, with
/// the secret mixed into the key where the leg has one.
fn keyed_state(secret: Option<&[u8]>, nonce: &[u8]) -> (state: CipherState)
    requires
        nonce@.len() == NONCE_LEN,
    ensures
        state@ == forward_state(
            match secret {
                Some(s) => Some(s@),
                None => None,
            },
            nonce@,
        ),
{
    let head = copy_range(nonce, 0, KEY_LEN);
    let key = match secret {
        Some(s) => {
            let mut material = head;
            material.extend_from_slice(s);
            assert(material@ =~= nonce@.subrange(0, KEY_LEN as int) + s@);
            sha256(material.as_slice())
        },
        None => head,
    };
    let iv = copy_range(nonce, KEY_LEN, NONCE_LEN);
    let counter = read_counter(iv.as_slice());
    CipherState { key, counter, offset: 0 }
}

/// Derives the two cipher states of the client-facing leg from the shared
/// secret and the nonce that the client sent.
///
/// The first state encrypts what goes to the client, the second decrypts
/// what comes from it. A nonce that is not `NONCE_LEN` bytes long is not a
/// nonce yet: the answer is `MalformedHandshake`.
pub fn derive_keys(secret: &[u8], nonce: &[u8]) -> (r: Result<
    (CipherState, CipherState),
    ProxyError,
>)
    ensures
        nonce@.len() == NONCE_LEN <==> r is Ok,
        r matches Err(e) ==> e == ProxyError::MalformedHandshake,
        r matches Ok((encrypt, decrypt)) ==> encrypt@ == backward_state(Some(secret@), nonce@)
            && decrypt@ == forward_state(Some(secret@), nonce@),
{
    if nonce.len() != NONCE_LEN {
        return Err(ProxyError::MalformedHandshake);
    }
    let decrypt = keyed_state(Some(secret), nonce);
    let mirrored = reversed(nonce);
    let encrypt = keyed_state(Some(secret), mirrored.as_slice());
    Ok((encrypt, decrypt))
}

/// Derives the two cipher states of the backend-facing leg from the nonce
/// that the relay itself sends. That leg has no secret.
///
/// The first state encrypts what goes to the backend, the second decrypts
/// what comes from it.
pub fn derive_backend_keys(nonce: &[u8]) -> (r: Result<(CipherState, CipherState), ProxyError>)
    ensures
        nonce@.len() == NONCE_LEN <==> r is Ok,
        r matches Err(e) ==> e == ProxyError::MalformedHandshake,
        r matches Ok((encrypt, decrypt)) ==> encrypt@ == forward_state(None, nonce@) && decrypt@
            == backward_state(None, nonce@),
{
    if nonce.len() != NONCE_LEN {
        return Err(ProxyError::MalformedHandshake);
    }
    let encrypt = keyed_state(None, nonce);
    let mirrored = reversed(nonce);
    let decrypt = keyed_state(None, mirrored.as_slice());
    Ok((encrypt, decrypt))
}

/// Stepping a counter twice is stepping it once by the sum.
proof fn lemma_counter_steps(counter: u128, a: int, b: int)
    requires
        0 <= a,
        0 <= b,
    ensures
        counter_after(counter_after(counter, a), b) == counter_after(counter, a + b),
{
    vstd::arithmetic::div_mod::lemma_add_mod_noop(
        counter + a,
        b,
        0x1_0000_0000_0000_0000_0000_0000_0000_0000int,
    );
    vstd::arithmetic::div_mod::lemma_small_mod(
        b as nat % 0x1_0000_0000_0000_0000_0000_0000_0000_0000nat,
        0x1_0000_0000_0000_0000_0000_0000_0000_0000nat,
    );
    vstd::arithmetic::div_mod::lemma_add_mod_noop_right(
        (counter + a) % 0x1_0000_0000_0000_0000_0000_0000_0000_0000int,
        b,
        0x1_0000_0000_0000_0000_0000_0000_0000_0000int,
    );
}

/// The keystream seen from a later state is the same keystream, further on.
proof fn lemma_keystream_shift(key: Seq<u8>, counter: u128, spent: int, j: int)
    requires
        0 <= spent,
        0 <= j,
    ensures
        keystream(key, counter_after(counter, spent / 16), spent % 16 + j) == keystream(
            key,
            counter,
            spent + j,
        ),
{
    lemma_counter_steps(counter, spent / 16, (spent % 16 + j) / 16);
    assert(spent / 16 + (spent % 16 + j) / 16 == (spent + j) / 16);
    assert((spent % 16 + j) % 16 == (spent + j) % 16);
}

/// Advancing a state twice is advancing it once by the sum.
proof fn lemma_advance_twice(m: CipherModel, a: nat, b: nat)
    requires
        0 <= m.offset < 16,
    ensures
        advance(advance(m, a), b) == advance(m, a + b),
{
    let spent = m.offset + a;
    lemma_counter_steps(m.counter, spent / 16, (spent % 16 + b) / 16);
    assert(spent / 16 + (spent % 16 + b) / 16 == (spent + b) / 16);
    assert((spent % 16 + b) % 16 == (spent + b) % 16);
}

/// The cipher streams: cutting the input at any point and transforming the
/// two pieces in turn gives the bytes, and leaves the state, that
/// transforming the whole input at once does. This holds of every state,
/// whatever secret and nonce it was derived from.
pub proof fn lemma_transform_streams(m: CipherModel, first: Seq<u8>, second: Seq<u8>)
    requires
        0 <= m.offset < 16,
    ensures
        apply(m, first + second) == apply(m, first) + apply(advance(m, first.len()), second),
        advance(m, (first + second).len()) == advance(advance(m, first.len()), second.len()),
{
    let mid = advance(m, first.len());
    let whole = apply(m, first + second);
    let parts = apply(m, first) + apply(mid, second);
    assert forall|i: int| 0 <= i < whole.len() implies #[trigger] whole[i] == parts[i] by {
        if i >= first.len() {
            lemma_keystream_shift(m.key, m.counter, m.offset + first.len(), i - first.len());
        }
    }
    assert(whole =~= parts);
    lemma_advance_twice(m, first.len(), second.len());
}

} // verus!
