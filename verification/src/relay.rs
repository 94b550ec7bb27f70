//! The relay state machine of one connection.
//!
//! A slot holds everything that belongs to one client: the phase it is in,
//! the cipher states of both legs, and four bounded queues. It never touches
//! a socket. The embedding program tells it what happened (bytes came, bytes
//! went, a peer hung up, time passed) and reads off it what to do next: how
//! much it may read, what is waiting to be written, whether to open the
//! backend connection, whether to tear the connection down.
//!
//! Client bytes are decrypted on arrival and wait in `client_in` until they
//! make a whole frame; the frame is then re-framed for the backend,
//! encrypted and appended to `backend_out`. The way back runs through
//! `backend_in` and `client_out` in the same manner.

use vstd::prelude::*;
use crate::buffer::{copy_range, ByteQueue};
use crate::codec::{advance, apply, backward_state, forward_state, CipherModel, CipherState};
use crate::directory::{BackendEndpoint, Directory};
use crate::entropy::random_bytes;
use crate::error::ProxyError;
use crate::framing::{
    decode_frame, encode_frame, encode_refusal, encoded_frame, parse_frame, Framing,
    Parsed,
};
use crate::handshake::{
    build_envelope, envelope_clear, envelope_wire, handshake_outcome, opt_view, parse_handshake,
    Envelope, Handshake, Outcome, ENVELOPE_LEN, MARKER_START, NONCE_START,
};

verus! {

/// Where a connection stands.
#[derive(Clone, Copy, Debug, PartialEq, Eq, Structural)]
pub enum Phase {
    /// Collecting the client's handshake.
    Handshaking,
    /// The handshake is accepted; the backend connection is being opened.
    ConnectingBackend,
    /// Both legs are up.
    Relaying,
    /// The connection is over; what is still queued for a live peer is being
    /// written out.
    Closing,
    /// Torn down. Nothing happens to the slot any more.
    Closed,
}

/// One of the two sockets of a connection.
#[derive(Clone, Copy, Debug, PartialEq, Eq, Structural)]
pub enum Side {
    Client,
    Backend,
}

/// Why a connection is over.
#[derive(Clone, Copy, Debug, PartialEq, Eq, Structural)]
pub enum Cause {
    /// The handshake was complete and its content was rejected.
    InvalidHandshake,
    /// The handshake named a datacenter that the directory does not know.
    UnknownDatacenter,
    /// The peer on this side hung up, its socket failed or, for the backend,
    /// the connection could not be opened.
    PeerGone(Side),
    /// Nothing came or went for the idle timeout. This is no error.
    IdleTimeout,
    /// The stream could not go on: more bytes than were asked for, a frame
    /// that is too long or cannot be framed anew, or input that can never
    /// be completed within the queues.
    BrokenStream,
}

/// The cause of a connection's end is the first one that occurred.
pub open spec fn first_cause(held: Option<Cause>, new: Cause) -> Option<Cause> {
    match held {
        Some(cause) => Some(cause),
        None => Some(new),
    }
}

/// The tuning of a connection.
#[derive(Clone, Copy, Debug)]
pub struct Settings {
    /// Capacity of each of the four queues, in bytes.
    pub buffer_capacity: usize,
    /// After how long without traffic a connection is given up, in the unit
    /// of the caller's clock.
    pub idle_timeout: u64,
    /// The framing that the backends expect.
    pub backend_framing: Framing,
}

/// The ciphers and the framing of one leg.
pub struct Leg {
    /// Encrypts what goes to the peer.
    pub encrypt: CipherState,
    /// Decrypts what comes from the peer.
    pub decrypt: CipherState,
    pub framing: Framing,
}

/// A leg as a mathematical value.
pub struct LegModel {
    pub encrypt: CipherModel,
    pub decrypt: CipherModel,
    pub framing: Framing,
}

/// A slot as a mathematical value.
pub struct SlotView {
    pub phase: Phase,
    /// Why the connection is over, once it is.
    pub cause: Option<Cause>,
    /// The client-facing leg, once the handshake is accepted.
    pub client: Option<LegModel>,
    /// The backend-facing leg, once the backend is connected.
    pub backend: Option<LegModel>,
    /// The datacenter that the client asked for, once resolved.
    pub dc_id: Option<i16>,
    /// Received from the client: raw while handshaking, decrypted after.
    pub client_in: Seq<u8>,
    /// Encrypted bytes waiting to be written to the backend.
    pub backend_out: Seq<u8>,
    /// Decrypted bytes received from the backend.
    pub backend_in: Seq<u8>,
    /// Encrypted bytes waiting to be written to the client.
    pub client_out: Seq<u8>,
    /// Capacity of each queue.
    pub capacity: nat,
    /// When a byte last came or went.
    pub last_activity: u64,
    pub idle_timeout: u64,
    pub backend_framing: Framing,
}

/// The view of a leg.
pub open spec fn leg_model(leg: Leg) -> LegModel {
    LegModel { encrypt: leg.encrypt@, decrypt: leg.decrypt@, framing: leg.framing }
}

/// The view of an optional leg.
pub open spec fn opt_leg_model(leg: Option<Leg>) -> Option<LegModel> {
    match leg {
        Some(l) => Some(leg_model(l)),
        None => None,
    }
}

/// What can happen on one socket of a connection, or to the connection.
#[derive(Debug)]
pub enum Event {
    /// These bytes were read from the socket.
    Data(Vec<u8>),
    /// The socket took this many of the bytes pending for it.
    Written(usize),
    /// The connection to the backend has come up.
    Connected,
    /// The peer hung up, the socket failed or, for the backend, the
    /// connection could not be opened.
    Hangup,
    /// Time has passed.
    Tick,
}

/// What a socket is to be polled for.
#[derive(Clone, Copy, Debug, PartialEq, Eq, Structural)]
pub struct Interest {
    pub readable: bool,
    pub writable: bool,
}

/// How an attempt to move one frame across the relay ended.
#[derive(Clone, Copy, Debug, PartialEq, Eq, Structural)]
pub enum Pumped {
    /// No whole frame is waiting.
    Idle,
    /// A frame is waiting and the queue it goes to has no room for it yet.
    Stalled,
    /// One frame was moved.
    Moved,
    /// The stream cannot go on: a frame is too long, cannot be expressed in
    /// the other framing, or can never fit the queues.
    Failed,
}

/// The two queues and the cipher after an attempt to move one frame.
pub struct Step {
    pub outcome: Pumped,
    pub source: Seq<u8>,
    pub sink: Seq<u8>,
    pub cipher: CipherModel,
}

/// The padding that a random draw gives a frame. Only the padded framing
/// takes any: the first byte of the draw, modulo 4, says how many of the
/// bytes behind it are used.
pub open spec fn padding_of(to: Framing, draw: Seq<u8>) -> Seq<u8> {
    if to == Framing::PaddedIntermediate && draw.len() > 0 {
        let wanted = (draw[0] % 4) as int;
        let given = if wanted <= draw.len() - 1 {
            wanted
        } else {
            draw.len() - 1
        };
        draw.subrange(1, 1 + given)
    } else {
        Seq::<u8>::empty()
    }
}

/// One attempt to move a frame: the frame at the front of `source`, read
/// under `from`, is framed anew under `to`, encrypted and appended to
/// `sink`, if `sink` has room within `capacity`.
pub open spec fn pump_step(
    source: Seq<u8>,
    sink: Seq<u8>,
    capacity: nat,
    from: Framing,
    to: Framing,
    cipher: CipherModel,
    draw: Seq<u8>,
) -> Step {
    let stay = |outcome: Pumped| Step { outcome, source, sink, cipher };
    match parse_frame(from, source) {
        Parsed::Incomplete => if source.len() >= capacity {
            stay(Pumped::Failed)
        } else {
            stay(Pumped::Idle)
        },
        Parsed::TooLong => stay(Pumped::Failed),
        Parsed::Frame { quick_ack, payload, consumed } => {
            let padding = padding_of(to, draw);
            let bytes = encoded_frame(to, quick_ack, payload, padding);
            if encode_refusal(to, payload.len(), padding.len()) is Some || bytes.len() > capacity {
                stay(Pumped::Failed)
            } else if sink.len() + bytes.len() > capacity {
                stay(Pumped::Stalled)
            } else {
                Step {
                    outcome: Pumped::Moved,
                    source: source.subrange(consumed as int, source.len() as int),
                    sink: sink + apply(cipher, bytes),
                    cipher: advance(cipher, bytes.len()),
                }
            }
        },
    }
}

impl SlotView {
    /// What holds of every slot: no queue is over capacity, a leg is keyed
    /// when its handshake is done and not before, and the end of the
    /// connection has a cause exactly when the connection is over.
    pub open spec fn sound(self) -> bool {
        &&& self.client_in.len() <= self.capacity
        &&& self.backend_out.len() <= self.capacity
        &&& self.backend_in.len() <= self.capacity
        &&& self.client_out.len() <= self.capacity
        &&& self.phase == Phase::Handshaking ==> self.client is None && self.backend is None
        &&& self.phase == Phase::ConnectingBackend ==> self.client is Some && self.backend is None
            && self.dc_id is Some
        &&& self.phase == Phase::Relaying ==> self.client is Some && self.backend is Some
            && self.dc_id is Some
        &&& self.cause is Some <==> self.phase == Phase::Closing || self.phase == Phase::Closed
    }

    /// The slot after the connection has failed for `cause`: closing, with
    /// nothing left to write.
    pub open spec fn failed(self, cause: Cause) -> SlotView {
        SlotView {
            phase: Phase::Closing,
            cause: first_cause(self.cause, cause),
            client_out: Seq::<u8>::empty(),
            backend_out: Seq::<u8>::empty(),
            ..self
        }
    }

    /// How many bytes may be read from a socket and handed to the slot.
    pub open spec fn budget(self, side: Side) -> nat {
        match side {
            Side::Client => match self.phase {
                Phase::Handshaking | Phase::ConnectingBackend | Phase::Relaying => (self.capacity
                    - self.client_in.len()) as nat,
                _ => 0,
            },
            Side::Backend => match self.phase {
                Phase::Relaying => (self.capacity - self.backend_in.len()) as nat,
                _ => 0,
            },
        }
    }

    /// The bytes that wait to be written to a socket.
    pub open spec fn pending(self, side: Side) -> Seq<u8> {
        match side {
            Side::Client => self.client_out,
            Side::Backend => self.backend_out,
        }
    }

    /// Whether the slot has been without traffic for its idle timeout.
    pub open spec fn idle_at(self, now: u64) -> bool {
        now >= self.last_activity && now - self.last_activity >= self.idle_timeout
    }

    /// Whether a closing slot has nothing left to write.
    pub open spec fn drained(self) -> bool {
        self.phase == Phase::Closing && self.client_out.len() == 0 && self.backend_out.len() == 0
    }

    /// The slot after a peer has hung up, its socket has failed, or, for the
    /// backend, the connection could not be opened. What was queued for that
    /// peer is dropped; what is queued for the other one stays, to be written
    /// out before the connection is torn down.
    pub open spec fn after_hangup(self, side: Side) -> SlotView {
        if self.phase == Phase::Closed {
            self
        } else {
            match side {
                Side::Client => SlotView {
                    phase: Phase::Closing,
                    cause: first_cause(self.cause, Cause::PeerGone(side)),
                    client_out: Seq::<u8>::empty(),
                    ..self
                },
                Side::Backend => SlotView {
                    phase: Phase::Closing,
                    cause: first_cause(self.cause, Cause::PeerGone(side)),
                    backend_out: Seq::<u8>::empty(),
                    ..self
                },
            }
        }
    }

    /// What is left of a queue once its first `n` bytes are gone.
    pub open spec fn rest(queue: Seq<u8>, n: nat) -> Seq<u8> {
        if n <= queue.len() {
            queue.subrange(n as int, queue.len() as int)
        } else {
            Seq::<u8>::empty()
        }
    }

    /// The slot after a socket has taken `n` of the bytes pending for it.
    pub open spec fn after_written(self, side: Side, n: nat, now: u64) -> SlotView {
        if self.phase == Phase::Closed {
            self
        } else {
            let stamp = if n > 0 {
                now
            } else {
                self.last_activity
            };
            match side {
                Side::Client => SlotView {
                    client_out: Self::rest(self.client_out, n),
                    last_activity: stamp,
                    ..self
                },
                Side::Backend => SlotView {
                    backend_out: Self::rest(self.backend_out, n),
                    last_activity: stamp,
                    ..self
                },
            }
        }
    }

    /// The slot with `data` appended to what came from the client.
    pub open spec fn with_client_input(self, data: Seq<u8>) -> SlotView {
        SlotView { client_in: self.client_in + data, ..self }
    }

    /// The slot after `data` has come from the client.
    ///
    /// While handshaking the bytes are collected and parsed. A handshake
    /// that is not complete leaves the slot waiting, unless the queue is
    /// full, in which case it never will be complete. A rejected handshake
    /// and one that names a datacenter outside `known` fail the connection.
    /// An accepted one keys the client leg and decrypts what followed the
    /// envelope. After the handshake the bytes are decrypted and queued.
    #[verifier::opaque]
    pub open spec fn after_client_data(
        self,
        secret: Seq<u8>,
        tag: Option<Seq<u8>>,
        known: Map<i16, BackendEndpoint>,
        data: Seq<u8>,
        now: u64,
    ) -> SlotView {
        if self.phase == Phase::Closing || self.phase == Phase::Closed || data.len() == 0 {
            self
        } else if data.len() > self.budget(Side::Client) {
            self.failed(Cause::BrokenStream)
        } else if self.phase == Phase::Handshaking {
            let input = self.client_in + data;
            match handshake_outcome(Some(secret), tag, input) {
                Outcome::Malformed => if input.len() >= self.capacity {
                    self.with_client_input(data).failed(Cause::BrokenStream)
                } else {
                    SlotView { last_activity: now, ..self.with_client_input(data) }
                },
                Outcome::Invalid => self.with_client_input(data).failed(Cause::InvalidHandshake),
                Outcome::Accepted { dc_id, framing, encrypt, decrypt, consumed } => {
                    let rest = input.subrange(consumed as int, input.len() as int);
                    if known.contains_key(dc_id) {
                        SlotView {
                            phase: Phase::ConnectingBackend,
                            client: Some(
                                LegModel {
                                    encrypt,
                                    decrypt: advance(decrypt, rest.len()),
                                    framing,
                                },
                            ),
                            dc_id: Some(dc_id),
                            client_in: apply(decrypt, rest),
                            last_activity: now,
                            ..self
                        }
                    } else {
                        self.with_client_input(data).failed(Cause::UnknownDatacenter)
                    }
                },
            }
        } else {
            match self.client {
                Some(leg) => SlotView {
                    client: Some(
                        LegModel { decrypt: advance(leg.decrypt, data.len()), ..leg },
                    ),
                    client_in: self.client_in + apply(leg.decrypt, data),
                    last_activity: now,
                    ..self
                },
                None => self.failed(Cause::BrokenStream),
            }
        }
    }

    /// The backend that the caller is asked to connect to once `data` has
    /// come from the client: the one of the datacenter that the handshake
    /// names, when these bytes complete a handshake that is accepted and the
    /// datacenter is among `known`.
    #[verifier::opaque]
    pub open spec fn wanted_backend(
        self,
        secret: Seq<u8>,
        tag: Option<Seq<u8>>,
        known: Map<i16, BackendEndpoint>,
        data: Seq<u8>,
    ) -> Option<BackendEndpoint> {
        if self.phase == Phase::Handshaking && 0 < data.len() <= self.budget(Side::Client) {
            match handshake_outcome(Some(secret), tag, self.client_in + data) {
                Outcome::Accepted { dc_id, .. } => if known.contains_key(dc_id) {
                    Some(known[dc_id])
                } else {
                    None
                },
                _ => None,
            }
        } else {
            None
        }
    }

    /// The slot after the backend connection has come up and the relay has
    /// made its own envelope out of `seed`. The envelope opens the stream to
    /// the backend and keys the backend leg, which has no secret.
    #[verifier::opaque]
    pub open spec fn after_backend_connected(self, seed: Seq<u8>, now: u64) -> SlotView {
        if self.phase != Phase::ConnectingBackend {
            self
        } else {
            match self.dc_id {
                Some(dc_id) => if seed.len() == ENVELOPE_LEN && self.backend_out.len()
                    + ENVELOPE_LEN <= self.capacity {
                    let nonce = envelope_clear(seed, self.backend_framing, dc_id).subrange(
                        NONCE_START as int,
                        MARKER_START as int,
                    );
                    SlotView {
                        phase: Phase::Relaying,
                        backend: Some(
                            LegModel {
                                encrypt: advance(forward_state(None, nonce), ENVELOPE_LEN as nat),
                                decrypt: backward_state(None, nonce),
                                framing: self.backend_framing,
                            },
                        ),
                        backend_out: self.backend_out + envelope_wire(
                            None,
                            seed,
                            self.backend_framing,
                            dc_id,
                        ),
                        last_activity: now,
                        ..self
                    }
                } else {
                    self.failed(Cause::BrokenStream)
                },
                None => self.failed(Cause::BrokenStream),
            }
        }
    }

    /// The slot after `data` has come from the backend.
    #[verifier::opaque]
    pub open spec fn after_backend_data(self, data: Seq<u8>, now: u64) -> SlotView {
        if self.phase != Phase::Relaying || data.len() == 0 {
            self
        } else if data.len() > self.budget(Side::Backend) {
            self.failed(Cause::BrokenStream)
        } else {
            match self.backend {
                Some(leg) => SlotView {
                    backend: Some(
                        LegModel { decrypt: advance(leg.decrypt, data.len()), ..leg },
                    ),
                    backend_in: self.backend_in + apply(leg.decrypt, data),
                    last_activity: now,
                    ..self
                },
                None => self.failed(Cause::BrokenStream),
            }
        }
    }

    /// The attempt to move one frame toward `toward`, on a relaying slot
    /// with both legs.
    pub open spec fn step_toward(
        self,
        toward: Side,
        client: LegModel,
        backend: LegModel,
        draw: Seq<u8>,
    ) -> Step {
        match toward {
            Side::Backend => pump_step(
                self.client_in,
                self.backend_out,
                self.capacity,
                client.framing,
                backend.framing,
                backend.encrypt,
                draw,
            ),
            Side::Client => pump_step(
                self.backend_in,
                self.client_out,
                self.capacity,
                backend.framing,
                client.framing,
                client.encrypt,
                draw,
            ),
        }
    }

    /// How an attempt to move one frame toward `toward` ends.
    pub open spec fn pump_outcome(self, toward: Side, draw: Seq<u8>) -> Pumped {
        if self.phase != Phase::Relaying {
            Pumped::Idle
        } else {
            match (self.client, self.backend) {
                (Some(client), Some(backend)) => self.step_toward(
                    toward,
                    client,
                    backend,
                    draw,
                ).outcome,
                _ => Pumped::Failed,
            }
        }
    }

    /// The slot after an attempt to move one frame toward `toward`. Only a
    /// relaying slot moves frames. A stream that cannot go on fails the
    /// connection.
    #[verifier::opaque]
    pub open spec fn after_pump(self, toward: Side, draw: Seq<u8>) -> SlotView {
        if self.phase != Phase::Relaying {
            self
        } else {
            match (self.client, self.backend) {
                (Some(client), Some(backend)) => {
                    let step = self.step_toward(toward, client, backend, draw);
                    if step.outcome == Pumped::Failed {
                        self.failed(Cause::BrokenStream)
                    } else {
                        match toward {
                            Side::Backend => SlotView {
                                client_in: step.source,
                                backend_out: step.sink,
                                backend: Some(LegModel { encrypt: step.cipher, ..backend }),
                                ..self
                            },
                            Side::Client => SlotView {
                                backend_in: step.source,
                                client_out: step.sink,
                                client: Some(LegModel { encrypt: step.cipher, ..client }),
                                ..self
                            },
                        }
                    }
                },
                _ => self.failed(Cause::BrokenStream),
            }
        }
    }

    /// The slot after one attempt for each draw, in order.
    pub open spec fn after_pumps(self, toward: Side, draws: Seq<Seq<u8>>) -> SlotView
        decreases draws.len(),
    {
        if draws.len() == 0 {
            self
        } else {
            self.after_pumps(toward, draws.drop_last()).after_pump(toward, draws.last())
        }
    }

    /// Whether frames that go toward `toward` take padding: the leg on that
    /// side is keyed and its framing is the padded one.
    pub open spec fn pads(self, toward: Side) -> bool {
        match toward {
            Side::Backend => self.backend matches Some(leg) && leg.framing
                == Framing::PaddedIntermediate,
            Side::Client => self.client matches Some(leg) && leg.framing
                == Framing::PaddedIntermediate,
        }
    }

    /// The bytes that wait to be framed toward `toward`.
    pub open spec fn unframed(self, toward: Side) -> Seq<u8> {
        match toward {
            Side::Backend => self.client_in,
            Side::Client => self.backend_in,
        }
    }

    /// What a socket of the slot is to be polled for: for reading while the
    /// slot takes input from it, for writing while bytes are pending for it
    /// or, for the backend, while the connection is being opened.
    pub open spec fn interest(self, side: Side) -> Interest {
        Interest {
            readable: self.budget(side) > 0,
            writable: self.pending(side).len() > 0 || (side == Side::Backend && self.phase
                == Phase::ConnectingBackend),
        }
    }

    /// The slot after an event on one of its sockets. `seed` stands for the
    /// 64 bytes that the relay draws when the backend connection comes up.
    pub open spec fn after_event(
        self,
        side: Side,
        event: Event,
        secret: Seq<u8>,
        tag: Option<Seq<u8>>,
        known: Map<i16, BackendEndpoint>,
        now: u64,
        seed: Seq<u8>,
    ) -> SlotView {
        match event {
            Event::Data(data) => match side {
                Side::Client => self.after_client_data(secret, tag, known, data@, now),
                Side::Backend => self.after_backend_data(data@, now),
            },
            Event::Written(n) => self.after_written(side, n as nat, now),
            Event::Connected => match side {
                Side::Client => self,
                Side::Backend => self.after_backend_connected(seed, now),
            },
            Event::Hangup => self.after_hangup(side),
            Event::Tick => self.after_tick(now),
        }
    }

    /// The backend that the caller is asked to connect to after an event.
    pub open spec fn wanted_after(
        self,
        side: Side,
        event: Event,
        secret: Seq<u8>,
        tag: Option<Seq<u8>>,
        known: Map<i16, BackendEndpoint>,
    ) -> Option<BackendEndpoint> {
        match (side, event) {
            (Side::Client, Event::Data(data)) => self.wanted_backend(secret, tag, known, data@),
            _ => None,
        }
    }

    /// The slot after the clock has reached `now`.
    pub open spec fn after_tick(self, now: u64) -> SlotView {
        if self.phase != Phase::Closed && self.idle_at(now) {
            self.failed(Cause::IdleTimeout)
        } else {
            self
        }
    }

    /// The slot after an attempt to tear it down.
    pub open spec fn after_close(self) -> SlotView {
        if self.drained() {
            SlotView { phase: Phase::Closed, ..self }
        } else {
            self
        }
    }
}

/// A slot once an event has been taken in, the frames that could move have
/// moved in both directions and the slot has been torn down if it was due.
/// `seed`, `up` and `down` stand for what the relay drew at random.
#[verifier::opaque]
pub open spec fn settled(
    v: SlotView,
    side: Side,
    event: Event,
    secret: Seq<u8>,
    tag: Option<Seq<u8>>,
    known: Map<i16, BackendEndpoint>,
    now: u64,
    seed: Seq<u8>,
    up: Seq<Seq<u8>>,
    down: Seq<Seq<u8>>,
) -> SlotView {
    v.after_event(side, event, secret, tag, known, now, seed).after_pumps(
        Side::Backend,
        up,
    ).after_pumps(Side::Client, down).after_close()
}

/// Makes the padding of a frame out of a random draw.
fn make_padding(to: Framing, draw: &[u8]) -> (padding: Vec<u8>)
    ensures
        padding@ == padding_of(to, draw@),
        padding@.len() <= 3,
{
    if to == Framing::PaddedIntermediate && draw.len() > 0 {
        let wanted: usize = (draw[0] % 4) as usize;
        let given: usize = if wanted <= draw.len() - 1 {
            wanted
        } else {
            draw.len() - 1
        };
        copy_range(draw, 1, 1 + given)
    } else {
        Vec::new()
    }
}

/// Moves at most one frame from `source` to `sink`.
fn pump_queues(
    source: &mut ByteQueue,
    sink: &mut ByteQueue,
    from: Framing,
    to: Framing,
    cipher: &mut CipherState,
    draw: &[u8],
) -> (outcome: Pumped)
    requires
        old(source).capacity() == old(sink).capacity(),
    ensures
        ({
            let step = pump_step(
                old(source)@,
                old(sink)@,
                old(sink).capacity(),
                from,
                to,
                old(cipher)@,
                draw@,
            );
            &&& outcome == step.outcome
            &&& final(source)@ == step.source
            &&& final(sink)@ == step.sink
            &&& final(cipher)@ == step.cipher
        }),
        final(source).capacity() == old(source).capacity(),
        final(sink).capacity() == old(sink).capacity(),
        outcome == Pumped::Moved ==> final(source)@.len() < old(source)@.len(),
        final(sink)@.len() <= final(sink).capacity(),
        final(source)@.len() <= final(source).capacity(),
{
    let held = source.len();
    let room = sink.space();
    let limit = sink.limit();
    match decode_frame(from, source.as_slice()) {
        Err(_) => Pumped::Failed,
        Ok(None) => {
            if held >= limit {
                Pumped::Failed
            } else {
                Pumped::Idle
            }
        },
        Ok(Some((frame, consumed))) => {
            let padding = make_padding(to, draw);
            match encode_frame(to, frame.quick_ack, frame.payload.as_slice(), padding.as_slice()) {
                Err(_) => Pumped::Failed,
                Ok(bytes) => {
                    if bytes.len() > limit {
                        Pumped::Failed
                    } else if bytes.len() > room {
                        Pumped::Stalled
                    } else {
                        let sealed = cipher.transform(bytes.as_slice());
                        sink.push(sealed.as_slice());
                        source.consume(consumed);
                        Pumped::Moved
                    }
                },
            }
        },
    }
}

/// The state of one connection.
pub struct Slot {
    phase: Phase,
    cause: Option<Cause>,
    client: Option<Leg>,
    backend: Option<Leg>,
    dc_id: Option<i16>,
    client_in: ByteQueue,
    backend_out: ByteQueue,
    backend_in: ByteQueue,
    client_out: ByteQueue,
    capacity: usize,
    last_activity: u64,
    idle_timeout: u64,
    backend_framing: Framing,
}

impl Slot {
    /// The slot as a mathematical value.
    pub closed spec fn view(&self) -> SlotView {
        SlotView {
            phase: self.phase,
            cause: self.cause,
            client: opt_leg_model(self.client),
            backend: opt_leg_model(self.backend),
            dc_id: self.dc_id,
            client_in: self.client_in@,
            backend_out: self.backend_out@,
            backend_in: self.backend_in@,
            client_out: self.client_out@,
            capacity: self.capacity as nat,
            last_activity: self.last_activity,
            idle_timeout: self.idle_timeout,
            backend_framing: self.backend_framing,
        }
    }

    /// The validity of a slot: its queues have the capacity it was made
    /// with, and its view is sound.
    pub closed spec fn wf(&self) -> bool {
        &&& self.client_in.capacity() == self.capacity
        &&& self.backend_out.capacity() == self.capacity
        &&& self.backend_in.capacity() == self.capacity
        &&& self.client_out.capacity() == self.capacity
        &&& self@.sound()
    }

    /// A valid slot has a sound view.
    pub proof fn lemma_wf_sound(&self)
        requires
            self.wf(),
        ensures
            self@.sound(),
    {
    }

    /// What a slot is when its connection has just been accepted: waiting
    /// for the handshake, with no leg keyed and nothing queued.
    pub open spec fn fresh_view(settings: &Settings, now: u64) -> SlotView {
        SlotView {
            phase: Phase::Handshaking,
            cause: None,
            client: None,
            backend: None,
            dc_id: None,
            client_in: Seq::<u8>::empty(),
            backend_out: Seq::<u8>::empty(),
            backend_in: Seq::<u8>::empty(),
            client_out: Seq::<u8>::empty(),
            capacity: if settings.buffer_capacity <= crate::buffer::MAX_CAPACITY {
                settings.buffer_capacity as nat
            } else {
                crate::buffer::MAX_CAPACITY as nat
            },
            last_activity: now,
            idle_timeout: settings.idle_timeout,
            backend_framing: settings.backend_framing,
        }
    }

    /// The slot of a connection that was accepted at `now`.
    pub fn new(settings: &Settings, now: u64) -> (slot: Slot)
        ensures
            slot.wf(),
            slot@ == Self::fresh_view(settings, now),
    {
        let client_in = ByteQueue::new(settings.buffer_capacity);
        let capacity = client_in.limit();
        Slot {
            phase: Phase::Handshaking,
            cause: None,
            client: None,
            backend: None,
            dc_id: None,
            client_in,
            backend_out: ByteQueue::new(settings.buffer_capacity),
            backend_in: ByteQueue::new(settings.buffer_capacity),
            client_out: ByteQueue::new(settings.buffer_capacity),
            capacity,
            last_activity: now,
            idle_timeout: settings.idle_timeout,
            backend_framing: settings.backend_framing,
        }
    }

    /// The phase of the connection.
    pub fn phase(&self) -> (p: Phase)
        ensures
            p == self@.phase,
    {
        self.phase
    }

    /// Why the connection is over, once it is.
    pub fn cause(&self) -> (c: Option<Cause>)
        ensures
            c == self@.cause,
    {
        self.cause
    }

    /// The datacenter that the client asked for, once it is resolved.
    pub fn dc_id(&self) -> (d: Option<i16>)
        ensures
            d == self@.dc_id,
    {
        self.dc_id
    }

    /// How many bytes the caller may read from a socket and hand over. Zero
    /// means: do not read now. Either the phase takes no input from that
    /// side, or the queue is full and the other side has to drain first.
    pub fn budget(&self, side: Side) -> (n: usize)
        requires
            self.wf(),
        ensures
            n == self@.budget(side),
            n <= crate::buffer::MAX_CAPACITY,
    {
        match side {
            Side::Client => match self.phase {
                Phase::Handshaking | Phase::ConnectingBackend | Phase::Relaying => {
                    self.client_in.space()
                },
                _ => 0,
            },
            Side::Backend => match self.phase {
                Phase::Relaying => self.backend_in.space(),
                _ => 0,
            },
        }
    }

    /// The bytes that wait to be written to a socket, oldest first.
    pub fn pending(&self, side: Side) -> (bytes: &[u8])
        ensures
            bytes@ == self@.pending(side),
    {
        match side {
            Side::Client => self.client_out.as_slice(),
            Side::Backend => self.backend_out.as_slice(),
        }
    }

    /// Gives the connection up: it is closing and has nothing left to write.
    fn fail(&mut self, cause: Cause)
        requires
            old(self).wf(),
        ensures
            final(self).wf(),
            final(self)@ == old(self)@.failed(cause),
    {
        self.phase = Phase::Closing;
        if self.cause.is_none() {
            self.cause = Some(cause);
        }
        self.client_out.clear();
        self.backend_out.clear();
    }

    /// Takes in bytes that were read from the client.
    ///
    /// The answer names the backend to connect to when these bytes complete
    /// the handshake; otherwise it is `None`. A handshake for a datacenter
    /// that the directory does not know closes the connection, and no
    /// backend is named.
    pub fn on_client_data(
        &mut self,
        secret: &[u8],
        tag: Option<&[u8]>,
        directory: &Directory,
        data: &[u8],
        now: u64,
    ) -> (connect: Option<BackendEndpoint>)
        requires
            old(self).wf(),
        ensures
            final(self).wf(),
            final(self)@ == old(self)@.after_client_data(
                secret@,
                opt_view(tag),
                directory@,
                data@,
                now,
            ),
            connect == old(self)@.wanted_backend(secret@, opt_view(tag), directory@, data@),
    {
        proof {
            reveal(SlotView::after_client_data);
            reveal(SlotView::wanted_backend);
        }
        if self.phase == Phase::Closing || self.phase == Phase::Closed || data.len() == 0 {
            return None;
        }
        if data.len() > self.budget(Side::Client) {
            self.fail(Cause::BrokenStream);
            return None;
        }
        if self.phase == Phase::Handshaking {
            self.client_in.push(data);
            match parse_handshake(secret, tag, self.client_in.as_slice()) {
                Err(ProxyError::MalformedHandshake) => {
                    if self.client_in.space() == 0 {
                        self.fail(Cause::BrokenStream);
                    } else {
                        self.last_activity = now;
                    }
                    None
                },
                Err(_) => {
                    self.fail(Cause::InvalidHandshake);
                    None
                },
                Ok(handshake) => {
                    let Handshake { dc_id, framing, encrypt, decrypt, consumed } = handshake;
                    match directory.resolve(dc_id) {
                        Err(_) => {
                            self.fail(Cause::UnknownDatacenter);
                            None
                        },
                        Ok(endpoint) => {
                            let mut decrypt = decrypt;
                            let rest = copy_range(
                                self.client_in.as_slice(),
                                consumed,
                                self.client_in.len(),
                            );
                            let clear = decrypt.transform(rest.as_slice());
                            self.client_in.clear();
                            self.client_in.push(clear.as_slice());
                            self.client = Some(Leg { encrypt, decrypt, framing });
                            self.dc_id = Some(dc_id);
                            self.phase = Phase::ConnectingBackend;
                            self.last_activity = now;
                            Some(endpoint)
                        },
                    }
                },
            }
        } else {
            match self.client.take() {
                Some(leg) => {
                    let mut leg = leg;
                    let clear = leg.decrypt.transform(data);
                    self.client = Some(leg);
                    self.client_in.push(clear.as_slice());
                    self.last_activity = now;
                },
                None => {
                    self.fail(Cause::BrokenStream);
                },
            }
            None
        }
    }

    /// Records that the backend connection has come up, given the 64 bytes
    /// from which the relay's own envelope is made.
    pub fn backend_connected_with(&mut self, seed: &[u8], now: u64)
        requires
            old(self).wf(),
        ensures
            final(self).wf(),
            final(self)@ == old(self)@.after_backend_connected(seed@, now),
    {
        proof {
            reveal(SlotView::after_backend_connected);
        }
        if self.phase != Phase::ConnectingBackend {
            return ;
        }
        let dc_id = match self.dc_id {
            Some(dc_id) => dc_id,
            None => {
                self.fail(Cause::BrokenStream);
                return ;
            },
        };
        if seed.len() != ENVELOPE_LEN || self.backend_out.space() < ENVELOPE_LEN {
            self.fail(Cause::BrokenStream);
            return ;
        }
        match build_envelope(None, seed, self.backend_framing, dc_id) {
            None => {
                self.fail(Cause::BrokenStream);
            },
            Some(envelope) => {
                let Envelope { wire, encrypt, decrypt } = envelope;
                self.backend_out.push(wire.as_slice());
                self.backend = Some(Leg { encrypt, decrypt, framing: self.backend_framing });
                self.phase = Phase::Relaying;
                self.last_activity = now;
            },
        }
    }

    /// Records that the backend connection has come up. The relay draws the
    /// 64 bytes of its envelope at random; what follows is what
    /// `backend_connected_with` does with them.
    pub fn on_backend_connected(&mut self, now: u64)
        requires
            old(self).wf(),
        ensures
            final(self).wf(),
            exists|seed: Seq<u8>|
                seed.len() == ENVELOPE_LEN && final(self)@ == old(
                    self,
                )@.after_backend_connected(seed, now),
    {
        let seed = random_bytes(ENVELOPE_LEN);
        self.backend_connected_with(seed.as_slice(), now);
    }

    /// Takes in bytes that were read from the backend.
    pub fn on_backend_data(&mut self, data: &[u8], now: u64)
        requires
            old(self).wf(),
        ensures
            final(self).wf(),
            final(self)@ == old(self)@.after_backend_data(data@, now),
    {
        proof {
            reveal(SlotView::after_backend_data);
        }
        if self.phase != Phase::Relaying || data.len() == 0 {
            return ;
        }
        if data.len() > self.budget(Side::Backend) {
            self.fail(Cause::BrokenStream);
            return ;
        }
        match self.backend.take() {
            Some(leg) => {
                let mut leg = leg;
                let clear = leg.decrypt.transform(data);
                self.backend = Some(leg);
                self.backend_in.push(clear.as_slice());
                self.last_activity = now;
            },
            None => {
                self.fail(Cause::BrokenStream);
            },
        }
    }

    /// Tries to move one frame toward `toward`, with `draw` as the random
    /// bytes from which its padding is made.
    pub fn pump_one(&mut self, toward: Side, draw: &[u8]) -> (outcome: Pumped)
        requires
            old(self).wf(),
        ensures
            final(self).wf(),
            outcome == old(self)@.pump_outcome(toward, draw@),
            final(self)@ == old(self)@.after_pump(toward, draw@),
            outcome == Pumped::Moved ==> final(self)@.unframed(toward).len() < old(
                self,
            )@.unframed(toward).len(),
    {
        proof {
            reveal(SlotView::after_pump);
        }
        if self.phase != Phase::Relaying {
            return Pumped::Idle;
        }
        let client = self.client.take();
        let backend = self.backend.take();
        match (client, backend) {
            (Some(client), Some(backend)) => {
                let mut client = client;
                let mut backend = backend;
                let outcome = match toward {
                    Side::Backend => pump_queues(
                        &mut self.client_in,
                        &mut self.backend_out,
                        client.framing,
                        backend.framing,
                        &mut backend.encrypt,
                        draw,
                    ),
                    Side::Client => pump_queues(
                        &mut self.backend_in,
                        &mut self.client_out,
                        backend.framing,
                        client.framing,
                        &mut client.encrypt,
                        draw,
                    ),
                };
                self.client = Some(client);
                self.backend = Some(backend);
                if outcome == Pumped::Failed {
                    self.fail(Cause::BrokenStream);
                }
                outcome
            },
            _ => {
                self.fail(Cause::BrokenStream);
                Pumped::Failed
            },
        }
    }

    /// Whether frames that go toward `toward` take padding. Where they do
    /// not, a move of frames makes nothing of the random draw, and none has
    /// to be made.
    fn pads(&self, toward: Side) -> (takes: bool)
        ensures
            takes == self@.pads(toward),
    {
        let leg = match toward {
            Side::Backend => &self.backend,
            Side::Client => &self.client,
        };
        match leg {
            Some(leg) => leg.framing == Framing::PaddedIntermediate,
            None => false,
        }
    }

    /// Moves frames toward `toward` until none is left that can move. The
    /// padding of each frame is drawn at random, where the framing takes
    /// any: the slot ends where a run of `pump_one`, one for each draw, ends,
    /// and the answer is that of the last of them.
    pub fn pump(&mut self, toward: Side) -> (outcome: Pumped)
        requires
            old(self).wf(),
        ensures
            final(self).wf(),
            outcome != Pumped::Moved,
            exists|draws: Seq<Seq<u8>>|
                draws.len() > 0 && final(self)@ == old(self)@.after_pumps(toward, draws)
                    && outcome == old(self)@.after_pumps(
                    toward,
                    draws.drop_last(),
                ).pump_outcome(toward, draws.last()),
    {
        let ghost mut draws = Seq::<Seq<u8>>::empty();
        loop
            invariant
                self.wf(),
                self@ == old(self)@.after_pumps(toward, draws),
            decreases self@.unframed(toward).len(),
        {
            let draw = if self.pads(toward) {
                random_bytes(4)
            } else {
                Vec::new()
            };
            let outcome = self.pump_one(toward, draw.as_slice());
            proof {
                let longer = draws.push(draw@);
                assert(longer.drop_last() =~= draws);
                draws = longer;
            }
            if outcome != Pumped::Moved {
                return outcome;
            }
        }
    }

    /// What a socket of the slot is to be polled for.
    pub fn interest(&self, side: Side) -> (wanted: Interest)
        requires
            self.wf(),
        ensures
            wanted == self@.interest(side),
    {
        let pending = match side {
            Side::Client => !self.client_out.is_empty(),
            Side::Backend => !self.backend_out.is_empty() || self.phase
                == Phase::ConnectingBackend,
        };
        Interest { readable: self.budget(side) > 0, writable: pending }
    }

    /// Takes in one event and answers with the backend to connect to, if
    /// the event completes a handshake.
    pub fn on_event(
        &mut self,
        side: Side,
        event: &Event,
        secret: &[u8],
        tag: Option<&[u8]>,
        directory: &Directory,
        now: u64,
    ) -> (connect: Option<BackendEndpoint>)
        requires
            old(self).wf(),
        ensures
            final(self).wf(),
            connect == old(self)@.wanted_after(side, *event, secret@, opt_view(tag), directory@),
            exists|seed: Seq<u8>|
                seed.len() == ENVELOPE_LEN && final(self)@ == #[trigger] old(self)@.after_event(
                    side,
                    *event,
                    secret@,
                    opt_view(tag),
                    directory@,
                    now,
                    seed,
                ),
    {
        let ghost any_seed = Seq::new(ENVELOPE_LEN as nat, |i: int| 0u8);
        let ghost before = self@;
        let connect = match event {
            Event::Data(data) => match side {
                Side::Client => self.on_client_data(secret, tag, directory, data.as_slice(), now),
                Side::Backend => {
                    self.on_backend_data(data.as_slice(), now);
                    None
                },
            },
            Event::Written(n) => {
                self.on_written(side, *n, now);
                None
            },
            Event::Connected => {
                match side {
                    Side::Client => {},
                    Side::Backend => {
                        self.on_backend_connected(now);
                    },
                }
                None
            },
            Event::Hangup => {
                self.on_hangup(side);
                None
            },
            Event::Tick => {
                self.on_tick(now);
                None
            },
        };
        proof {
            if !(*event is Connected && side == Side::Backend) {
                assert(self@ == before.after_event(
                    side,
                    *event,
                    secret@,
                    opt_view(tag),
                    directory@,
                    now,
                    any_seed,
                ));
            } else {
                let seed = choose|seed: Seq<u8>|
                    seed.len() == ENVELOPE_LEN && self@ == before.after_backend_connected(
                        seed,
                        now,
                    );
                assert(self@ == before.after_event(
                    side,
                    *event,
                    secret@,
                    opt_view(tag),
                    directory@,
                    now,
                    seed,
                ));
            }
        }
        connect
    }

    /// Takes in one event, lets the frames move that can, in both
    /// directions, and tears the slot down if the connection is over and
    /// nothing is left to write. The answer names the backend to connect
    /// to, if any, and says whether the slot was torn down just now.
    pub fn settle(
        &mut self,
        side: Side,
        event: &Event,
        secret: &[u8],
        tag: Option<&[u8]>,
        directory: &Directory,
        now: u64,
    ) -> (r: (Option<BackendEndpoint>, bool))
        requires
            old(self).wf(),
        ensures
            final(self).wf(),
            r.0 == old(self)@.wanted_after(side, *event, secret@, opt_view(tag), directory@),
            r.1 == (final(self)@.phase == Phase::Closed && old(self)@.phase != Phase::Closed),
            exists|seed: Seq<u8>, up: Seq<Seq<u8>>, down: Seq<Seq<u8>>|
                seed.len() == ENVELOPE_LEN && final(self)@ == #[trigger] settled(
                    old(self)@,
                    side,
                    *event,
                    secret@,
                    opt_view(tag),
                    directory@,
                    now,
                    seed,
                    up,
                    down,
                ),
    {
        let ghost before = self@;
        let connect = self.on_event(side, event, secret, tag, directory, now);
        let ghost taken = self@;
        self.pump(Side::Backend);
        let ghost upped = self@;
        self.pump(Side::Client);
        let ghost downed = self@;
        let torn_down = self.try_close();
        proof {
            let seed = choose|seed: Seq<u8>|
                seed.len() == ENVELOPE_LEN && taken == #[trigger] before.after_event(
                    side,
                    *event,
                    secret@,
                    opt_view(tag),
                    directory@,
                    now,
                    seed,
                );
            let up = choose|draws: Seq<Seq<u8>>|
                draws.len() > 0 && upped == taken.after_pumps(Side::Backend, draws);
            let down = choose|draws: Seq<Seq<u8>>|
                draws.len() > 0 && downed == upped.after_pumps(Side::Client, draws);
            reveal(settled);
            assert(self@ == downed.after_close());
            assert(self@ == settled(
                before,
                side,
                *event,
                secret@,
                opt_view(tag),
                directory@,
                now,
                seed,
                up,
                down,
            ));
            lemma_settled_phase(
                before,
                side,
                *event,
                secret@,
                opt_view(tag),
                directory@,
                now,
                seed,
                up,
                down,
            );
        }
        (connect, torn_down)
    }

    /// Records that a peer hung up, that its socket failed or, for the
    /// backend, that the connection could not be opened.
    pub fn on_hangup(&mut self, side: Side)
        requires
            old(self).wf(),
        ensures
            final(self).wf(),
            final(self)@ == old(self)@.after_hangup(side),
    {
        if self.phase == Phase::Closed {
            return ;
        }
        self.phase = Phase::Closing;
        if self.cause.is_none() {
            self.cause = Some(Cause::PeerGone(side));
        }
        match side {
            Side::Client => self.client_out.clear(),
            Side::Backend => self.backend_out.clear(),
        }
    }

    /// Records that a socket took the first `n` of the bytes pending for it.
    pub fn on_written(&mut self, side: Side, n: usize, now: u64)
        requires
            old(self).wf(),
        ensures
            final(self).wf(),
            final(self)@ == old(self)@.after_written(side, n as nat, now),
    {
        if self.phase == Phase::Closed {
            return ;
        }
        match side {
            Side::Client => self.client_out.consume(n),
            Side::Backend => self.backend_out.consume(n),
        }
        if n > 0 {
            self.last_activity = now;
        }
    }

    /// Lets the slot know the time. A connection that has been idle for its
    /// timeout is given up.
    pub fn on_tick(&mut self, now: u64)
        requires
            old(self).wf(),
        ensures
            final(self).wf(),
            final(self)@ == old(self)@.after_tick(now),
    {
        if self.phase != Phase::Closed && now >= self.last_activity && now - self.last_activity
            >= self.idle_timeout {
            self.fail(Cause::IdleTimeout);
        }
    }

    /// Tears the connection down if it is closing and has nothing left to
    /// write. `true` tells the caller to close both sockets and to release
    /// the slot; it is answered once in the life of a slot.
    pub fn try_close(&mut self) -> (torn_down: bool)
        requires
            old(self).wf(),
        ensures
            final(self).wf(),
            torn_down == old(self)@.drained(),
            final(self)@ == old(self)@.after_close(),
    {
        if self.phase == Phase::Closing && self.client_out.is_empty()
            && self.backend_out.is_empty() {
            self.phase = Phase::Closed;
            true
        } else {
            false
        }
    }
}

/// A handshake for a datacenter that the directory does not know closes
/// the connection and names no backend to connect to.
pub proof fn lemma_unknown_datacenter_closes(
    v: SlotView,
    secret: Seq<u8>,
    tag: Option<Seq<u8>>,
    known: Map<i16, BackendEndpoint>,
    data: Seq<u8>,
    now: u64,
)
    requires
        v.phase == Phase::Handshaking,
        0 < data.len() <= v.budget(Side::Client),
        handshake_outcome(Some(secret), tag, v.client_in + data) matches Outcome::Accepted {
            dc_id,
            ..
        } && !known.contains_key(dc_id),
    ensures
        v.after_client_data(secret, tag, known, data, now).phase == Phase::Closing,
        v.after_client_data(secret, tag, known, data, now).cause == first_cause(
            v.cause,
            Cause::UnknownDatacenter,
        ),
        v.after_client_data(secret, tag, known, data, now).backend == v.backend,
        v.wanted_backend(secret, tag, known, data) is None,
{
    reveal(SlotView::after_client_data);
    reveal(SlotView::wanted_backend);
}

/// A connection that is over stays over: whatever happens to a slot that is
/// closing or closed, it is closing or closed afterwards, no frame moves,
/// and no backend is asked for.
pub proof fn lemma_over_stays_over(
    v: SlotView,
    side: Side,
    event: Event,
    secret: Seq<u8>,
    tag: Option<Seq<u8>>,
    known: Map<i16, BackendEndpoint>,
    now: u64,
    seed: Seq<u8>,
    draw: Seq<u8>,
)
    requires
        v.phase == Phase::Closing || v.phase == Phase::Closed,
    ensures
        ({
            let after = v.after_event(side, event, secret, tag, known, now, seed);
            after.phase == Phase::Closing || after.phase == Phase::Closed
        }),
        v.wanted_after(side, event, secret, tag, known) is None,
        v.after_pump(side, draw) == v,
        v.after_close().phase == Phase::Closing || v.after_close().phase == Phase::Closed,
        v.budget(side) == 0,
{
    reveal(SlotView::after_client_data);
    reveal(SlotView::after_backend_connected);
    reveal(SlotView::after_backend_data);
    reveal(SlotView::after_pump);
    reveal(SlotView::wanted_backend);
}

/// A slot is torn down once: nothing changes a closed slot, and a closed
/// slot is never told to tear down again.
pub proof fn lemma_closed_is_final(
    v: SlotView,
    side: Side,
    event: Event,
    secret: Seq<u8>,
    tag: Option<Seq<u8>>,
    known: Map<i16, BackendEndpoint>,
    now: u64,
    seed: Seq<u8>,
    draw: Seq<u8>,
)
    requires
        v.phase == Phase::Closed,
    ensures
        v.after_event(side, event, secret, tag, known, now, seed) == v,
        v.after_pump(side, draw) == v,
        v.after_close() == v,
        !v.drained(),
{
    reveal(SlotView::after_client_data);
    reveal(SlotView::after_backend_connected);
    reveal(SlotView::after_backend_data);
    reveal(SlotView::after_pump);
    reveal(SlotView::wanted_backend);
}

/// What is queued for a peer that is still there survives the other peer's
/// hanging up, and the slot is not torn down before it has been written.
pub proof fn lemma_hangup_keeps_pending(v: SlotView, gone: Side, kept: Side)
    requires
        v.phase != Phase::Closed,
        gone != kept,
    ensures
        v.after_hangup(gone).phase == Phase::Closing,
        v.after_hangup(gone).pending(kept) == v.pending(kept),
        v.pending(kept).len() > 0 ==> !v.after_hangup(gone).drained(),
{
}

/// Moving frames changes nothing on a slot that is not relaying.
pub proof fn lemma_pumps_need_relaying(v: SlotView, toward: Side, draws: Seq<Seq<u8>>)
    requires
        v.phase != Phase::Relaying,
    ensures
        v.after_pumps(toward, draws) == v,
    decreases draws.len(),
{
    reveal(SlotView::after_pump);
    if draws.len() > 0 {
        lemma_pumps_need_relaying(v, toward, draws.drop_last());
    }
}

/// A closed slot is closed after any event has settled, and unchanged.
pub proof fn lemma_closed_survives(
    v: SlotView,
    side: Side,
    event: Event,
    secret: Seq<u8>,
    tag: Option<Seq<u8>>,
    known: Map<i16, BackendEndpoint>,
    now: u64,
    seed: Seq<u8>,
    up: Seq<Seq<u8>>,
    down: Seq<Seq<u8>>,
)
    ensures
        v.phase == Phase::Closed ==> settled(v, side, event, secret, tag, known, now, seed, up, down)
            == v,
{
    reveal(settled);
    if v.phase == Phase::Closed {
        lemma_closed_is_final(v, side, event, secret, tag, known, now, seed, Seq::empty());
        lemma_pumps_need_relaying(v, Side::Backend, up);
        lemma_pumps_need_relaying(v, Side::Client, down);
    }
}

/// Only tearing down closes a slot: no event and no move of frames takes a
/// slot that is not closed to `Closed`.
pub proof fn lemma_only_teardown_closes(
    v: SlotView,
    side: Side,
    event: Event,
    secret: Seq<u8>,
    tag: Option<Seq<u8>>,
    known: Map<i16, BackendEndpoint>,
    now: u64,
    seed: Seq<u8>,
    draw: Seq<u8>,
)
    requires
        v.phase != Phase::Closed,
    ensures
        v.after_event(side, event, secret, tag, known, now, seed).phase != Phase::Closed,
        v.after_pump(side, draw).phase != Phase::Closed,
{
    reveal(SlotView::after_client_data);
    reveal(SlotView::after_backend_connected);
    reveal(SlotView::after_backend_data);
    reveal(SlotView::after_pump);
}

/// No run of moves closes a slot either.
pub proof fn lemma_pumps_do_not_close(v: SlotView, toward: Side, draws: Seq<Seq<u8>>)
    requires
        v.phase != Phase::Closed,
    ensures
        v.after_pumps(toward, draws).phase != Phase::Closed,
    decreases draws.len(),
{
    if draws.len() > 0 {
        lemma_pumps_do_not_close(v, toward, draws.drop_last());
        lemma_only_teardown_closes(
            v.after_pumps(toward, draws.drop_last()),
            toward,
            Event::Tick,
            Seq::empty(),
            None,
            Map::empty(),
            0,
            Seq::empty(),
            draws.last(),
        );
    }
}

/// A slot is closed after an event has settled exactly when it was closed
/// before or has been torn down just now.
pub proof fn lemma_settled_phase(
    v: SlotView,
    side: Side,
    event: Event,
    secret: Seq<u8>,
    tag: Option<Seq<u8>>,
    known: Map<i16, BackendEndpoint>,
    now: u64,
    seed: Seq<u8>,
    up: Seq<Seq<u8>>,
    down: Seq<Seq<u8>>,
)
    ensures
        ({
            let moved = v.after_event(side, event, secret, tag, known, now, seed).after_pumps(
                Side::Backend,
                up,
            ).after_pumps(Side::Client, down);
            let after = settled(v, side, event, secret, tag, known, now, seed, up, down);
            &&& after == moved.after_close()
            &&& moved.drained() == (after.phase == Phase::Closed && v.phase != Phase::Closed)
        }),
{
    reveal(settled);
    let taken = v.after_event(side, event, secret, tag, known, now, seed);
    if v.phase == Phase::Closed {
        lemma_closed_is_final(v, side, event, secret, tag, known, now, seed, Seq::empty());
        lemma_pumps_need_relaying(v, Side::Backend, up);
        lemma_pumps_need_relaying(v, Side::Client, down);
    } else {
        lemma_only_teardown_closes(v, side, event, secret, tag, known, now, seed, Seq::empty());
        lemma_pumps_do_not_close(taken, Side::Backend, up);
        lemma_pumps_do_not_close(taken.after_pumps(Side::Backend, up), Side::Client, down);
    }
}

/// Whether a cipher state is where another one was, or further on in the
/// same stream.
pub open spec fn moved_on(before: CipherModel, after: CipherModel) -> bool {
    after == before || exists|n: nat| after == #[trigger] advance(before, n)
}

/// Whether a leg is the same leg, with each cipher where it was or further on.
pub open spec fn leg_moved_on(before: Option<LegModel>, after: Option<LegModel>) -> bool {
    match (before, after) {
        (Some(b), Some(a)) => a.framing == b.framing && moved_on(b.encrypt, a.encrypt)
            && moved_on(b.decrypt, a.decrypt),
        (Some(_), None) => false,
        (None, _) => true,
    }
}

/// A cipher state never goes back: whatever happens to a slot, a leg that
/// was keyed stays keyed, and each of its ciphers is where it was or further
/// on in its stream, by the number of bytes that went through it.
pub proof fn lemma_ciphers_only_advance(
    v: SlotView,
    side: Side,
    event: Event,
    secret: Seq<u8>,
    tag: Option<Seq<u8>>,
    known: Map<i16, BackendEndpoint>,
    now: u64,
    seed: Seq<u8>,
    draw: Seq<u8>,
)
    requires
        v.sound(),
    ensures
        leg_moved_on(v.client, v.after_event(side, event, secret, tag, known, now, seed).client),
        leg_moved_on(v.backend, v.after_event(side, event, secret, tag, known, now, seed).backend),
        leg_moved_on(v.client, v.after_pump(side, draw).client),
        leg_moved_on(v.backend, v.after_pump(side, draw).backend),
        leg_moved_on(v.client, v.after_close().client),
        leg_moved_on(v.backend, v.after_close().backend),
{
    reveal(SlotView::after_client_data);
    reveal(SlotView::after_backend_connected);
    reveal(SlotView::after_backend_data);
    reveal(SlotView::after_pump);
}

/// Backpressure: while the frame at the front waits for room, or no whole
/// frame is there, an attempt to move frames changes nothing. Nothing is
/// dropped, and the budget for reading does not grow.
pub proof fn lemma_waiting_changes_nothing(v: SlotView, toward: Side, draw: Seq<u8>)
    requires
        v.pump_outcome(toward, draw) == Pumped::Stalled || v.pump_outcome(toward, draw)
            == Pumped::Idle,
    ensures
        v.after_pump(toward, draw) == v,
{
    reveal(SlotView::after_pump);
}

/// Where frames take no padding, the random draw is immaterial: a move of
/// frames ends the same way and leaves the same slot whatever was drawn.
pub proof fn lemma_draw_matters_only_with_padding(
    v: SlotView,
    toward: Side,
    draw: Seq<u8>,
    other: Seq<u8>,
)
    requires
        !v.pads(toward),
    ensures
        v.after_pump(toward, draw) == v.after_pump(toward, other),
        v.pump_outcome(toward, draw) == v.pump_outcome(toward, other),
{
    reveal(SlotView::after_pump);
}

} // verus!
