use mtproxy::config::Config;
use mtproxy::directory::{Address, BackendEndpoint, Directory};
use mtproxy::framing::{encode_frame, Framing};
use mtproxy::handshake::build_envelope;
use mtproxy::relay::{Event, Phase, Settings, Side};
use mtproxy::server::{Reaction, Server};

const KEY: [u8; 16] = [0x33; 16];

fn endpoint(dc_id: i16) -> BackendEndpoint {
    BackendEndpoint { dc_id, address: Address::V4(0x95_9a_af_32), port: 443 }
}

fn server(limit: usize) -> Server {
    let settings =
        Settings { buffer_capacity: 1024, idle_timeout: 60, backend_framing: Framing::Intermediate };
    let config = Config::new(KEY.to_vec(), None, false, settings).ok().unwrap();
    let mut directory = Directory::new();
    directory.insert(endpoint(1));
    directory.insert(endpoint(4));
    Server::new(config, directory, limit)
}

fn handshake(dc_id: i16) -> (Vec<u8>, mtproxy::codec::CipherState) {
    let seed: Vec<u8> = (0..64u32).map(|i| (i * 3 + 1) as u8).collect();
    let envelope = build_envelope(Some(&KEY), &seed, Framing::Intermediate, dc_id).unwrap();
    (envelope.wire, envelope.encrypt)
}

#[test]
fn accept_seeds_a_slot() {
    let mut server = server(8);
    assert_eq!(server.connections(), 0);
    assert_eq!(server.accept(10), Some(0));
    assert_eq!(server.accept(11), Some(1));
    assert_eq!(server.connections(), 2);
    assert_eq!(server.slot(0).unwrap().phase(), Phase::Handshaking);
    assert!(server.slot(2).is_none());
    assert_eq!(server.config().secret(), &KEY[..]);
}

#[test]
fn accept_turns_clients_away_at_the_limit() {
    let mut server = server(1);
    assert_eq!(server.accept(0), Some(0));
    assert_eq!(server.accept(0), None);
    assert_eq!(server.connections(), 1);
}

#[test]
fn handshake_asks_for_the_backend_of_its_datacenter() {
    let mut server = server(8);
    let key = server.accept(0).unwrap();
    let (wire, _) = handshake(4);
    let reaction = server.handle(key, Side::Client, &Event::Data(wire), 1);
    assert_eq!(reaction, Reaction { connect: Some(endpoint(4)), torn_down: false });
    assert_eq!(server.slot(key).unwrap().phase(), Phase::ConnectingBackend);
    assert_eq!(server.slot(key).unwrap().dc_id(), Some(4));
}

#[test]
fn unknown_datacenter_tears_the_slot_down_without_a_backend() {
    let mut server = server(8);
    let key = server.accept(0).unwrap();
    let (wire, _) = handshake(3);
    let reaction = server.handle(key, Side::Client, &Event::Data(wire), 1);
    assert_eq!(reaction, Reaction { connect: None, torn_down: true });
    assert!(server.slot(key).is_none());
    assert_eq!(server.connections(), 0);
}

#[test]
fn stale_event_changes_nothing() {
    let mut server = server(8);
    let reaction = server.handle(5, Side::Client, &Event::Data(vec![1, 2, 3]), 1);
    assert_eq!(reaction, Reaction { connect: None, torn_down: false });
    let key = server.accept(0).unwrap();
    server.handle(key, Side::Client, &Event::Hangup, 1);
    assert!(server.slot(key).is_none());
    let reaction = server.handle(key, Side::Client, &Event::Written(3), 2);
    assert_eq!(reaction, Reaction { connect: None, torn_down: false });
    assert_eq!(server.connections(), 0);
}

#[test]
fn frames_move_as_part_of_handling() {
    let mut server = server(8);
    let key = server.accept(0).unwrap();
    let (wire, mut encrypt) = handshake(1);
    server.handle(key, Side::Client, &Event::Data(wire), 1);
    server.handle(key, Side::Backend, &Event::Connected, 2);
    assert_eq!(server.slot(key).unwrap().phase(), Phase::Relaying);
    assert_eq!(server.slot(key).unwrap().pending(Side::Backend).len(), 64);
    let frame = encode_frame(Framing::Intermediate, false, &[1u8; 20], &[]).unwrap();
    let reaction = server.handle(key, Side::Client, &Event::Data(encrypt.transform(&frame)), 3);
    assert_eq!(reaction, Reaction { connect: None, torn_down: false });
    assert_eq!(server.slot(key).unwrap().pending(Side::Backend).len(), 64 + 24);
    assert_eq!(server.slot(key).unwrap().budget(Side::Client), 1024);
}

#[test]
fn teardown_waits_for_the_queue_and_frees_the_key() {
    let mut server = server(8);
    let key = server.accept(0).unwrap();
    let other = server.accept(0).unwrap();
    let (wire, _) = handshake(1);
    server.handle(key, Side::Client, &Event::Data(wire), 1);
    server.handle(key, Side::Backend, &Event::Connected, 2);
    let reaction = server.handle(key, Side::Client, &Event::Hangup, 3);
    assert!(!reaction.torn_down);
    assert_eq!(server.slot(key).unwrap().phase(), Phase::Closing);
    let reaction = server.handle(key, Side::Backend, &Event::Written(64), 4);
    assert!(reaction.torn_down);
    assert!(server.slot(key).is_none());
    assert_eq!(server.slot(other).unwrap().phase(), Phase::Handshaking);
    assert_eq!(server.accept(5), Some(key));
    assert_eq!(server.slot(key).unwrap().phase(), Phase::Handshaking);
}

#[test]
fn idle_connection_is_torn_down_by_the_clock() {
    let mut server = server(8);
    let key = server.accept(100).unwrap();
    let reaction = server.handle(key, Side::Client, &Event::Tick, 159);
    assert_eq!(reaction, Reaction { connect: None, torn_down: false });
    let reaction = server.handle(key, Side::Client, &Event::Tick, 160);
    assert_eq!(reaction, Reaction { connect: None, torn_down: true });
    assert_eq!(server.connections(), 0);
}
