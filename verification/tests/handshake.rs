use mtproxy::codec::derive_backend_keys;
use mtproxy::error::ProxyError;
use mtproxy::framing::Framing;
use mtproxy::handshake::{build_envelope, parse_handshake, ENVELOPE_LEN};

fn from_hex(text: &str) -> Vec<u8> {
    (0..text.len() / 2).map(|i| u8::from_str_radix(&text[2 * i..2 * i + 2], 16).unwrap()).collect()
}

fn secret() -> Vec<u8> {
    (0u8..16).collect()
}

fn seed() -> Vec<u8> {
    (0..64u32).map(|i| ((i * 7 + 3) % 256) as u8).collect()
}

fn client_envelope(framing: Framing, dc_id: i16) -> Vec<u8> {
    build_envelope(Some(&secret()), &seed(), framing, dc_id).unwrap().wire
}

#[test]
fn envelope_known_answer() {
    assert_eq!(
        client_envelope(Framing::Intermediate, 2),
        from_hex(
            "030a11181f262d343b424950575e656c737a81888f969da4abb2b9c0c7ced5dc\
             e3eaf1f8ff060d141b222930373e454c535a61686f767d84da3a9233566c510a"
        )
    );
}

#[test]
fn envelope_known_answer_for_a_negative_datacenter() {
    assert_eq!(
        client_envelope(Framing::PaddedIntermediate, -3),
        from_hex(
            "030a11181f262d343b424950575e656c737a81888f969da4abb2b9c0c7ced5dc\
             e3eaf1f8ff060d141b222930373e454c535a61686f767d84e909a100a993510a"
        )
    );
}

#[test]
fn envelope_without_secret_replaces_reserved_filler() {
    let mut seed = vec![0xef, 1, 2, 3, 0, 0, 0, 0];
    seed.extend(8u8..64);
    let envelope = build_envelope(None, &seed, Framing::Abridged, 5).unwrap();
    assert_eq!(
        envelope.wire,
        from_hex(
            "010102030100000008090a0b0c0d0e0f101112131415161718191a1b1c1d1e1f\
             202122232425262728292a2b2c2d2e2f30313233343536374719245f1b00fd5d"
        )
    );
}

#[test]
fn envelope_never_opens_with_a_reserved_byte() {
    for lead in [0xefu8, 0xee, 0xdd, 0x16, 0x47, 0x48, 0x4f, 0x50] {
        let mut seed = seed();
        seed[0] = lead;
        let wire = build_envelope(None, &seed, Framing::Intermediate, 1).unwrap().wire;
        assert_eq!(wire[0], 1);
        assert_eq!(&wire[1..56], &seed[1..56]);
    }
    let wire = build_envelope(None, &seed(), Framing::Intermediate, 1).unwrap().wire;
    assert_eq!(&wire[..56], &seed()[..56]);
}

#[test]
fn envelope_needs_a_seed_of_64_bytes() {
    assert!(build_envelope(None, &[0; 63], Framing::Abridged, 1).is_none());
    assert!(build_envelope(None, &[0; 65], Framing::Abridged, 1).is_none());
    assert!(build_envelope(Some(&secret()), &[], Framing::Abridged, 1).is_none());
    assert!(build_envelope(None, &[0; 64], Framing::Abridged, 1).is_some());
}

#[test]
fn envelope_states_of_the_backend_leg_are_those_of_its_nonce() {
    let mut envelope = build_envelope(None, &seed(), Framing::Intermediate, 4).unwrap();
    let (mut forward, mut backward) = derive_backend_keys(&envelope.wire[8..56]).ok().unwrap();
    // The receiver decrypts the whole stream, the envelope included.
    let clear = forward.transform(&envelope.wire);
    assert_eq!(&clear[56..60], &[0xee; 4]);
    assert_eq!(&clear[60..62], &[4, 0]);
    let sealed = envelope.encrypt.transform(b"after the envelope");
    assert_eq!(forward.transform(&sealed), b"after the envelope");
    let answer = backward.transform(b"from the backend");
    assert_eq!(envelope.decrypt.transform(&answer), b"from the backend");
}

#[test]
fn parse_reads_back_datacenter_and_framing() {
    for framing in [Framing::Abridged, Framing::Intermediate, Framing::PaddedIntermediate] {
        for dc_id in [1i16, 2, 5, -1, -5, 0, 300, i16::MAX, i16::MIN] {
            let wire = client_envelope(framing, dc_id);
            let handshake = parse_handshake(&secret(), None, &wire).ok().unwrap();
            assert_eq!(handshake.dc_id, dc_id);
            assert_eq!(handshake.framing, framing);
            assert_eq!(handshake.consumed, ENVELOPE_LEN);
        }
    }
}

#[test]
fn parse_leaves_the_ciphers_where_the_stream_goes_on() {
    let mut sender = build_envelope(Some(&secret()), &seed(), Framing::Intermediate, 2).unwrap();
    let mut input = sender.wire.clone();
    input.extend_from_slice(&[1, 2, 3]);
    let mut handshake = parse_handshake(&secret(), None, &input).ok().unwrap();
    assert_eq!(handshake.consumed, 64);
    let sealed = from_hex("1804d1dd05cfa008d51cea110b35");
    assert_eq!(
        handshake.decrypt.transform(&sealed),
        vec![10, 0, 0, 0, 1, 2, 3, 4, 5, 6, 7, 8, 9, 10]
    );
    let answer = handshake.encrypt.transform(b"to the client");
    assert_eq!(sender.decrypt.transform(&answer), b"to the client");
    assert_eq!(sender.encrypt.transform(&[10, 0, 0, 0, 1, 2, 3, 4, 5, 6, 7, 8, 9, 10]), sealed);
}

#[test]
fn short_envelope_is_malformed_whatever_it_holds() {
    let wire = client_envelope(Framing::Intermediate, 2);
    for len in 0..ENVELOPE_LEN {
        for fill in [0x00u8, 0xff, 0xef, 0x16] {
            let junk = vec![fill; len];
            assert!(matches!(
                parse_handshake(&secret(), None, &junk),
                Err(ProxyError::MalformedHandshake)
            ));
        }
        assert!(matches!(
            parse_handshake(&secret(), None, &wire[..len]),
            Err(ProxyError::MalformedHandshake)
        ));
    }
}

#[test]
fn short_input_is_malformed_in_disguise_mode_even_with_a_wrong_preamble() {
    let tag = [0x16u8, 0x03, 0x01];
    for len in 0..(3 + 2 + ENVELOPE_LEN) {
        let junk = vec![0x99u8; len];
        assert!(matches!(
            parse_handshake(&secret(), Some(&tag), &junk),
            Err(ProxyError::MalformedHandshake)
        ));
    }
}

#[test]
fn envelope_without_a_framing_marker_is_invalid() {
    assert!(matches!(
        parse_handshake(&secret(), None, &[0u8; ENVELOPE_LEN]),
        Err(ProxyError::InvalidHandshake)
    ));
    let mut wire = client_envelope(Framing::Intermediate, 2);
    wire[57] ^= 0x01;
    assert!(matches!(parse_handshake(&secret(), None, &wire), Err(ProxyError::InvalidHandshake)));
}

#[test]
fn envelope_for_another_secret_is_invalid() {
    let wire = client_envelope(Framing::Intermediate, 2);
    assert!(matches!(parse_handshake(&[0x42; 16], None, &wire), Err(ProxyError::InvalidHandshake)));
}

#[test]
fn disguise_preamble_is_skipped() {
    let tag = [0x16u8, 0x03, 0x01];
    let mut input = tag.to_vec();
    input.extend_from_slice(&[0x00, 0x05]);
    input.extend_from_slice(&[0xaa; 5]);
    input.extend(client_envelope(Framing::Abridged, 3));
    input.extend_from_slice(&[7, 7]);
    let handshake = parse_handshake(&secret(), Some(&tag), &input).ok().unwrap();
    assert_eq!(handshake.dc_id, 3);
    assert_eq!(handshake.framing, Framing::Abridged);
    assert_eq!(handshake.consumed, 3 + 2 + 5 + 64);
}

#[test]
fn disguise_length_is_big_endian() {
    let tag = [0x16u8];
    let mut input = tag.to_vec();
    input.extend_from_slice(&[0x01, 0x02]);
    input.extend(vec![0u8; 0x0102]);
    input.extend(client_envelope(Framing::Intermediate, 1));
    let handshake = parse_handshake(&secret(), Some(&tag), &input).ok().unwrap();
    assert_eq!(handshake.consumed, 1 + 2 + 0x0102 + 64);
}

#[test]
fn disguise_with_an_unfinished_body_is_malformed() {
    let tag = [0x16u8, 0x03, 0x01];
    let mut input = tag.to_vec();
    input.extend_from_slice(&[0x00, 0x05]);
    input.extend_from_slice(&[0xaa; 5]);
    input.extend(client_envelope(Framing::Abridged, 3));
    for len in 0..input.len() {
        assert!(matches!(
            parse_handshake(&secret(), Some(&tag), &input[..len]),
            Err(ProxyError::MalformedHandshake)
        ));
    }
}

#[test]
fn wrong_disguise_is_invalid_once_the_shortest_handshake_is_there() {
    let tag = [0x16u8, 0x03, 0x01];
    let mut input = vec![0x17u8, 0x03, 0x01, 0x00, 0x00];
    input.extend(client_envelope(Framing::Abridged, 3));
    assert!(matches!(
        parse_handshake(&secret(), Some(&tag), &input),
        Err(ProxyError::InvalidHandshake)
    ));
}

#[test]
fn an_empty_tag_asks_for_the_length_field_alone() {
    let mut input = vec![0x00u8, 0x00];
    input.extend(client_envelope(Framing::Intermediate, 2));
    let handshake = parse_handshake(&secret(), Some(&[]), &input).ok().unwrap();
    assert_eq!(handshake.consumed, 66);
    assert_eq!(handshake.dc_id, 2);
}
