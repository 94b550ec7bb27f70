use crypto::symmetriccipher::SynchronousStreamCipher;
use mtproxy::codec::{derive_backend_keys, derive_keys, reversed, CipherState};
use mtproxy::error::ProxyError;

fn unhex(text: &str) -> Vec<u8> {
    (0..text.len() / 2).map(|i| u8::from_str_radix(&text[2 * i..2 * i + 2], 16).unwrap()).collect()
}

fn sample_key() -> Vec<u8> {
    (0u8..32).collect()
}

fn sample_iv() -> Vec<u8> {
    (0u8..16).collect()
}

const FOX: &[u8] = b"The quick brown fox jumps over the lazy dog";

#[test]
fn ctr_matches_the_published_aes256_vector() {
    let key = unhex("603deb1015ca71be2b73aef0857d77811f352c073b6108d72d9810a30914dff4");
    let iv = unhex("f0f1f2f3f4f5f6f7f8f9fafbfcfdfeff");
    let plain = unhex(
        "6bc1bee22e409f96e93d7e117393172aae2d8a571e03ac9c9eb76fac45af8e51\
         30c81c46a35ce411e5fbc1191a0a52eff69f2445df4f9b17ad2b417be66c3710",
    );
    let mut cipher = CipherState::new(&key, &iv).unwrap();
    assert_eq!(
        cipher.transform(&plain),
        unhex(
            "601ec313775789a5b7a7f504bbf3d228f443e3ca4d62b59aca84e990cacaf5c5\
             2b0930daa23de94ce87017ba2d84988ddfc9c58db67aada613c2dd08457941a6"
        )
    );
}

#[test]
fn transform_known_answer() {
    let mut cipher = CipherState::new(&sample_key(), &sample_iv()).unwrap();
    assert_eq!(
        cipher.transform(FOX),
        unhex(
            "0e066177798e18f59b0e374f6db4c8b2069c68f5a9f0352d26369427179700bb\
             740057375bbfb584df8e6c"
        )
    );
}

#[test]
fn counter_wraps_at_sixteen_bytes() {
    let mut cipher = CipherState::new(&sample_key(), &[0xff; 16]).unwrap();
    assert_eq!(
        cipher.transform(&[0u8; 40]),
        unhex("e999e41d4ca770da5387117b5d8f57eef29000b62a499fd0a9f39a6add2e7780f05d76ae4ab99fe5")
    );
}

#[test]
fn counter_wraps_between_calls() {
    let expected =
        unhex("e999e41d4ca770da5387117b5d8f57eef29000b62a499fd0a9f39a6add2e7780f05d76ae4ab99fe5");
    let mut cipher = CipherState::new(&sample_key(), &[0xff; 16]).unwrap();
    let mut out = cipher.transform(&[0u8; 10]);
    out.extend(cipher.transform(&[0u8; 6]));
    out.extend(cipher.transform(&[0u8; 17]));
    out.extend(cipher.transform(&[0u8; 7]));
    assert_eq!(out, expected);
}

#[test]
fn cipher_needs_a_key_of_32_and_a_counter_block_of_16_bytes() {
    assert!(CipherState::new(&[0; 32], &[0; 16]).is_some());
    assert!(CipherState::new(&[0; 31], &[0; 16]).is_none());
    assert!(CipherState::new(&[0; 33], &[0; 16]).is_none());
    assert!(CipherState::new(&[0; 16], &[0; 16]).is_none());
    assert!(CipherState::new(&[0; 32], &[0; 15]).is_none());
    assert!(CipherState::new(&[0; 32], &[0; 17]).is_none());
    assert!(CipherState::new(&[], &[]).is_none());
}

#[test]
fn transform_of_nothing_is_nothing_and_moves_nothing() {
    let mut cipher = CipherState::new(&sample_key(), &sample_iv()).unwrap();
    assert!(cipher.transform(&[]).is_empty());
    let mut fresh = CipherState::new(&sample_key(), &sample_iv()).unwrap();
    assert_eq!(cipher.transform(FOX), fresh.transform(FOX));
}

#[test]
fn transform_streams_at_every_split_point() {
    let data: Vec<u8> = (0..100u32).map(|i| (i * 13 + 5) as u8).collect();
    let whole = CipherState::new(&sample_key(), &sample_iv()).unwrap().transform(&data);
    for cut in 0..=data.len() {
        let mut cipher = CipherState::new(&sample_key(), &sample_iv()).unwrap();
        let mut out = cipher.transform(&data[..cut]);
        out.extend(cipher.transform(&data[cut..]));
        assert_eq!(out, whole, "cut at {}", cut);
    }
}

#[test]
fn transform_streams_byte_by_byte() {
    let data: Vec<u8> = (0..70u32).map(|i| (i * 3) as u8).collect();
    let whole = CipherState::new(&sample_key(), &sample_iv()).unwrap().transform(&data);
    let mut cipher = CipherState::new(&sample_key(), &sample_iv()).unwrap();
    let mut out = Vec::new();
    for byte in &data {
        out.extend(cipher.transform(&[*byte]));
    }
    assert_eq!(out, whole);
}

#[test]
fn transform_agrees_with_one_run_of_the_cipher_over_the_stream() {
    let key = sample_key();
    let iv = unhex("00000000000000000000000000fffffe");
    let data: Vec<u8> = (0..5000u32).map(|i| (i * 7 + 1) as u8).collect();
    let mut expected = vec![0u8; data.len()];
    crypto::aes::ctr(crypto::aes::KeySize::KeySize256, &key, &iv).process(&data, &mut expected);
    let mut cipher = CipherState::new(&key, &iv).unwrap();
    let mut out = Vec::new();
    let mut at = 0;
    let mut step = 1;
    while at < data.len() {
        let end = (at + step).min(data.len());
        out.extend(cipher.transform(&data[at..end]));
        at = end;
        step = step * 3 % 97 + 1;
    }
    assert_eq!(out, expected);
}

#[test]
fn decrypting_undoes_encrypting() {
    let mut sender = CipherState::new(&sample_key(), &sample_iv()).unwrap();
    let mut receiver = CipherState::new(&sample_key(), &sample_iv()).unwrap();
    let sealed = sender.transform(FOX);
    assert_ne!(sealed, FOX);
    assert_eq!(receiver.transform(&sealed), FOX);
}

#[test]
fn derive_keys_known_answer() {
    let secret: Vec<u8> = (0u8..16).collect();
    let nonce: Vec<u8> = (100u8..148).collect();
    let (mut encrypt, mut decrypt) = match derive_keys(&secret, &nonce) {
        Ok(pair) => pair,
        Err(_) => panic!("a nonce of 48 bytes is accepted"),
    };
    let message = b"abcdefghijklmnopqrstuvwxyz";
    assert_eq!(
        decrypt.transform(message),
        unhex("f539a90fb4dcbb1c0e12c1030e7d3e1ec8760e1648808ed7145f")
    );
    assert_eq!(
        encrypt.transform(message),
        unhex("bb5f43508eadc22af25c715b19ad6bc107d55decf7fde757f989")
    );
}

#[test]
fn derive_keys_depends_on_the_secret() {
    let nonce: Vec<u8> = (100u8..148).collect();
    let (_, mut one) = derive_keys(&[1; 16], &nonce).ok().unwrap();
    let (_, mut other) = derive_keys(&[2; 16], &nonce).ok().unwrap();
    assert_ne!(one.transform(&[0; 16]), other.transform(&[0; 16]));
}

#[test]
fn derive_keys_rejects_a_nonce_of_the_wrong_length() {
    let secret = [0u8; 16];
    for len in [0usize, 1, 16, 47, 49, 64] {
        let nonce = vec![7u8; len];
        assert!(matches!(derive_keys(&secret, &nonce), Err(ProxyError::MalformedHandshake)));
        assert!(matches!(derive_backend_keys(&nonce), Err(ProxyError::MalformedHandshake)));
    }
}

#[test]
fn derive_backend_keys_known_answer() {
    let nonce: Vec<u8> = (100u8..148).collect();
    let (mut encrypt, mut decrypt) = derive_backend_keys(&nonce).ok().unwrap();
    let message = b"abcdefghijklmnopqrstuvwxyz";
    assert_eq!(
        encrypt.transform(message),
        unhex("1117e63220f2f857ab72b786c9833961cdaefee1c83485b9ec39")
    );
    assert_eq!(
        decrypt.transform(message),
        unhex("2a36cdc6d31fd7e7cabf72beed991bc7bd59dcc969eaeb4bd2bb")
    );
}

#[test]
fn the_two_ends_of_a_leg_hold_crossed_states() {
    let secret = [9u8; 16];
    let nonce: Vec<u8> = (1u8..49).collect();
    let (mut relay_encrypt, mut relay_decrypt) = derive_keys(&secret, &nonce).ok().unwrap();
    let (mut peer_decrypt, mut peer_encrypt) = derive_keys(&secret, &nonce).ok().unwrap();
    assert_eq!(relay_decrypt.transform(&peer_encrypt.transform(FOX)), FOX);
    assert_eq!(peer_decrypt.transform(&relay_encrypt.transform(FOX)), FOX);
}

#[test]
fn reversed_turns_the_bytes_around() {
    assert_eq!(reversed(&[1, 2, 3, 4, 5]), vec![5, 4, 3, 2, 1]);
    assert_eq!(reversed(&[]), Vec::<u8>::new());
    assert_eq!(reversed(&[7]), vec![7]);
}
