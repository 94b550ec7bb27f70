use mtproxy::pump::{owner_of, token_of, Owner, LISTENER};
use mtproxy::relay::Side;

#[test]
fn listener_has_token_zero() {
    assert_eq!(LISTENER, 0);
    assert_eq!(owner_of(0), Owner::Listener);
}

#[test]
fn tokens_of_the_first_slots() {
    assert_eq!(token_of(0, Side::Client), Some(1));
    assert_eq!(token_of(0, Side::Backend), Some(2));
    assert_eq!(token_of(1, Side::Client), Some(3));
    assert_eq!(token_of(1, Side::Backend), Some(4));
    assert_eq!(token_of(1000, Side::Backend), Some(2002));
}

#[test]
fn token_leads_back_to_its_socket() {
    for key in [0usize, 1, 2, 3, 17, 4096, 1 << 20] {
        for side in [Side::Client, Side::Backend] {
            let token = token_of(key, side).unwrap();
            assert_ne!(token, LISTENER);
            assert_eq!(owner_of(token), Owner::Socket { key, side });
        }
    }
}

#[test]
fn tokens_of_different_sockets_differ() {
    let mut seen = Vec::new();
    for key in 0..100usize {
        for side in [Side::Client, Side::Backend] {
            let token = token_of(key, side).unwrap();
            assert!(!seen.contains(&token));
            seen.push(token);
        }
    }
}

#[test]
fn token_that_does_not_fit_is_refused() {
    assert_eq!(token_of(usize::MAX, Side::Client), None);
    assert_eq!(token_of(usize::MAX / 2, Side::Backend), None);
    assert_eq!(token_of(usize::MAX / 2, Side::Client), Some(usize::MAX));
    assert_eq!(token_of(usize::MAX / 2 - 1, Side::Backend), Some(usize::MAX - 1));
    assert_eq!(owner_of(usize::MAX), Owner::Socket { key: usize::MAX / 2, side: Side::Client });
}
