use mtproxy::directory::{Address, BackendEndpoint, Directory};
use mtproxy::error::ProxyError;

fn endpoint(dc_id: i16, last: u32) -> BackendEndpoint {
    BackendEndpoint { dc_id, address: Address::V4(0x9500_0000 + last), port: 443 }
}

#[test]
fn empty_directory_knows_nothing() {
    let directory = Directory::new();
    assert_eq!(directory.len(), 0);
    assert_eq!(directory.resolve(1), Err(ProxyError::UnknownDatacenter));
    assert_eq!(directory.resolve(0), Err(ProxyError::UnknownDatacenter));
}

#[test]
fn resolve_finds_what_was_inserted() {
    let mut directory = Directory::new();
    assert!(directory.insert(endpoint(1, 50)));
    assert!(directory.insert(endpoint(2, 51)));
    assert!(directory.insert(endpoint(-3, 100)));
    assert_eq!(directory.len(), 3);
    assert_eq!(directory.resolve(1), Ok(endpoint(1, 50)));
    assert_eq!(directory.resolve(2), Ok(endpoint(2, 51)));
    assert_eq!(directory.resolve(-3), Ok(endpoint(-3, 100)));
}

#[test]
fn resolve_of_an_unknown_datacenter_fails() {
    let mut directory = Directory::new();
    directory.insert(endpoint(1, 50));
    directory.insert(endpoint(2, 51));
    assert_eq!(directory.resolve(3), Err(ProxyError::UnknownDatacenter));
    assert_eq!(directory.resolve(-1), Err(ProxyError::UnknownDatacenter));
    assert_eq!(directory.resolve(i16::MIN), Err(ProxyError::UnknownDatacenter));
}

#[test]
fn insert_does_not_replace_an_entry() {
    let mut directory = Directory::new();
    assert!(directory.insert(endpoint(1, 50)));
    assert!(!directory.insert(endpoint(1, 99)));
    assert_eq!(directory.len(), 1);
    assert_eq!(directory.resolve(1), Ok(endpoint(1, 50)));
}

#[test]
fn directory_holds_both_address_families() {
    let mut directory = Directory::new();
    let six = BackendEndpoint {
        dc_id: 2,
        address: Address::V6(0x2001_067c_04e8_f002_0000_0000_0000_000a),
        port: 443,
    };
    assert!(directory.insert(six));
    assert_eq!(directory.resolve(2), Ok(six));
}
