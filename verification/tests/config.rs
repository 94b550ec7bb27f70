use mtproxy::config::{check_secret, parse_secret, parse_tag, Config, ConfigError, SECRET_LEN};
use mtproxy::framing::Framing;
use mtproxy::relay::Settings;

fn settings() -> Settings {
    Settings { buffer_capacity: 4096, idle_timeout: 300, backend_framing: Framing::Intermediate }
}

#[test]
fn secret_is_decoded_from_hexadecimal() {
    assert_eq!(
        parse_secret("000102030405060708090a0b0c0d0e0f"),
        Ok((0u8..16).collect::<Vec<u8>>())
    );
    assert_eq!(
        parse_secret("FFEEDDCCBBAA99887766554433221100"),
        Ok(vec![
            0xff, 0xee, 0xdd, 0xcc, 0xbb, 0xaa, 0x99, 0x88, 0x77, 0x66, 0x55, 0x44, 0x33, 0x22,
            0x11, 0x00
        ])
    );
}

#[test]
fn secret_of_another_length_is_unsupported() {
    assert_eq!(parse_secret(""), Err(ConfigError::UnsupportedSecretLength));
    assert_eq!(parse_secret("00"), Err(ConfigError::UnsupportedSecretLength));
    assert_eq!(
        parse_secret("000102030405060708090a0b0c0d0e"),
        Err(ConfigError::UnsupportedSecretLength)
    );
    assert_eq!(
        parse_secret("000102030405060708090a0b0c0d0e0f10"),
        Err(ConfigError::UnsupportedSecretLength)
    );
}

#[test]
fn secret_that_is_not_hexadecimal_is_malformed() {
    assert_eq!(parse_secret("zz0102030405060708090a0b0c0d0e0f"), Err(ConfigError::MalformedSecret));
    assert_eq!(parse_secret("000102030405060708090a0b0c0d0e0"), Err(ConfigError::MalformedSecret));
    assert_eq!(parse_secret("0x"), Err(ConfigError::MalformedSecret));
}

#[test]
fn check_secret_looks_at_presence_then_length() {
    assert_eq!(check_secret(None), Err(ConfigError::MalformedSecret));
    assert_eq!(check_secret(Some(vec![])), Err(ConfigError::UnsupportedSecretLength));
    assert_eq!(check_secret(Some(vec![1; 15])), Err(ConfigError::UnsupportedSecretLength));
    assert_eq!(check_secret(Some(vec![1; 17])), Err(ConfigError::UnsupportedSecretLength));
    assert_eq!(check_secret(Some(vec![1; SECRET_LEN])), Ok(vec![1; 16]));
}

#[test]
fn tag_is_optional_and_of_any_length() {
    assert_eq!(parse_tag(None), Ok(None));
    assert_eq!(parse_tag(Some("")), Ok(Some(vec![])));
    assert_eq!(parse_tag(Some("160301")), Ok(Some(vec![0x16, 0x03, 0x01])));
    assert_eq!(parse_tag(Some("ab")), Ok(Some(vec![0xab])));
}

#[test]
fn tag_that_is_not_hexadecimal_is_malformed() {
    assert_eq!(parse_tag(Some("16030")), Err(ConfigError::MalformedTag));
    assert_eq!(parse_tag(Some("tag")), Err(ConfigError::MalformedTag));
}

#[test]
fn config_from_text_holds_what_was_written() {
    let config =
        Config::from_text("000102030405060708090a0b0c0d0e0f", Some("160301"), true, settings())
            .ok()
            .unwrap();
    assert_eq!(config.secret(), &(0u8..16).collect::<Vec<u8>>()[..]);
    assert_eq!(config.tag(), Some(&[0x16u8, 0x03, 0x01][..]));
    assert!(config.ipv6());
    assert_eq!(config.settings().buffer_capacity, 4096);
    assert_eq!(config.settings().idle_timeout, 300);
    assert_eq!(config.settings().backend_framing, Framing::Intermediate);
}

#[test]
fn config_from_text_reports_the_secret_first() {
    assert!(matches!(
        Config::from_text("nothex", Some("alsonot"), false, settings()),
        Err(ConfigError::MalformedSecret)
    ));
    assert!(matches!(
        Config::from_text("00", Some("alsonot"), false, settings()),
        Err(ConfigError::UnsupportedSecretLength)
    ));
    assert!(matches!(
        Config::from_text("000102030405060708090a0b0c0d0e0f", Some("alsonot"), false, settings()),
        Err(ConfigError::MalformedTag)
    ));
}

#[test]
fn config_without_tag() {
    let config = Config::from_text("000102030405060708090a0b0c0d0e0f", None, false, settings())
        .ok()
        .unwrap();
    assert_eq!(config.tag(), None);
    assert!(!config.ipv6());
}

#[test]
fn config_new_takes_only_a_secret_of_sixteen_bytes() {
    assert!(Config::new(vec![0; 16], None, false, settings()).is_ok());
    assert!(matches!(
        Config::new(vec![0; 15], None, false, settings()),
        Err(ConfigError::UnsupportedSecretLength)
    ));
    assert!(matches!(
        Config::new(vec![], Some(vec![1]), false, settings()),
        Err(ConfigError::UnsupportedSecretLength)
    ));
}

#[test]
fn secret_may_be_written_with_blanks() {
    assert_eq!(
        parse_secret("00010203 04050607\t08090a0b\n0c0d0e0f"),
        Ok((0u8..16).collect::<Vec<u8>>())
    );
}

#[test]
fn refusals_are_worded_for_the_operator() {
    assert_eq!(ConfigError::UnsupportedSecretLength.message(), "Unsupported secret length");
    assert_eq!(ConfigError::MalformedSecret.message(), "Mailformed secret");
    assert_eq!(ConfigError::MalformedTag.message(), "Mailformed tag");
}
