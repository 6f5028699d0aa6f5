use http::error::ErrorKind;
use http::uri::codec::Context;
use http::uri::ipv4::validate_ipv4_address;

#[test]
fn ipv4_leading_zeros_are_accepted() {
    assert!(validate_ipv4_address("001.02.3.4").is_ok());
    assert!(validate_ipv4_address("0000000000000000000000001.2.3.4").is_ok());
}

#[test]
fn ipv4_trailing_dot_is_truncated() {
    assert!(matches!(validate_ipv4_address("1.2.3."), Err(ErrorKind::TruncatedHost)));
    assert!(matches!(validate_ipv4_address("1.2.3.4."), Err(ErrorKind::TruncatedHost)));
}

#[test]
fn ipv4_empty_is_truncated() {
    assert!(matches!(validate_ipv4_address(""), Err(ErrorKind::TruncatedHost)));
}

#[test]
fn ipv4_too_few_parts() {
    assert!(matches!(validate_ipv4_address("1"), Err(ErrorKind::TooFewAddressParts)));
    assert!(matches!(validate_ipv4_address("1.2.3"), Err(ErrorKind::TooFewAddressParts)));
}

#[test]
fn ipv4_too_many_parts() {
    assert!(matches!(validate_ipv4_address("1.2.3.4.5"), Err(ErrorKind::TooManyAddressParts)));
    assert!(matches!(validate_ipv4_address("1.2.3.4.5.6"), Err(ErrorKind::TooManyAddressParts)));
    assert!(matches!(validate_ipv4_address("1.2.3.4.5.256"), Err(ErrorKind::TooManyAddressParts)));
}

#[test]
fn ipv4_bad_octet() {
    assert!(matches!(validate_ipv4_address("256.2.3.4"), Err(ErrorKind::InvalidDecimalOctet)));
    assert!(matches!(validate_ipv4_address("1.2.3.256"), Err(ErrorKind::InvalidDecimalOctet)));
    assert!(matches!(validate_ipv4_address("1.999999.3.4"), Err(ErrorKind::InvalidDecimalOctet)));
    assert!(matches!(validate_ipv4_address("1.2.3.4.999"), Err(ErrorKind::InvalidDecimalOctet)));
    assert!(matches!(validate_ipv4_address("300"), Err(ErrorKind::InvalidDecimalOctet)));
}

#[test]
fn ipv4_bad_character() {
    assert!(matches!(
        validate_ipv4_address("1.2.x.4"),
        Err(ErrorKind::InvalidCharacter(Context::Ipv4Address))
    ));
    assert!(matches!(
        validate_ipv4_address(".1.2.3"),
        Err(ErrorKind::InvalidCharacter(Context::Ipv4Address))
    ));
    assert!(matches!(
        validate_ipv4_address("1..2.3"),
        Err(ErrorKind::InvalidCharacter(Context::Ipv4Address))
    ));
    assert!(matches!(
        validate_ipv4_address("+1.2.3.4"),
        Err(ErrorKind::InvalidCharacter(Context::Ipv4Address))
    ));
}

#[test]
fn ipv4_every_octet_value_is_accepted() {
    for value in 0..=255u32 {
        let address = format!("{}.0.0.{}", value, value);
        assert!(validate_ipv4_address(&address).is_ok());
    }
    for value in 256..=1000u32 {
        let address = format!("1.{}.3.4", value);
        assert!(matches!(validate_ipv4_address(&address), Err(ErrorKind::InvalidDecimalOctet)));
    }
}
