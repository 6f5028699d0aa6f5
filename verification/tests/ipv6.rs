use http::error::ErrorKind;
use http::uri::codec::Context;
use http::uri::ipv6::validate_ipv6_address;

#[test]
fn ipv6_eight_groups() {
    assert!(validate_ipv6_address("1:2:3:4:5:6:7:8").is_ok());
    assert!(validate_ipv6_address("2001:0db8:85a3:0000:0000:8a2e:0370:7334").is_ok());
    assert!(validate_ipv6_address("FFFF:abcd:ABCD:0:1a2B:ffff:0:9").is_ok());
}

#[test]
fn ipv6_double_colon_forms() {
    assert!(validate_ipv6_address("::").is_ok());
    assert!(validate_ipv6_address("::1").is_ok());
    assert!(validate_ipv6_address("1::").is_ok());
    assert!(validate_ipv6_address("2001:db8::1").is_ok());
    assert!(validate_ipv6_address("1:2:3:4:5:6:7::").is_ok());
}

#[test]
fn ipv6_second_double_colon() {
    assert!(matches!(
        validate_ipv6_address("2001:db8::1::2"),
        Err(ErrorKind::TooManyDoubleColons)
    ));
    assert!(matches!(
        validate_ipv6_address("::1::"),
        Err(ErrorKind::TooManyDoubleColons)
    ));
    assert!(matches!(
        validate_ipv6_address("1::::2"),
        Err(ErrorKind::TooManyDoubleColons)
    ));
    assert!(matches!(
        validate_ipv6_address("::::"),
        Err(ErrorKind::TooManyDoubleColons)
    ));
    assert!(matches!(
        validate_ipv6_address(":::"),
        Err(ErrorKind::TooManyDoubleColons)
    ));
    assert!(matches!(
        validate_ipv6_address("1:::2"),
        Err(ErrorKind::TooManyDoubleColons)
    ));
    assert!(matches!(
        validate_ipv6_address("2001:db8:85a3::8a2e::"),
        Err(ErrorKind::TooManyDoubleColons)
    ));
}

#[test]
fn ipv6_too_many_digits() {
    assert!(matches!(validate_ipv6_address("20001:db8:85a3::1"), Err(ErrorKind::TooManyDigits)));
    assert!(matches!(validate_ipv6_address("::abcde"), Err(ErrorKind::TooManyDigits)));
    assert!(matches!(validate_ipv6_address("1:12345::"), Err(ErrorKind::TooManyDigits)));
    assert!(matches!(validate_ipv6_address("1:a2345::"), Err(ErrorKind::TooManyDigits)));
}

#[test]
fn ipv6_group_counts() {
    assert!(matches!(validate_ipv6_address(""), Err(ErrorKind::TooFewAddressParts)));
    assert!(matches!(validate_ipv6_address("1:2:3:4:5:6:7"), Err(ErrorKind::TooFewAddressParts)));
    assert!(matches!(
        validate_ipv6_address("1:2:3:4:5:6:7:8:9"),
        Err(ErrorKind::TooManyAddressParts)
    ));
    assert!(matches!(
        validate_ipv6_address("1::2:3:4:5:6:7:8"),
        Err(ErrorKind::TooManyAddressParts)
    ));
}

#[test]
fn ipv6_truncated() {
    assert!(matches!(validate_ipv6_address(":"), Err(ErrorKind::TruncatedHost)));
    assert!(matches!(
        validate_ipv6_address("2001:db8:85a3::8a2e:0:"),
        Err(ErrorKind::TruncatedHost)
    ));
}

#[test]
fn ipv6_bad_character() {
    assert!(matches!(
        validate_ipv6_address("g::"),
        Err(ErrorKind::InvalidCharacter(Context::Ipv6Address))
    ));
    assert!(matches!(
        validate_ipv6_address(":1"),
        Err(ErrorKind::InvalidCharacter(Context::Ipv6Address))
    ));
    assert!(matches!(
        validate_ipv6_address("a.b"),
        Err(ErrorKind::InvalidCharacter(Context::Ipv6Address))
    ));
    assert!(matches!(
        validate_ipv6_address("::1%eth0"),
        Err(ErrorKind::InvalidCharacter(Context::Ipv6Address))
    ));
}

#[test]
fn ipv6_with_ipv4_tail() {
    assert!(validate_ipv6_address("::ffff:192.0.2.1").is_ok());
    assert!(validate_ipv6_address("::1.2.3.4").is_ok());
    assert!(validate_ipv6_address("1:2:3:4:5:6:1.2.3.4").is_ok());
}

#[test]
fn ipv6_ipv4_tail_counts_as_two_groups() {
    assert!(matches!(
        validate_ipv6_address("1:2:3:4:5:6:7:1.2.3.4"),
        Err(ErrorKind::TooManyAddressParts)
    ));
    assert!(matches!(
        validate_ipv6_address("1:2:3:4:5:1.2.3.4"),
        Err(ErrorKind::TooFewAddressParts)
    ));
}

#[test]
fn ipv6_bad_ipv4_tail() {
    assert!(matches!(validate_ipv6_address("::ffff:1.2.3"), Err(ErrorKind::TooFewAddressParts)));
    assert!(matches!(
        validate_ipv6_address("::ffff:1.2.3.4.8"),
        Err(ErrorKind::TooManyAddressParts)
    ));
    assert!(matches!(
        validate_ipv6_address("::ffff:1.2.3.256"),
        Err(ErrorKind::InvalidDecimalOctet)
    ));
    assert!(matches!(validate_ipv6_address("::ffff:1.2.3."), Err(ErrorKind::TruncatedHost)));
    assert!(matches!(
        validate_ipv6_address("::ffff:1.2.3.4:5"),
        Err(ErrorKind::InvalidCharacter(Context::Ipv4Address))
    ));
}
