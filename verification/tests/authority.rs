use http::error::ErrorKind;
use http::uri::authority::{parse_host_port, Authority};
use http::uri::codec::Context;

#[test]
fn user_host_and_port() {
    let authority = Authority::parse("user:pass@example.com:8080").unwrap();
    assert_eq!(authority.userinfo(), Some(&b"user:pass".to_vec()));
    assert_eq!(authority.host(), &b"example.com".to_vec());
    assert_eq!(authority.port(), Some(8080));
}

#[test]
fn ipv6_with_ipv4_tail_and_port() {
    let authority = Authority::parse("[::ffff:192.0.2.1]:443").unwrap();
    assert_eq!(authority.userinfo(), None);
    assert_eq!(authority.host(), &b"::ffff:192.0.2.1".to_vec());
    assert_eq!(authority.port(), Some(443));
}

#[test]
fn ipv_future_literal() {
    let authority = Authority::parse("[v1.abc]").unwrap();
    assert_eq!(authority.host(), &b"v1.abc".to_vec());
    assert_eq!(authority.port(), None);
}

#[test]
fn port_out_of_range() {
    assert!(matches!(
        Authority::parse("example.com:99999"),
        Err(ErrorKind::InvalidPortNumber(_))
    ));
}

#[test]
fn two_double_colons() {
    assert!(matches!(
        Authority::parse("[2001:db8::1::2]"),
        Err(ErrorKind::TooManyDoubleColons)
    ));
}

#[test]
fn registered_name_is_case_folded() {
    let (host, port) = parse_host_port("EXAMPLE.com").unwrap();
    assert_eq!(host, b"example.com".to_vec());
    assert_eq!(port, None);
}

#[test]
fn ip_literal_keeps_its_text() {
    let (host, port) = parse_host_port("[::1]").unwrap();
    assert_eq!(host, b"::1".to_vec());
    assert_eq!(port, None);
}

#[test]
fn trailing_dot_name_is_a_registered_name() {
    let (host, port) = parse_host_port("1.2.3.").unwrap();
    assert_eq!(host, b"1.2.3.".to_vec());
    assert_eq!(port, None);
}

#[test]
fn empty_authority() {
    let authority = Authority::parse("").unwrap();
    assert_eq!(authority.userinfo(), None);
    assert_eq!(authority.host(), &Vec::<u8>::new());
    assert_eq!(authority.port(), None);
}

#[test]
fn empty_userinfo_and_empty_port() {
    let authority = Authority::parse("@www.example.com:").unwrap();
    assert_eq!(authority.userinfo(), Some(&Vec::<u8>::new()));
    assert_eq!(authority.host(), &b"www.example.com".to_vec());
    assert_eq!(authority.port(), None);
}

#[test]
fn escapes_in_userinfo_and_host() {
    let authority = Authority::parse("b%40b:%41@%45x%2e%43om:65535").unwrap();
    assert_eq!(authority.userinfo(), Some(&b"b@b:A".to_vec()));
    assert_eq!(authority.host(), &b"ex.com".to_vec());
    assert_eq!(authority.port(), Some(65535));
}

#[test]
fn port_forms() {
    assert_eq!(parse_host_port("example.com:0").unwrap().1, Some(0));
    assert_eq!(parse_host_port("example.com:00080").unwrap().1, Some(80));
    assert_eq!(parse_host_port("example.com:+80").unwrap().1, Some(80));
    assert_eq!(parse_host_port("[::1]:8080").unwrap().1, Some(8080));
    assert_eq!(parse_host_port(":443").unwrap(), (Vec::<u8>::new(), Some(443)));
}

#[test]
fn port_that_is_no_number() {
    assert!(matches!(parse_host_port("example.com:foo"), Err(ErrorKind::InvalidPortNumber(_))));
    assert!(matches!(parse_host_port("example.com:65536"), Err(ErrorKind::InvalidPortNumber(_))));
    assert!(matches!(parse_host_port("example.com:-1"), Err(ErrorKind::InvalidPortNumber(_))));
    assert!(matches!(parse_host_port("example.com:+"), Err(ErrorKind::InvalidPortNumber(_))));
    assert!(matches!(parse_host_port("example.com:8:0"), Err(ErrorKind::InvalidPortNumber(_))));
    assert!(matches!(parse_host_port("example.com: 80"), Err(ErrorKind::InvalidPortNumber(_))));
    assert!(matches!(parse_host_port("[v1.a]:1e3"), Err(ErrorKind::InvalidPortNumber(_))));
}

#[test]
fn host_with_a_character_out_of_place() {
    assert!(matches!(
        parse_host_port("exa^mple.com"),
        Err(ErrorKind::InvalidCharacter(Context::Host))
    ));
    assert!(matches!(
        Authority::parse("a@b@c"),
        Err(ErrorKind::InvalidCharacter(Context::Host))
    ));
    assert!(matches!(
        parse_host_port("[::1]x"),
        Err(ErrorKind::InvalidCharacter(Context::Host))
    ));
    assert!(matches!(
        parse_host_port("[v1.a]/"),
        Err(ErrorKind::InvalidCharacter(Context::Host))
    ));
    assert!(matches!(
        parse_host_port("[::1%eth0]"),
        Err(ErrorKind::InvalidCharacter(Context::Ipv6Address))
    ));
}

#[test]
fn userinfo_with_a_character_out_of_place() {
    assert!(matches!(
        Authority::parse("us^er@example.com"),
        Err(ErrorKind::InvalidCharacter(Context::Userinfo))
    ));
    assert!(matches!(
        Authority::parse("us%ZZer@example.com"),
        Err(ErrorKind::InvalidPercentEncoding)
    ));
    assert!(matches!(
        Authority::parse("us^er@exa^mple.com:foo"),
        Err(ErrorKind::InvalidCharacter(Context::Userinfo))
    ));
}

#[test]
fn truncated_hosts() {
    assert!(matches!(parse_host_port("ex%4"), Err(ErrorKind::TruncatedHost)));
    assert!(matches!(parse_host_port("ex%"), Err(ErrorKind::TruncatedHost)));
    assert!(matches!(parse_host_port("[::1"), Err(ErrorKind::TruncatedHost)));
    assert!(matches!(parse_host_port("["), Err(ErrorKind::TruncatedHost)));
    assert!(matches!(parse_host_port("[v1"), Err(ErrorKind::TruncatedHost)));
    assert!(matches!(parse_host_port("[v1]"), Err(ErrorKind::TruncatedHost)));
    assert!(matches!(parse_host_port("[v1.abc"), Err(ErrorKind::TruncatedHost)));
    assert!(matches!(parse_host_port("[v1.]"), Err(ErrorKind::TruncatedHost)));
}

#[test]
fn bad_escape_in_host() {
    assert!(matches!(parse_host_port("ex%zz"), Err(ErrorKind::InvalidPercentEncoding)));
    assert!(matches!(parse_host_port("ex%4:"), Err(ErrorKind::InvalidPercentEncoding)));
}

#[test]
fn ipv_future_forms() {
    assert_eq!(parse_host_port("[v7.aB]").unwrap().0, b"v7.aB".to_vec());
    assert_eq!(parse_host_port("[vFe.a:b.c]:9").unwrap(), (b"vFe.a:b.c".to_vec(), Some(9)));
    assert!(matches!(
        parse_host_port("[vx.a]"),
        Err(ErrorKind::InvalidCharacter(Context::IpvFuture))
    ));
    assert!(matches!(
        parse_host_port("[v.a]"),
        Err(ErrorKind::InvalidCharacter(Context::IpvFuture))
    ));
    assert!(matches!(
        parse_host_port("[v1.a/]"),
        Err(ErrorKind::InvalidCharacter(Context::IpvFuture))
    ));
}

#[test]
fn ipv6_errors_come_through() {
    assert!(matches!(parse_host_port("[]"), Err(ErrorKind::TooFewAddressParts)));
    assert!(matches!(parse_host_port("[1:2:3:4:5:6:7:8:9]"), Err(ErrorKind::TooManyAddressParts)));
    assert!(matches!(parse_host_port("[12345::]"), Err(ErrorKind::TooManyDigits)));
    assert!(matches!(parse_host_port("[::ffff:1.2.3.256]"), Err(ErrorKind::InvalidDecimalOctet)));
    assert!(matches!(parse_host_port("[2001:db8:85a3::8a2e:0:]"), Err(ErrorKind::TruncatedHost)));
}

#[test]
fn ip_literal_keeps_its_case() {
    assert_eq!(parse_host_port("[2001:DB8::Ab]").unwrap().0, b"2001:DB8::Ab".to_vec());
    assert_eq!(parse_host_port("[vF.ABC]").unwrap().0, b"vF.ABC".to_vec());
}

#[test]
fn escaped_capitals_are_folded_too() {
    assert_eq!(parse_host_port("%41BC.Example.COM").unwrap().0, b"abc.example.com".to_vec());
}

#[test]
fn split_at_the_first_at_sign() {
    let (userinfo, rest) = Authority::parse_userinfo("joe:pw@example.com:80").unwrap();
    assert_eq!(userinfo, Some(b"joe:pw".to_vec()));
    assert_eq!(rest, "example.com:80");
    let (userinfo, rest) = Authority::parse_userinfo("example.com").unwrap();
    assert_eq!(userinfo, None);
    assert_eq!(rest, "example.com");
    let (userinfo, rest) = Authority::parse_userinfo("a@b@c").unwrap();
    assert_eq!(userinfo, Some(b"a".to_vec()));
    assert_eq!(rest, "b@c");
}

#[test]
fn port_error_is_the_one_of_parsing() {
    match parse_host_port("example.com:99999") {
        Err(ErrorKind::InvalidPortNumber(error)) => {
            assert_eq!(error, "99999".parse::<u16>().unwrap_err())
        }
        _ => panic!("expected an invalid port number"),
    }
    match parse_host_port("example.com:8o") {
        Err(ErrorKind::InvalidPortNumber(error)) => {
            assert_eq!(error, "8o".parse::<u16>().unwrap_err())
        }
        _ => panic!("expected an invalid port number"),
    }
}

#[test]
fn colons_directly_behind_a_double_colon() {
    assert!(matches!(parse_host_port("[1::::2]"), Err(ErrorKind::TooManyDoubleColons)));
    assert!(matches!(parse_host_port("[:::]:80"), Err(ErrorKind::TooManyDoubleColons)));
}
