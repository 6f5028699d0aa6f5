use http::error::ErrorKind;
use http::status::StatusCode;
use http::uri::codec::Context;
use http::uri::scheme::{Protocol, Scheme};

#[test]
fn standard_schemes() {
    assert!(matches!(Scheme::parse("http"), Ok(Scheme::Standard(Protocol::Http))));
    assert!(matches!(Scheme::parse("https"), Ok(Scheme::Standard(Protocol::Https))));
}

#[test]
fn other_schemes() {
    match Scheme::parse("hts") {
        Ok(Scheme::Other(name)) => assert_eq!(name, "hts"),
        _ => panic!("expected another scheme"),
    }
    match Scheme::parse("HTTP") {
        Ok(Scheme::Other(name)) => assert_eq!(name, "HTTP"),
        _ => panic!("expected another scheme"),
    }
    match Scheme::parse("httpx") {
        Ok(Scheme::Other(name)) => assert_eq!(name, "httpx"),
        _ => panic!("expected another scheme"),
    }
    match Scheme::parse("") {
        Ok(Scheme::Other(name)) => assert_eq!(name, ""),
        _ => panic!("expected another scheme"),
    }
    match Scheme::parse("svn+ssh-2.0") {
        Ok(Scheme::Other(name)) => assert_eq!(name, "svn+ssh-2.0"),
        _ => panic!("expected another scheme"),
    }
}

#[test]
fn invalid_scheme() {
    match Scheme::parse("ht tp") {
        Err(ErrorKind::InvalidScheme(text)) => assert_eq!(text, "ht tp"),
        _ => panic!("expected an invalid scheme"),
    }
    assert!(matches!(Scheme::parse("http:"), Err(ErrorKind::InvalidScheme(_))));
}

#[test]
fn scheme_length() {
    let longest = "a".repeat(64);
    assert!(matches!(Scheme::parse(&longest), Ok(Scheme::Other(_))));
    let too_long = "a".repeat(65);
    assert!(matches!(Scheme::parse(&too_long), Err(ErrorKind::InvalidSchemeLength(65))));
    let too_long_and_invalid = " ".repeat(70);
    assert!(matches!(
        Scheme::parse(&too_long_and_invalid),
        Err(ErrorKind::InvalidSchemeLength(70))
    ));
}

#[test]
fn status_codes() {
    assert_eq!(StatusCode::Continue.as_u16(), 100);
    assert_eq!(StatusCode::OK.as_u16(), 200);
    assert_eq!(StatusCode::IMUsed.as_u16(), 226);
    assert_eq!(StatusCode::PermanentRedirect.as_u16(), 308);
    assert_eq!(StatusCode::NotFound.as_u16(), 404);
    assert_eq!(StatusCode::UnavailableForLegalReasons.as_u16(), 451);
    assert_eq!(StatusCode::NetworkAuthenticationRequired.as_u16(), 511);
}

#[test]
fn status_classes() {
    assert!(StatusCode::EarlyHints.is_informational());
    assert!(!StatusCode::EarlyHints.is_success());
    assert!(StatusCode::NoContent.is_success());
    assert!(!StatusCode::NoContent.is_redirection());
    assert!(StatusCode::Found.is_redirection());
    assert!(!StatusCode::Found.is_client_error());
    assert!(StatusCode::Gone.is_client_error());
    assert!(!StatusCode::Gone.is_server_error());
    assert!(StatusCode::BadGateway.is_server_error());
    assert!(!StatusCode::BadGateway.is_informational());
}

#[test]
fn error_messages() {
    assert_eq!(ErrorKind::InvalidPercentEncoding.message(), "Invalid percent encoding");
    assert_eq!(
        ErrorKind::InvalidCharacter(Context::Ipv6Address).message(),
        "Invalid character in IPv6 address"
    );
    assert_eq!(
        ErrorKind::InvalidCharacter(Context::Userinfo).message(),
        "Invalid character in user info"
    );
    assert_eq!(ErrorKind::TooFewAddressParts.message(), "too few address parts");
    assert_eq!(ErrorKind::TooManyAddressParts.message(), "too many address parts");
    assert_eq!(ErrorKind::TruncatedHost.message(), "truncated host");
    assert_eq!(ErrorKind::InvalidDecimalOctet.message(), "octet group expected");
    assert_eq!(ErrorKind::TooManyDoubleColons.message(), "too many double-colons in IPv6 address");
    assert_eq!(ErrorKind::TooManyDigits.message(), "too many digits in IPv6 address part");
    assert_eq!(ErrorKind::InvalidSchemeLength(70).message(), "Invalid scheme length");
    assert_eq!(ErrorKind::InvalidScheme(String::new()).message(), "Invalid scheme string");
    assert_eq!(ErrorKind::InvalidStatusCode(String::new()).message(), "Invalid status code");
    assert_eq!(ErrorKind::InvalidAuthority(String::new()).message(), "Invalid authority string");
}
