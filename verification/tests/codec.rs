use http::chars_sets::{alpha, unreserved, CharacterSet};
use http::error::ErrorKind;
use http::uri::codec::{decode_element, encode_element, Context, PercentEncodedCharacterDecoder};

#[test]
fn decoder_takes_two_digits() {
    let mut decoder = PercentEncodedCharacterDecoder::new();
    assert!(matches!(decoder.next('4'), Ok(None)));
    assert!(matches!(decoder.next('1'), Ok(Some(0x41))));
    assert!(matches!(decoder.next('f'), Ok(None)));
    assert!(matches!(decoder.next('F'), Ok(Some(0xff))));
    assert!(matches!(decoder.next('0'), Ok(None)));
    assert!(matches!(decoder.next('a'), Ok(Some(0x0a))));
}

#[test]
fn decoder_resets_after_an_error() {
    let mut decoder = PercentEncodedCharacterDecoder::new();
    assert!(matches!(decoder.next('4'), Ok(None)));
    assert!(matches!(decoder.next('G'), Err(ErrorKind::InvalidPercentEncoding)));
    assert!(matches!(decoder.next('2'), Ok(None)));
    assert!(matches!(decoder.next('0'), Ok(Some(0x20))));
    assert!(matches!(decoder.next('%'), Err(ErrorKind::InvalidPercentEncoding)));
}

#[test]
fn decode_plain_and_escaped() {
    let allowed = unreserved();
    assert_eq!(decode_element("abc", &allowed, Context::Path).unwrap(), b"abc".to_vec());
    assert_eq!(decode_element("a%20b", &allowed, Context::Path).unwrap(), b"a b".to_vec());
    assert_eq!(decode_element("%41%5a%7E", &allowed, Context::Path).unwrap(), b"AZ~".to_vec());
    assert_eq!(decode_element("", &allowed, Context::Path).unwrap(), Vec::<u8>::new());
}

#[test]
fn decoded_bytes_are_not_checked_against_the_set() {
    let allowed = alpha();
    assert_eq!(
        decode_element("a%2Fb%00", &allowed, Context::Query).unwrap(),
        vec![0x61, 0x2f, 0x62, 0]
    );
}

#[test]
fn decode_rejects_a_character_outside_the_set() {
    let allowed = unreserved();
    assert!(matches!(
        decode_element("a^b", &allowed, Context::Query),
        Err(ErrorKind::InvalidCharacter(Context::Query))
    ));
    assert!(matches!(
        decode_element("a b", &allowed, Context::Fragment),
        Err(ErrorKind::InvalidCharacter(Context::Fragment))
    ));
    assert!(matches!(
        decode_element("\u{e9}", &allowed, Context::Userinfo),
        Err(ErrorKind::InvalidCharacter(Context::Userinfo))
    ));
}

#[test]
fn decode_rejects_a_bad_escape() {
    let allowed = unreserved();
    assert!(matches!(
        decode_element("foo%GG", &allowed, Context::Query),
        Err(ErrorKind::InvalidPercentEncoding)
    ));
    assert!(matches!(
        decode_element("%4^", &allowed, Context::Query),
        Err(ErrorKind::InvalidPercentEncoding)
    ));
    assert!(matches!(
        decode_element("%^ab", &allowed, Context::Query),
        Err(ErrorKind::InvalidPercentEncoding)
    ));
}

#[test]
fn decode_drops_an_escape_cut_short() {
    let allowed = unreserved();
    assert_eq!(decode_element("abc%4", &allowed, Context::Path).unwrap(), b"abc".to_vec());
    assert_eq!(decode_element("abc%", &allowed, Context::Path).unwrap(), b"abc".to_vec());
}

#[test]
fn encode_writes_upper_case_escapes() {
    let allowed = unreserved();
    assert_eq!(encode_element(b"abc", &allowed), "abc");
    assert_eq!(encode_element(b"a b", &allowed), "a%20b");
    assert_eq!(encode_element(&[0x00, 0x0a, 0xff, 0x7f, 0xab], &allowed), "%00%0A%FF%7F%AB");
    assert_eq!(encode_element(b"100%", &allowed), "100%25");
    assert_eq!(encode_element(b"", &allowed), "");
}

#[test]
fn encode_keeps_a_byte_whose_character_is_in_the_set() {
    let mut allowed = CharacterSet::new();
    allowed.insert('\u{e9}');
    allowed.insert('a');
    assert_eq!(encode_element(&[0xe9, 0x61, 0x62], &allowed), "\u{e9}a%62");
    assert_eq!(
        decode_element("\u{e9}a%62", &allowed, Context::Path).unwrap(),
        vec![0xe9, 0x61, 0x62]
    );
}

#[test]
fn decode_undoes_encode_on_every_byte() {
    let allowed = unreserved();
    let bytes: Vec<u8> = (0..=255u8).collect();
    let encoded = encode_element(&bytes, &allowed);
    assert_eq!(decode_element(&encoded, &allowed, Context::Path).unwrap(), bytes);
}

#[test]
fn decode_undoes_encode_on_bytes_of_the_set() {
    let allowed = unreserved();
    let bytes = b"AZaz09-._~".to_vec();
    let encoded = encode_element(&bytes, &allowed);
    assert_eq!(encoded, "AZaz09-._~");
    assert_eq!(decode_element(&encoded, &allowed, Context::Path).unwrap(), bytes);
}

#[test]
fn context_names() {
    assert_eq!(Context::Fragment.name(), "fragment");
    assert_eq!(Context::Host.name(), "host");
    assert_eq!(Context::Ipv4Address.name(), "IPv4 address");
    assert_eq!(Context::Ipv6Address.name(), "IPv6 address");
    assert_eq!(Context::IpvFuture.name(), "IPvFuture");
    assert_eq!(Context::Path.name(), "path");
    assert_eq!(Context::Query.name(), "query");
    assert_eq!(Context::Scheme.name(), "scheme");
    assert_eq!(Context::Userinfo.name(), "user info");
}
