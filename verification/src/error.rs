//! The failures that parsing reports.
use crate::uri::codec::Context;
use vstd::prelude::*;

verus! {

/// `core::num::ParseIntError`, the error of std's integer parsing, carried
/// through as an opaque value.
#[verifier::external_type_specification]
#[verifier::external_body]
pub struct ExParseIntError(core::num::ParseIntError);

/// What can be wrong with a piece of a URI or of an HTTP message.
#[derive(Debug)]
pub enum ErrorKind {
    /// A status code that is none.
    InvalidStatusCode(String),
    /// A scheme with a character that no scheme may hold.
    InvalidScheme(String),
    /// An authority that is none.
    InvalidAuthority(String),
    /// A scheme of more bytes than are accepted, with their number.
    InvalidSchemeLength(usize),
    /// An incorrect percent encoding, such as `%GG`.
    InvalidPercentEncoding,
    /// A character that is not permitted where it was met.
    InvalidCharacter(Context),
    /// An IP address with missing parts, such as `[::ffff:1.2.3]`.
    TooFewAddressParts,
    /// An IP address with too many parts, such as `[::ffff:1.2.3.4.8]`.
    TooManyAddressParts,
    /// A host that ends too early, such as `[2001:db8:85a3::8a2e:0:]`.
    TruncatedHost,
    /// An IPv4 address with a bad part, such as `[::ffff:1.2.3.256]`.
    InvalidDecimalOctet,
    /// A port that is no 16-bit number, such as `99999` or `foo`.
    InvalidPortNumber(core::num::ParseIntError),
    /// An IPv6 address with more than one `::`.
    TooManyDoubleColons,
    /// An IPv6 address with a group of more than four digits.
    TooManyDigits,
}

/// What an [`ErrorKind`] says, with text as character sequences.
pub enum ErrorView {
    InvalidStatusCode(Seq<char>),
    InvalidScheme(Seq<char>),
    InvalidAuthority(Seq<char>),
    InvalidSchemeLength(usize),
    InvalidPercentEncoding,
    InvalidCharacter(Context),
    TooFewAddressParts,
    TooManyAddressParts,
    TruncatedHost,
    InvalidDecimalOctet,
    InvalidPortNumber(core::num::ParseIntError),
    TooManyDoubleColons,
    TooManyDigits,
}

impl View for ErrorKind {
    type V = ErrorView;

    open spec fn view(&self) -> ErrorView {
        match self {
            ErrorKind::InvalidStatusCode(s) => ErrorView::InvalidStatusCode(s@),
            ErrorKind::InvalidScheme(s) => ErrorView::InvalidScheme(s@),
            ErrorKind::InvalidAuthority(s) => ErrorView::InvalidAuthority(s@),
            ErrorKind::InvalidSchemeLength(n) => ErrorView::InvalidSchemeLength(*n),
            ErrorKind::InvalidPercentEncoding => ErrorView::InvalidPercentEncoding,
            ErrorKind::InvalidCharacter(c) => ErrorView::InvalidCharacter(*c),
            ErrorKind::TooFewAddressParts => ErrorView::TooFewAddressParts,
            ErrorKind::TooManyAddressParts => ErrorView::TooManyAddressParts,
            ErrorKind::TruncatedHost => ErrorView::TruncatedHost,
            ErrorKind::InvalidDecimalOctet => ErrorView::InvalidDecimalOctet,
            ErrorKind::InvalidPortNumber(e) => ErrorView::InvalidPortNumber(*e),
            ErrorKind::TooManyDoubleColons => ErrorView::TooManyDoubleColons,
            ErrorKind::TooManyDigits => ErrorView::TooManyDigits,
        }
    }
}

impl ErrorView {
    /// The message for the error.
    pub open spec fn message(self) -> Seq<char> {
        match self {
            ErrorView::InvalidStatusCode(_) => "Invalid status code"@,
            ErrorView::InvalidScheme(_) => "Invalid scheme string"@,
            ErrorView::InvalidAuthority(_) => "Invalid authority string"@,
            ErrorView::InvalidSchemeLength(_) => "Invalid scheme length"@,
            ErrorView::InvalidPercentEncoding => "Invalid percent encoding"@,
            ErrorView::InvalidCharacter(context) => "Invalid character in "@ + context.name_spec(),
            ErrorView::TooFewAddressParts => "too few address parts"@,
            ErrorView::TooManyAddressParts => "too many address parts"@,
            ErrorView::TruncatedHost => "truncated host"@,
            ErrorView::InvalidDecimalOctet => "octet group expected"@,
            ErrorView::InvalidPortNumber(_) => "invalid port number"@,
            ErrorView::TooManyDoubleColons => "too many double-colons in IPv6 address"@,
            ErrorView::TooManyDigits => "too many digits in IPv6 address part"@,
        }
    }
}

impl ErrorKind {
    /// The message for the error.
    pub fn message(&self) -> (text: String)
        ensures
            text@ == self@.message(),
    {
        match self {
            ErrorKind::InvalidStatusCode(_) => "Invalid status code".to_owned(),
            ErrorKind::InvalidScheme(_) => "Invalid scheme string".to_owned(),
            ErrorKind::InvalidAuthority(_) => "Invalid authority string".to_owned(),
            ErrorKind::InvalidSchemeLength(_) => "Invalid scheme length".to_owned(),
            ErrorKind::InvalidPercentEncoding => "Invalid percent encoding".to_owned(),
            ErrorKind::InvalidCharacter(context) => {
                let mut text = "Invalid character in ".to_owned();
                text.append(context.name());
                text
            },
            ErrorKind::TooFewAddressParts => "too few address parts".to_owned(),
            ErrorKind::TooManyAddressParts => "too many address parts".to_owned(),
            ErrorKind::TruncatedHost => "truncated host".to_owned(),
            ErrorKind::InvalidDecimalOctet => "octet group expected".to_owned(),
            ErrorKind::InvalidPortNumber(_) => "invalid port number".to_owned(),
            ErrorKind::TooManyDoubleColons => "too many double-colons in IPv6 address".to_owned(),
            ErrorKind::TooManyDigits => "too many digits in IPv6 address part".to_owned(),
        }
    }
}

} // verus!
