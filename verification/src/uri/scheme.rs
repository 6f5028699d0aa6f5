//! The scheme of a URI, after RFC 3986, section 3.1.
use crate::chars_sets::{is_scheme, scheme_chars};
use crate::error::{ErrorKind, ErrorView};
use vstd::prelude::*;

verus! {

/// The longest scheme that is accepted, in bytes.
pub const MAX_SCHEME_LEN: usize = 64;

/// The scheme of a URI.
#[derive(Debug)]
pub enum Scheme {
    /// No scheme at all.
    NoScheme,
    Standard(Protocol),
    Other(String),
}

/// The schemes of HTTP.
#[derive(Debug, Clone, Copy, PartialEq, Eq, Structural)]
pub enum Protocol {
    Http,
    Https,
}

/// What a [`Scheme`] holds.
pub enum SchemeView {
    NoScheme,
    Standard(Protocol),
    Other(Seq<char>),
}

impl View for Scheme {
    type V = SchemeView;

    open spec fn view(&self) -> SchemeView {
        match self {
            Scheme::NoScheme => SchemeView::NoScheme,
            Scheme::Standard(p) => SchemeView::Standard(*p),
            Scheme::Other(s) => SchemeView::Other(s@),
        }
    }
}

/// Whether every character may stand in a scheme.
pub open spec fn all_scheme_chars(text: Seq<char>) -> bool {
    forall|i: int| 0 <= i < text.len() ==> scheme_chars().contains(#[trigger] text[i])
}

/// What `text` gives as a scheme. One of more than [`MAX_SCHEME_LEN`]
/// bytes is too long; then one with a character that no scheme may hold is
/// invalid; `http` and `https` are the standard ones; any other is kept as
/// it is written.
pub open spec fn parse_scheme_spec(text: Seq<char>) -> Result<SchemeView, ErrorView> {
    let length = vstd::utf8::encode_utf8(text).len();
    if length > MAX_SCHEME_LEN {
        Err(ErrorView::InvalidSchemeLength(length as usize))
    } else if !all_scheme_chars(text) {
        Err(ErrorView::InvalidScheme(text))
    } else if text == seq!['h', 't', 't', 'p'] {
        Ok(SchemeView::Standard(Protocol::Http))
    } else if text == seq!['h', 't', 't', 'p', 's'] {
        Ok(SchemeView::Standard(Protocol::Https))
    } else {
        Ok(SchemeView::Other(text))
    }
}

/// The view of a parsed scheme or its error.
pub open spec fn parsed_view(r: Result<Scheme, ErrorKind>) -> Result<SchemeView, ErrorView> {
    match r {
        Ok(scheme) => Ok(scheme@),
        Err(e) => Err(e@),
    }
}

fn has_only_scheme_chars(text: &str) -> (b: bool)
    ensures
        b == all_scheme_chars(text@),
{
    for c in it: text.chars()
        invariant
            it.seq() == text@,
            forall|i: int| 0 <= i < it.index() ==> scheme_chars().contains(#[trigger] text@[i]),
    {
        if !is_scheme(c) {
            return false;
        }
    }
    true
}

/// Whether `text` is `http` followed by `tail`, where `tail` is empty or
/// the one character.
fn is_http_with(text: &str, tail: Option<char>) -> (b: bool)
    ensures
        b == (text@ == match tail {
            Some(c) => seq!['h', 't', 't', 'p', c],
            None => seq!['h', 't', 't', 'p'],
        }),
{
    let total = text.unicode_len();
    let expected: usize = if tail.is_some() {
        5
    } else {
        4
    };
    if total != expected {
        return false;
    }
    let head = text.get_char(0) == 'h' && text.get_char(1) == 't' && text.get_char(2) == 't'
        && text.get_char(3) == 'p';
    let b = match tail {
        Some(c) => head && text.get_char(4) == c,
        None => head,
    };
    proof {
        match tail {
            Some(c) => {
                if b {
                    assert(text@ =~= seq!['h', 't', 't', 'p', c]);
                }
            },
            None => {
                if b {
                    assert(text@ =~= seq!['h', 't', 't', 'p']);
                }
            },
        }
    }
    b
}

impl Scheme {
    /// Parses a URI scheme string and validates its correctness: see
    /// [`parse_scheme_spec`].
    pub fn parse(uri_str: &str) -> (r: Result<Scheme, ErrorKind>)
        ensures
            parsed_view(r) == parse_scheme_spec(uri_str@),
    {
        let uri_len = uri_str.as_bytes().len();

        if uri_len > MAX_SCHEME_LEN {
            return Err(ErrorKind::InvalidSchemeLength(uri_len));
        }
        if !has_only_scheme_chars(uri_str) {
            return Err(ErrorKind::InvalidScheme(uri_str.to_owned()));
        }
        if is_http_with(uri_str, None) {
            Ok(Scheme::Standard(Protocol::Http))
        } else if is_http_with(uri_str, Some('s')) {
            Ok(Scheme::Standard(Protocol::Https))
        } else {
            Ok(Scheme::Other(uri_str.to_owned()))
        }
    }
}

} // verus!
