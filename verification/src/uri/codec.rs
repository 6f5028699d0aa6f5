//! Percent-encoding: the decoder of one escape, and decoding and encoding of
//! a whole element against a set of characters that may stand unescaped.
use crate::chars_sets::CharacterSet;
use crate::error::{ErrorKind, ErrorView};
use vstd::prelude::*;

verus! {

/// The places where an error might occur parsing a URI.
#[derive(Debug, Clone, Copy, PartialEq, Eq, Structural)]
pub enum Context {
    /// The fragment, such as `#baz`.
    Fragment,
    /// The host name, such as `www.example.com`.
    Host,
    /// The IPv4 portion of an IPv6 host name, such as `1.2.3.4` in
    /// `[::ffff:1.2.3.4]`.
    Ipv4Address,
    /// The IPv6 host name, such as `::ffff:1.2.3.4`.
    Ipv6Address,
    /// The `IPvFuture` host name, such as `v7.aB`.
    IpvFuture,
    /// The path, such as `/foo`.
    Path,
    /// The query, such as `?bar`.
    Query,
    /// The scheme, such as `http`.
    Scheme,
    /// The user information, such as `nobody` in `nobody@www.example.com`.
    Userinfo,
}

impl Context {
    /// The words for the place, as they stand in a message.
    pub open spec fn name_spec(self) -> Seq<char> {
        match self {
            Context::Fragment => "fragment"@,
            Context::Host => "host"@,
            Context::Ipv4Address => "IPv4 address"@,
            Context::Ipv6Address => "IPv6 address"@,
            Context::IpvFuture => "IPvFuture"@,
            Context::Path => "path"@,
            Context::Query => "query"@,
            Context::Scheme => "scheme"@,
            Context::Userinfo => "user info"@,
        }
    }

    /// The words for the place, as they stand in a message.
    pub fn name(&self) -> (r: &'static str)
        ensures
            r@ == self.name_spec(),
    {
        match self {
            Context::Fragment => "fragment",
            Context::Host => "host",
            Context::Ipv4Address => "IPv4 address",
            Context::Ipv6Address => "IPv6 address",
            Context::IpvFuture => "IPvFuture",
            Context::Path => "path",
            Context::Query => "query",
            Context::Scheme => "scheme",
            Context::Userinfo => "user info",
        }
    }
}

/// The value of a hexadecimal digit of either case; `None` for any other
/// character.
pub open spec fn hex_digit_value(c: char) -> Option<u8> {
    if '0' <= c <= '9' {
        Some((c as u32 - '0' as u32) as u8)
    } else if 'a' <= c <= 'f' {
        Some((c as u32 - 'a' as u32 + 10) as u8)
    } else if 'A' <= c <= 'F' {
        Some((c as u32 - 'A' as u32 + 10) as u8)
    } else {
        None
    }
}

/// The upper-case hexadecimal digit of a value below 16.
pub open spec fn upper_hex_digit(n: u8) -> char {
    if n < 10 {
        ((n + '0' as u8) as u8) as char
    } else {
        ((n - 10 + 'A' as u8) as u8) as char
    }
}

/// The byte that a character is cut down to: its code point modulo 256.
pub open spec fn low_byte(c: char) -> u8 {
    (c as u32 % 256) as u8
}

fn hex_digit(c: char) -> (r: Option<u8>)
    ensures
        r == hex_digit_value(c),
{
    if '0' <= c && c <= '9' {
        Some((c as u32 - '0' as u32) as u8)
    } else if 'a' <= c && c <= 'f' {
        Some((c as u32 - 'a' as u32 + 10) as u8)
    } else if 'A' <= c && c <= 'F' {
        Some((c as u32 - 'A' as u32 + 10) as u8)
    } else {
        None
    }
}

fn to_upper_hex_digit(n: u8) -> (c: char)
    requires
        n < 16,
    ensures
        c == upper_hex_digit(n),
{
    if n < 10 {
        (n + '0' as u8) as char
    } else {
        (n - 10 + 'A' as u8) as char
    }
}

/// Decodes one escape, digit by digit: the two hexadecimal digits that
/// follow a `%`.
pub struct PercentEncodedCharacterDecoder {
    decoded_character: u8,
    digits_left: usize,
}

impl PercentEncodedCharacterDecoder {
    /// Either no digit has been taken in and the value is 0, or one has and
    /// the value is that digit's.
    pub closed spec fn wf(&self) -> bool {
        ||| self.digits_left == 2 && self.decoded_character == 0
        ||| self.digits_left == 1 && self.decoded_character < 16
    }

    /// The value of the first digit, once it has been taken in and until the
    /// second one arrives.
    pub closed spec fn pending(&self) -> Option<u8> {
        if self.digits_left == 1 {
            Some(self.decoded_character)
        } else {
            None
        }
    }

    /// A decoder that has taken in no digit.
    pub fn new() -> (d: Self)
        ensures
            d.wf(),
            d.pending() is None,
    {
        Self { decoded_character: 0, digits_left: 2 }
    }

    /// Takes in one character of an escape. A character that is no
    /// hexadecimal digit is an error; the first digit is kept; the second
    /// completes the byte. After an error or a byte the decoder is as new.
    pub fn next(&mut self, c: char) -> (r: Result<Option<u8>, ErrorKind>)
        requires
            old(self).wf(),
        ensures
            final(self).wf(),
            match (hex_digit_value(c), old(self).pending()) {
                (None, _) => r matches Err(ErrorKind::InvalidPercentEncoding)
                    && final(self).pending() is None,
                (Some(d), None) => r == Ok::<Option<u8>, ErrorKind>(None) && final(self).pending()
                    == Some(d),
                (Some(d), Some(h)) => r == Ok::<Option<u8>, ErrorKind>(Some((16 * h + d) as u8))
                    && final(self).pending() is None,
            },
    {
        match self.shift_in_hex_digit(c) {
            Err(e) => {
                return Err(e);
            },
            Ok(()) => {},
        }
        self.digits_left -= 1;
        if self.digits_left == 0 {
            let output = self.decoded_character;
            self.reset();
            Ok(Some(output))
        } else {
            Ok(None)
        }
    }

    fn reset(&mut self)
        ensures
            final(self).wf(),
            final(self).pending() is None,
    {
        self.decoded_character = 0;
        self.digits_left = 2;
    }

    fn shift_in_hex_digit(&mut self, c: char) -> (r: Result<(), ErrorKind>)
        requires
            old(self).wf(),
        ensures
            match hex_digit_value(c) {
                None => r matches Err(ErrorKind::InvalidPercentEncoding) && final(self).wf()
                    && final(self).pending() is None,
                Some(d) => r is Ok && final(self).digits_left == old(self).digits_left
                    && final(self).decoded_character == 16 * old(self).decoded_character + d,
            },
    {
        self.decoded_character = self.decoded_character * 16;
        if let Some(ci) = hex_digit(c) {
            self.decoded_character += ci;
        } else {
            self.reset();
            return Err(ErrorKind::InvalidPercentEncoding);
        }
        Ok(())
    }
}

/// `bytes` in front of what `rest` holds, or the error of `rest`.
pub open spec fn prepend_bytes(bytes: Seq<u8>, rest: Result<Seq<u8>, ErrorView>) -> Result<
    Seq<u8>,
    ErrorView,
> {
    match rest {
        Ok(tail) => Ok(bytes + tail),
        Err(e) => Err(e),
    }
}

/// What decoding `text` gives. A character from `allowed` stands for its
/// low byte; `%` with two hexadecimal digits stands for the byte they
/// spell, whether or not `allowed` holds it. The first other character
/// fails: behind a `%` as `InvalidPercentEncoding`, elsewhere as
/// `InvalidCharacter(context)`. An escape that the end of `text` cuts short
/// adds nothing.
pub open spec fn decode_spec(text: Seq<char>, allowed: Set<char>, context: Context) -> Result<
    Seq<u8>,
    ErrorView,
>
    decreases text.len(),
{
    if text.len() == 0 {
        Ok(Seq::empty())
    } else if text[0] == '%' {
        if text.len() == 1 {
            Ok(Seq::empty())
        } else if hex_digit_value(text[1]) is None {
            Err(ErrorView::InvalidPercentEncoding)
        } else if text.len() == 2 {
            Ok(Seq::empty())
        } else if hex_digit_value(text[2]) is None {
            Err(ErrorView::InvalidPercentEncoding)
        } else {
            prepend_bytes(
                seq![
                    (16 * hex_digit_value(text[1]).unwrap() + hex_digit_value(
                        text[2],
                    ).unwrap()) as u8,
                ],
                decode_spec(text.skip(3), allowed, context),
            )
        }
    } else if allowed.contains(text[0]) {
        prepend_bytes(seq![low_byte(text[0])], decode_spec(text.skip(1), allowed, context))
    } else {
        Err(ErrorView::InvalidCharacter(context))
    }
}

/// How one byte is written: as the character it stands for where `allowed`
/// holds that character, else as `%` and two upper-case hexadecimal digits.
pub open spec fn encode_byte(b: u8, allowed: Set<char>) -> Seq<char> {
    if allowed.contains(b as char) {
        seq![b as char]
    } else {
        seq!['%', upper_hex_digit(b / 16), upper_hex_digit(b % 16)]
    }
}

/// What encoding `bytes` gives: the bytes as [`encode_byte`] writes them,
/// one after the other.
pub open spec fn encode_spec(bytes: Seq<u8>, allowed: Set<char>) -> Seq<char>
    decreases bytes.len(),
{
    if bytes.len() == 0 {
        Seq::empty()
    } else {
        encode_byte(bytes[0], allowed) + encode_spec(bytes.skip(1), allowed)
    }
}

proof fn lemma_prepend_twice(a: Seq<u8>, b: Seq<u8>, rest: Result<Seq<u8>, ErrorView>)
    ensures
        prepend_bytes(a + b, rest) == prepend_bytes(a, prepend_bytes(b, rest)),
{
    if let Ok(tail) = rest {
        assert((a + b) + tail =~= a + (b + tail));
    }
}

/// The view of a decoding result.
pub open spec fn decoded_view(r: Result<Vec<u8>, ErrorKind>) -> Result<Seq<u8>, ErrorView> {
    match r {
        Ok(bytes) => Ok(bytes@),
        Err(e) => Err(e@),
    }
}

/// Decodes `element`: see [`decode_spec`].
pub fn decode_element(element: &str, allowed_characters: &CharacterSet, context: Context) -> (r:
    Result<Vec<u8>, ErrorKind>)
    ensures
        decoded_view(r) == decode_spec(element@, allowed_characters@, context),
{
    let mut decoding_pec = false;
    let mut pec_decoder = PercentEncodedCharacterDecoder::new();
    let mut out: Vec<u8> = Vec::new();
    // Where the part of the element begins that the output does not yet
    // account for: at the `%` of the escape that is being read, if any.
    let ghost mut start: int = 0;
    let ghost text = element@;
    let ghost allowed = allowed_characters@;
    assert(text.skip(0) =~= text);
    for c in it: element.chars()
        invariant
            it.seq() == text,
            text == element@,
            allowed == allowed_characters@,
            pec_decoder.wf(),
            0 <= start <= it.index(),
            decode_spec(text, allowed, context) == prepend_bytes(
                out@,
                decode_spec(text.skip(start), allowed, context),
            ),
            !decoding_pec ==> start == it.index() && pec_decoder.pending() is None,
            decoding_pec ==> text[start] == '%' && (start == it.index() - 1 || start == it.index()
                - 2),
            decoding_pec && start == it.index() - 1 ==> pec_decoder.pending() is None,
            decoding_pec && start == it.index() - 2 ==> pec_decoder.pending() == hex_digit_value(
                text[start + 1],
            ) && pec_decoder.pending() is Some,
    {
        let ghost i = it.index();
        let ghost rest = text.skip(start);
        if decoding_pec {
            match pec_decoder.next(c) {
                Err(e) => {
                    return Err(e);
                },
                Ok(None) => {},
                Ok(Some(b)) => {
                    assert(rest.skip(3) =~= text.skip(i + 1));
                    proof {
                        lemma_prepend_twice(
                            out@,
                            seq![b],
                            decode_spec(text.skip(i + 1), allowed, context),
                        );
                    }
                    assert(out@.push(b) =~= out@ + seq![b]);
                    out.push(b);
                    decoding_pec = false;
                    proof {
                        start = i + 1;
                    }
                },
            }
        } else if c == '%' {
            decoding_pec = true;
        } else if allowed_characters.contains(c) {
            let b: u8 = (c as u32 % 256) as u8;
            assert(rest.skip(1) =~= text.skip(i + 1));
            proof {
                lemma_prepend_twice(
                    out@,
                    seq![b],
                    decode_spec(text.skip(i + 1), allowed, context),
                );
            }
            assert(out@.push(b) =~= out@ + seq![b]);
            out.push(b);
            proof {
                start = i + 1;
            }
        } else {
            return Err(ErrorKind::InvalidCharacter(context));
        }
    }
    Ok(out)
}

/// Encodes `element`: see [`encode_spec`].
pub fn encode_element(element: &[u8], allowed_characters: &CharacterSet) -> (encoding: String)
    ensures
        encoding@ == encode_spec(element@, allowed_characters@),
{
    let mut encoding = String::new();
    let ghost allowed = allowed_characters@;
    let mut i: usize = 0;
    assert(element@.skip(0) =~= element@);
    while i < element.len()
        invariant
            0 <= i <= element@.len(),
            allowed == allowed_characters@,
            encoding@ + encode_spec(element@.skip(i as int), allowed) == encode_spec(
                element@,
                allowed,
            ),
        decreases element@.len() - i,
    {
        let ci: u8 = element[i];
        let c: char = ci as char;
        let ghost rest = element@.skip(i as int);
        assert(rest.skip(1) =~= element@.skip(i + 1));
        if allowed_characters.contains(c) {
            encoding.push(c);
        } else {
            encoding.push('%');
            encoding.push(to_upper_hex_digit(ci / 16));
            encoding.push(to_upper_hex_digit(ci % 16));
        }
        i += 1;
    }
    encoding
}

/// Decoding undoes encoding: what [`encode_spec`] writes of `bytes`,
/// [`decode_spec`] reads back as `bytes`, with the same set and in any
/// context. The one exception is a set that holds `%` together with a
/// sequence that holds the byte of `%`: that byte is written bare and read
/// back as the start of an escape.
pub proof fn lemma_decode_undoes_encode(bytes: Seq<u8>, allowed: Set<char>, context: Context)
    requires
        allowed.contains('%') ==> !bytes.contains(0x25u8),
    ensures
        decode_spec(encode_spec(bytes, allowed), allowed, context) == Ok::<Seq<u8>, ErrorView>(
            bytes,
        ),
    decreases bytes.len(),
{
    if bytes.len() > 0 {
        let b = bytes[0];
        let rest = bytes.skip(1);
        let text = encode_spec(bytes, allowed);
        assert(forall|x: u8| rest.contains(x) ==> bytes.contains(x));
        lemma_decode_undoes_encode(rest, allowed, context);
        assert(bytes =~= seq![b] + rest);
        let tail = encode_spec(rest, allowed);
        if allowed.contains(b as char) {
            assert(text.skip(1) =~= tail);
        } else {
            assert(text.skip(3) =~= tail);
            lemma_hex_digits_of_byte(b);
        }
    } else {
        assert(bytes =~= Seq::<u8>::empty());
    }
}

/// The two upper-case digits of a byte spell that byte.
proof fn lemma_hex_digits_of_byte(b: u8)
    ensures
        hex_digit_value(upper_hex_digit(b / 16)) == Some((b / 16) as u8),
        hex_digit_value(upper_hex_digit(b % 16)) == Some((b % 16) as u8),
        16 * (b / 16) + b % 16 == b,
{
}

} // verus!
