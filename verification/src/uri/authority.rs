//! The authority of a URI: `userinfo@host:port`, where the host is a
//! registered name, an IPv6 literal in brackets, or an IPvFuture literal in
//! brackets.
use crate::chars_sets::{
    hexdig_chars, ipv_future_last_part_chars, is_hexdig, is_ipv_future_last_part,
    is_reg_name_not_pct_encoded, reg_name_not_pct_encoded_chars, user_info_not_pct_encoded,
    user_info_not_pct_encoded_chars,
};
use crate::error::{ErrorKind, ErrorView};
use crate::text::{find_first, first_index, lemma_first_index, lemma_first_index_is_first};
use crate::uri::codec::{
    decode_element, decode_spec, hex_digit_value, low_byte, prepend_bytes, Context,
    PercentEncodedCharacterDecoder,
};
use crate::uri::ipv4::{all_digits, decimal_value};
use crate::uri::ipv6::{lemma_valid_ipv6_chars, validate_ipv6_address, validate_ipv6_spec};
use vstd::prelude::*;

verus! {

/// A parsed authority. The host is a registered name in lower case, or the
/// text of an IP literal without its brackets.
#[derive(Debug)]
pub struct Authority {
    userinfo: Option<Vec<u8>>,
    host: Vec<u8>,
    port: Option<u16>,
}

/// What an [`Authority`] holds.
pub struct AuthorityView {
    pub userinfo: Option<Seq<u8>>,
    pub host: Seq<u8>,
    pub port: Option<u16>,
}

impl View for Authority {
    type V = AuthorityView;

    closed spec fn view(&self) -> AuthorityView {
        AuthorityView {
            userinfo: match self.userinfo {
                Some(bytes) => Some(bytes@),
                None => None,
            },
            host: self.host@,
            port: self.port,
        }
    }
}

/// What the scan of host and port has gathered.
pub struct SharedView {
    /// The bytes of the host so far.
    pub host: Seq<u8>,
    /// Whether the host is a registered name, not an IP literal.
    pub host_is_reg_name: bool,
    /// The text between the brackets of an IPv6 literal so far.
    pub ipv6_address: Seq<char>,
    /// The first digit of the escape in hand, once it has been read.
    pub pec_pending: Option<u8>,
    /// Whether an IPvFuture literal has a character behind its dot.
    pub ipv_future_body_seen: bool,
    /// The text behind the colon that ends the host.
    pub port_string: Seq<char>,
}

/// Where the scan of host and port stands.
pub enum StateView {
    NotIpLiteral(SharedView),
    PercentEncodedCharacter(SharedView),
    Ipv6Address(SharedView),
    IpvFutureNumber(SharedView),
    IpvFutureBody(SharedView),
    GarbageCheck(SharedView),
    Port(SharedView),
}

impl StateView {
    /// What the state has gathered.
    pub open spec fn shared(self) -> SharedView {
        match self {
            StateView::NotIpLiteral(s) => s,
            StateView::PercentEncodedCharacter(s) => s,
            StateView::Ipv6Address(s) => s,
            StateView::IpvFutureNumber(s) => s,
            StateView::IpvFutureBody(s) => s,
            StateView::GarbageCheck(s) => s,
            StateView::Port(s) => s,
        }
    }
}

/// The byte of each character: see [`low_byte`].
pub open spec fn low_bytes(text: Seq<char>) -> Seq<u8> {
    Seq::new(text.len(), |i: int| low_byte(text[i]))
}

/// The byte with an ASCII capital letter turned into the small one.
pub open spec fn lower_byte(b: u8) -> u8 {
    if 0x41 <= b <= 0x5a {
        (b + 0x20) as u8
    } else {
        b
    }
}

/// The bytes with every ASCII capital letter turned into the small one.
pub open spec fn ascii_lowercase(bytes: Seq<u8>) -> Seq<u8> {
    Seq::new(bytes.len(), |i: int| lower_byte(bytes[i]))
}

/// The digits of a port text: the text without the one `+` that may lead
/// it.
pub open spec fn port_digits(text: Seq<char>) -> Seq<char> {
    if text.len() > 0 && text[0] == '+' {
        text.skip(1)
    } else {
        text
    }
}

/// Whether a text spells a 16-bit number: decimal digits, one or more,
/// that a single `+` may lead, worth at most 65535.
pub open spec fn spells_port(text: Seq<char>) -> bool {
    port_digits(text).len() > 0 && all_digits(port_digits(text)) && decimal_value(
        port_digits(text),
    ) <= 65535
}

/// What ends an authority behind its host: nothing, or a colon and the
/// text of a port.
pub open spec fn port_suffix(port: Option<Seq<char>>) -> Seq<char> {
    match port {
        None => Seq::empty(),
        Some(text) => seq![':'] + text,
    }
}

/// The host with what the text of the port gives: no port where there is
/// no text or an empty one, the number that it spells, or the error of
/// parsing it.
pub open spec fn with_port(host: Seq<u8>, port: Option<Seq<char>>) -> Result<
    (Seq<u8>, Option<u16>),
    ErrorView,
> {
    match port {
        None => Ok((host, None)),
        Some(text) => {
            if text.len() == 0 {
                Ok((host, None))
            } else if spells_port(text) {
                Ok((host, Some(decimal_value(port_digits(text)) as u16)))
            } else {
                Err(ErrorView::InvalidPortNumber(port_number_failure(text)))
            }
        },
    }
}

/// The start of the scan: the state, and the text that is left behind the
/// opening `[v` or `[`.
pub open spec fn initial_state(text: Seq<char>) -> (StateView, Seq<char>) {
    let shared = SharedView {
        host: Seq::empty(),
        host_is_reg_name: false,
        ipv6_address: Seq::empty(),
        pec_pending: None,
        ipv_future_body_seen: false,
        port_string: Seq::empty(),
    };
    if text.len() >= 2 && text[0] == '[' && text[1] == 'v' {
        (StateView::IpvFutureNumber(SharedView { host: seq![0x76u8], ..shared }), text.skip(2))
    } else if text.len() >= 1 && text[0] == '[' {
        (StateView::Ipv6Address(shared), text.skip(1))
    } else {
        (StateView::NotIpLiteral(SharedView { host_is_reg_name: true, ..shared }), text)
    }
}

/// One step of the scan of host and port.
pub open spec fn next_state(state: StateView, c: char) -> Result<StateView, ErrorView> {
    match state {
        StateView::NotIpLiteral(s) => {
            if c == '%' {
                Ok(StateView::PercentEncodedCharacter(s))
            } else if c == ':' {
                Ok(StateView::Port(s))
            } else if reg_name_not_pct_encoded_chars().contains(c) {
                Ok(StateView::NotIpLiteral(SharedView { host: s.host.push(low_byte(c)), ..s }))
            } else {
                Err(ErrorView::InvalidCharacter(Context::Host))
            }
        },
        StateView::PercentEncodedCharacter(s) => {
            match (hex_digit_value(c), s.pec_pending) {
                (None, _) => Err(ErrorView::InvalidPercentEncoding),
                (Some(d), None) => Ok(
                    StateView::PercentEncodedCharacter(SharedView { pec_pending: Some(d), ..s }),
                ),
                (Some(d), Some(h)) => Ok(
                    StateView::NotIpLiteral(
                        SharedView {
                            host: s.host.push((16 * h + d) as u8),
                            pec_pending: None,
                            ..s
                        },
                    ),
                ),
            }
        },
        StateView::Ipv6Address(s) => {
            if c == ']' {
                match validate_ipv6_spec(s.ipv6_address) {
                    Err(e) => Err(e),
                    Ok(()) => Ok(
                        StateView::GarbageCheck(
                            SharedView { host: low_bytes(s.ipv6_address), ..s },
                        ),
                    ),
                }
            } else {
                Ok(
                    StateView::Ipv6Address(
                        SharedView { ipv6_address: s.ipv6_address.push(c), ..s },
                    ),
                )
            }
        },
        StateView::IpvFutureNumber(s) => {
            if c == '.' {
                if s.host.len() < 2 {
                    Err(ErrorView::InvalidCharacter(Context::IpvFuture))
                } else {
                    Ok(StateView::IpvFutureBody(SharedView { host: s.host.push(0x2eu8), ..s }))
                }
            } else if c == ']' {
                Err(ErrorView::TruncatedHost)
            } else if hexdig_chars().contains(c) {
                Ok(StateView::IpvFutureNumber(SharedView { host: s.host.push(low_byte(c)), ..s }))
            } else {
                Err(ErrorView::InvalidCharacter(Context::IpvFuture))
            }
        },
        StateView::IpvFutureBody(s) => {
            if c == ']' {
                if s.ipv_future_body_seen {
                    Ok(StateView::GarbageCheck(s))
                } else {
                    Err(ErrorView::TruncatedHost)
                }
            } else if ipv_future_last_part_chars().contains(c) {
                Ok(
                    StateView::IpvFutureBody(
                        SharedView {
                            host: s.host.push(low_byte(c)),
                            ipv_future_body_seen: true,
                            ..s
                        },
                    ),
                )
            } else {
                Err(ErrorView::InvalidCharacter(Context::IpvFuture))
            }
        },
        StateView::GarbageCheck(s) => {
            if c == ':' {
                Ok(StateView::Port(s))
            } else {
                Err(ErrorView::InvalidCharacter(Context::Host))
            }
        },
        StateView::Port(s) => Ok(
            StateView::Port(SharedView { port_string: s.port_string.push(c), ..s }),
        ),
    }
}

/// The result at the end of the text. Ending inside an escape or inside
/// brackets is a truncation. Else the host is what was gathered, in lower
/// case where it is a registered name, and the port is what the text behind
/// the colon gives: see [`with_port`].
pub open spec fn finalize_state(state: StateView) -> Result<(Seq<u8>, Option<u16>), ErrorView> {
    match state {
        StateView::PercentEncodedCharacter(_)
        | StateView::Ipv6Address(_)
        | StateView::IpvFutureNumber(_)
        | StateView::IpvFutureBody(_) => Err(ErrorView::TruncatedHost),
        StateView::NotIpLiteral(s) | StateView::GarbageCheck(s) | StateView::Port(s) => {
            let host = if s.host_is_reg_name {
                ascii_lowercase(s.host)
            } else {
                s.host
            };
            with_port(host, Some(s.port_string))
        },
    }
}

/// The state after `text`, character by character from `state`, or the
/// first error on the way.
pub open spec fn scan(state: StateView, text: Seq<char>) -> Result<StateView, ErrorView>
    decreases text.len(),
{
    if text.len() == 0 {
        Ok(state)
    } else {
        match next_state(state, text[0]) {
            Ok(next) => scan(next, text.skip(1)),
            Err(e) => Err(e),
        }
    }
}

/// What `text` gives as host and port.
pub open spec fn parse_host_port_spec(text: Seq<char>) -> Result<
    (Seq<u8>, Option<u16>),
    ErrorView,
> {
    let (state, rest) = initial_state(text);
    match scan(state, rest) {
        Ok(end) => finalize_state(end),
        Err(e) => Err(e),
    }
}

/// An authority from its parts: the user information and what host and
/// port give, or the error of the first of them that has one.
pub open spec fn with_userinfo(
    userinfo: Option<Result<Seq<u8>, ErrorView>>,
    host_port: Result<(Seq<u8>, Option<u16>), ErrorView>,
) -> Result<AuthorityView, ErrorView> {
    match userinfo {
        Some(Err(e)) => Err(e),
        Some(Ok(bytes)) => match host_port {
            Err(e) => Err(e),
            Ok((host, port)) => Ok(AuthorityView { userinfo: Some(bytes), host, port }),
        },
        None => match host_port {
            Err(e) => Err(e),
            Ok((host, port)) => Ok(AuthorityView { userinfo: None, host, port }),
        },
    }
}

/// What `text` gives as an authority. Up to the first `@`, if there is one,
/// stands the user information, percent-encoded; behind it, or in the whole
/// text, host and port. An error in the user information comes first.
pub open spec fn parse_spec(text: Seq<char>) -> Result<AuthorityView, ErrorView> {
    let delimiter = first_index(text, '@');
    if delimiter < text.len() {
        with_userinfo(
            Some(
                decode_spec(
                    text.take(delimiter as int),
                    user_info_not_pct_encoded_chars(),
                    Context::Userinfo,
                ),
            ),
            parse_host_port_spec(text.skip(delimiter as int + 1)),
        )
    } else {
        with_userinfo(None, parse_host_port_spec(text))
    }
}

/// The view of a parsed authority or its error.
pub open spec fn parsed_view(r: Result<Authority, ErrorKind>) -> Result<AuthorityView, ErrorView> {
    match r {
        Ok(authority) => Ok(authority@),
        Err(e) => Err(e@),
    }
}

/// The view of a parsed host and port or their error.
pub open spec fn host_port_view(r: Result<(Vec<u8>, Option<u16>), ErrorKind>) -> Result<
    (Seq<u8>, Option<u16>),
    ErrorView,
> {
    match r {
        Ok((host, port)) => Ok((host@, port)),
        Err(e) => Err(e@),
    }
}

/// The error that `str::parse::<u16>` returns for a text that spells no
/// 16-bit number: it goes by the text alone.
pub uninterp spec fn port_number_failure(text: Seq<char>) -> core::num::ParseIntError;

/// `str::parse::<u16>`, std's parsing of a decimal 16-bit number. It
/// succeeds on decimal digits, one or more, that a single `+` may lead and
/// that are worth at most 65535, and then returns their value; on any other
/// text it fails, with the error that [`port_number_failure`] names.
#[verifier::external_body]
fn parse_port_number(text: &str) -> (r: Result<u16, core::num::ParseIntError>)
    ensures
        r is Ok <==> spells_port(text@),
        r matches Ok(port) ==> port == decimal_value(port_digits(text@)),
        r matches Err(e) ==> e == port_number_failure(text@),
{
    text.parse::<u16>()
}

struct Shared {
    host: Vec<u8>,
    host_is_reg_name: bool,
    ipv6_address: String,
    pec_decoder: PercentEncodedCharacterDecoder,
    ipv_future_body_seen: bool,
    port_string: String,
}

enum State {
    NotIpLiteral(Shared),
    PercentEncodedCharacter(Shared),
    Ipv6Address(Shared),
    IpvFutureNumber(Shared),
    IpvFutureBody(Shared),
    GarbageCheck(Shared),
    Port(Shared),
}

impl View for Shared {
    type V = SharedView;

    closed spec fn view(&self) -> SharedView {
        SharedView {
            host: self.host@,
            host_is_reg_name: self.host_is_reg_name,
            ipv6_address: self.ipv6_address@,
            pec_pending: self.pec_decoder.pending(),
            ipv_future_body_seen: self.ipv_future_body_seen,
            port_string: self.port_string@,
        }
    }
}

impl View for State {
    type V = StateView;

    closed spec fn view(&self) -> StateView {
        match self {
            State::NotIpLiteral(s) => StateView::NotIpLiteral(s@),
            State::PercentEncodedCharacter(s) => StateView::PercentEncodedCharacter(s@),
            State::Ipv6Address(s) => StateView::Ipv6Address(s@),
            State::IpvFutureNumber(s) => StateView::IpvFutureNumber(s@),
            State::IpvFutureBody(s) => StateView::IpvFutureBody(s@),
            State::GarbageCheck(s) => StateView::GarbageCheck(s@),
            State::Port(s) => StateView::Port(s@),
        }
    }
}

impl Shared {
    spec fn wf(&self) -> bool {
        self.pec_decoder.wf()
    }
}

spec fn step_view(r: Result<State, ErrorKind>) -> Result<StateView, ErrorView> {
    match r {
        Ok(state) => Ok(state@),
        Err(e) => Err(e@),
    }
}

spec fn step_wf(r: Result<State, ErrorKind>) -> bool {
    match r {
        Ok(state) => state.wf(),
        Err(_) => true,
    }
}

/// Turns every ASCII capital letter into the small one.
fn make_ascii_lowercase(bytes: &mut Vec<u8>)
    ensures
        final(bytes)@ == ascii_lowercase(old(bytes)@),
{
    let mut i: usize = 0;
    while i < bytes.len()
        invariant
            0 <= i <= bytes@.len(),
            bytes@.len() == old(bytes)@.len(),
            forall|j: int| 0 <= j < i ==> bytes@[j] == lower_byte(old(bytes)@[j]),
            forall|j: int| i <= j < bytes@.len() ==> bytes@[j] == old(bytes)@[j],
        decreases bytes@.len() - i,
    {
        let b = bytes[i];
        if 0x41 <= b && b <= 0x5a {
            bytes.set(i, b + 0x20);
        }
        i += 1;
    }
}

/// The byte of each character of `text`.
fn to_low_bytes(text: &str) -> (bytes: Vec<u8>)
    ensures
        bytes@ == low_bytes(text@),
{
    let mut bytes: Vec<u8> = Vec::new();
    for c in it: text.chars()
        invariant
            it.seq() == text@,
            bytes@.len() == it.index(),
            forall|j: int| 0 <= j < bytes@.len() ==> bytes@[j] == low_byte(text@[j]),
    {
        bytes.push((c as u32 % 256) as u8);
    }
    bytes
}

impl State {
    spec fn wf(&self) -> bool {
        match self {
            State::NotIpLiteral(s) => s.wf(),
            State::PercentEncodedCharacter(s) => s.wf(),
            State::Ipv6Address(s) => s.wf(),
            State::IpvFutureNumber(s) => s.wf(),
            State::IpvFutureBody(s) => s.wf(),
            State::GarbageCheck(s) => s.wf(),
            State::Port(s) => s.wf(),
        }
    }

    fn finalize(self) -> (r: Result<(Vec<u8>, Option<u16>), ErrorKind>)
        ensures
            host_port_view(r) == finalize_state(self@),
    {
        match self {
            Self::PercentEncodedCharacter(_)
            | Self::Ipv6Address(_)
            | Self::IpvFutureNumber(_)
            | Self::IpvFutureBody(_) => {
                // truncated or ended early
                Err(ErrorKind::TruncatedHost)
            },
            Self::NotIpLiteral(state) | Self::GarbageCheck(state) | Self::Port(state) => {
                let mut state = state;
                if state.host_is_reg_name {
                    make_ascii_lowercase(&mut state.host);
                }
                let port = if state.port_string.as_str().unicode_len() == 0 {
                    None
                } else {
                    match parse_port_number(state.port_string.as_str()) {
                        Ok(port) => Some(port),
                        Err(error) => {
                            return Err(ErrorKind::InvalidPortNumber(error));
                        },
                    }
                };
                Ok((state.host, port))
            },
        }
    }

    fn new(host_port_string: &str) -> (r: (Self, &str))
        ensures
            r.0.wf(),
            (r.0@, r.1@) == initial_state(host_port_string@),
    {
        let mut shared = Shared {
            host: Vec::<u8>::new(),
            host_is_reg_name: false,
            ipv6_address: String::new(),
            pec_decoder: PercentEncodedCharacterDecoder::new(),
            ipv_future_body_seen: false,
            port_string: String::new(),
        };
        let total = host_port_string.unicode_len();
        if total >= 2 && host_port_string.get_char(0) == '[' && host_port_string.get_char(1)
            == 'v' {
            let rest = host_port_string.substring_char(2, total);
            shared.host.push(0x76u8);
            (Self::IpvFutureNumber(shared), rest)
        } else if total >= 1 && host_port_string.get_char(0) == '[' {
            let rest = host_port_string.substring_char(1, total);
            (Self::Ipv6Address(shared), rest)
        } else {
            shared.host_is_reg_name = true;
            (Self::NotIpLiteral(shared), host_port_string)
        }
    }

    fn next(self, c: char) -> (r: Result<Self, ErrorKind>)
        requires
            self.wf(),
        ensures
            step_wf(r),
            step_view(r) == next_state(self@, c),
    {
        match self {
            Self::NotIpLiteral(state) => Self::next_not_ip_literal(state, c),
            Self::PercentEncodedCharacter(state) => Self::next_percent_encoded_character(state, c),
            Self::Ipv6Address(state) => Self::next_ipv6_address(state, c),
            Self::IpvFutureNumber(state) => Self::next_ipv_future_number(state, c),
            Self::IpvFutureBody(state) => Self::next_ipv_future_body(state, c),
            Self::GarbageCheck(state) => Self::next_garbage_check(state, c),
            Self::Port(state) => Ok(Self::next_port(state, c)),
        }
    }

    fn next_not_ip_literal(state: Shared, c: char) -> (r: Result<Self, ErrorKind>)
        requires
            state.wf(),
        ensures
            step_wf(r),
            step_view(r) == next_state(StateView::NotIpLiteral(state@), c),
    {
        let mut state = state;
        if c == '%' {
            Ok(Self::PercentEncodedCharacter(state))
        } else if c == ':' {
            Ok(Self::Port(state))
        } else if is_reg_name_not_pct_encoded(c) {
            state.host.push((c as u32 % 256) as u8);
            Ok(Self::NotIpLiteral(state))
        } else {
            Err(ErrorKind::InvalidCharacter(Context::Host))
        }
    }

    fn next_percent_encoded_character(state: Shared, c: char) -> (r: Result<Self, ErrorKind>)
        requires
            state.wf(),
        ensures
            step_wf(r),
            step_view(r) == next_state(StateView::PercentEncodedCharacter(state@), c),
    {
        let mut state = state;
        match state.pec_decoder.next(c) {
            Err(e) => Err(e),
            Ok(Some(ci)) => {
                state.host.push(ci);
                Ok(Self::NotIpLiteral(state))
            },
            Ok(None) => Ok(Self::PercentEncodedCharacter(state)),
        }
    }

    fn next_ipv6_address(state: Shared, c: char) -> (r: Result<Self, ErrorKind>)
        requires
            state.wf(),
        ensures
            step_wf(r),
            step_view(r) == next_state(StateView::Ipv6Address(state@), c),
    {
        let mut state = state;
        if c == ']' {
            match validate_ipv6_address(state.ipv6_address.as_str()) {
                Err(e) => {
                    return Err(e);
                },
                Ok(()) => {},
            }
            state.host = to_low_bytes(state.ipv6_address.as_str());
            Ok(Self::GarbageCheck(state))
        } else {
            state.ipv6_address.push(c);
            Ok(Self::Ipv6Address(state))
        }
    }

    fn next_ipv_future_number(state: Shared, c: char) -> (r: Result<Self, ErrorKind>)
        requires
            state.wf(),
        ensures
            step_wf(r),
            step_view(r) == next_state(StateView::IpvFutureNumber(state@), c),
    {
        let mut state = state;
        if c == '.' {
            if state.host.len() < 2 {
                return Err(ErrorKind::InvalidCharacter(Context::IpvFuture));
            }
            state.host.push(0x2eu8);
            Ok(Self::IpvFutureBody(state))
        } else if c == ']' {
            Err(ErrorKind::TruncatedHost)
        } else if is_hexdig(c) {
            state.host.push((c as u32 % 256) as u8);
            Ok(Self::IpvFutureNumber(state))
        } else {
            Err(ErrorKind::InvalidCharacter(Context::IpvFuture))
        }
    }

    fn next_ipv_future_body(state: Shared, c: char) -> (r: Result<Self, ErrorKind>)
        requires
            state.wf(),
        ensures
            step_wf(r),
            step_view(r) == next_state(StateView::IpvFutureBody(state@), c),
    {
        let mut state = state;
        if c == ']' {
            if state.ipv_future_body_seen {
                Ok(Self::GarbageCheck(state))
            } else {
                Err(ErrorKind::TruncatedHost)
            }
        } else if is_ipv_future_last_part(c) {
            state.host.push((c as u32 % 256) as u8);
            state.ipv_future_body_seen = true;
            Ok(Self::IpvFutureBody(state))
        } else {
            Err(ErrorKind::InvalidCharacter(Context::IpvFuture))
        }
    }

    fn next_garbage_check(state: Shared, c: char) -> (r: Result<Self, ErrorKind>)
        requires
            state.wf(),
        ensures
            step_wf(r),
            step_view(r) == next_state(StateView::GarbageCheck(state@), c),
    {
        // illegal to have anything else, unless it's a colon,
        // in which case it's a port delimiter
        if c == ':' {
            Ok(Self::Port(state))
        } else {
            Err(ErrorKind::InvalidCharacter(Context::Host))
        }
    }

    fn next_port(state: Shared, c: char) -> (next: Self)
        requires
            state.wf(),
        ensures
            next.wf(),
            Ok::<StateView, ErrorView>(next@) == next_state(StateView::Port(state@), c),
    {
        let mut state = state;
        state.port_string.push(c);
        Self::Port(state)
    }
}

/// Parses host and port: see [`parse_host_port_spec`].
pub fn parse_host_port(host_port_string: &str) -> (r: Result<(Vec<u8>, Option<u16>), ErrorKind>)
    ensures
        host_port_view(r) == parse_host_port_spec(host_port_string@),
{
    let (machine, rest) = State::new(host_port_string);
    let mut machine = machine;
    let ghost start = machine@;
    let ghost text = rest@;
    assert(text.skip(0) =~= text);
    for c in it: rest.chars()
        invariant
            it.seq() == text,
            (start, text) == initial_state(host_port_string@),
            machine.wf(),
            scan(start, text) == scan(machine@, text.skip(it.index())),
    {
        let ghost i = it.index();
        assert(text.skip(i).skip(1) =~= text.skip(i + 1));
        match machine.next(c) {
            Ok(next) => {
                machine = next;
            },
            Err(e) => {
                return Err(e);
            },
        }
    }
    machine.finalize()
}

impl Authority {
    /// Parses an authority: see [`parse_spec`].
    pub fn parse(authority_string: &str) -> (r: Result<Self, ErrorKind>)
        ensures
            parsed_view(r) == parse_spec(authority_string@),
    {
        let (userinfo, host_port_string) = match Self::parse_userinfo(authority_string) {
            Ok(parts) => parts,
            Err(e) => {
                return Err(e);
            },
        };
        let (host, port) = match parse_host_port(host_port_string) {
            Ok(parts) => parts,
            Err(e) => {
                return Err(e);
            },
        };
        Ok(Self { userinfo, host, port })
    }

    /// Splits at the first `@` and decodes what stands before it.
    pub fn parse_userinfo(authority: &str) -> (r: Result<(Option<Vec<u8>>, &str), ErrorKind>)
        ensures
            ({
                let delimiter = first_index(authority@, '@');
                if delimiter < authority@.len() {
                    match decode_spec(
                        authority@.take(delimiter as int),
                        user_info_not_pct_encoded_chars(),
                        Context::Userinfo,
                    ) {
                        Err(e) => r is Err && r.unwrap_err()@ == e,
                        Ok(userinfo) => r is Ok && r.unwrap().0 is Some && r.unwrap().0.unwrap()@
                            == userinfo && r.unwrap().1@ == authority@.skip(delimiter as int + 1),
                    }
                } else {
                    r is Ok && r.unwrap().0 is None && r.unwrap().1@ == authority@
                }
            }),
    {
        let total = authority.unicode_len();
        let delimiter = find_first(authority, '@');
        if delimiter < total {
            let before = authority.substring_char(0, delimiter);
            let behind = authority.substring_char(delimiter + 1, total);
            let allowed = user_info_not_pct_encoded();
            match decode_element(before, &allowed, Context::Userinfo) {
                Ok(userinfo) => Ok((Some(userinfo), behind)),
                Err(e) => Err(e),
            }
        } else {
            Ok((None, authority))
        }
    }

    /// The user information, decoded, if there is any.
    pub fn userinfo(&self) -> (r: Option<&Vec<u8>>)
        ensures
            match r {
                Some(bytes) => self@.userinfo == Some(bytes@),
                None => self@.userinfo is None,
            },
    {
        self.userinfo.as_ref()
    }

    /// The host.
    pub fn host(&self) -> (r: &Vec<u8>)
        ensures
            r@ == self@.host,
    {
        &self.host
    }

    /// The port, if there is one.
    pub fn port(&self) -> (r: Option<u16>)
        ensures
            r == self@.port,
    {
        self.port
    }
}

/// Whether no byte is an ASCII capital letter.
pub open spec fn no_ascii_capital(bytes: Seq<u8>) -> bool {
    forall|i: int| 0 <= i < bytes.len() ==> !(0x41 <= #[trigger] bytes[i] <= 0x5a)
}

proof fn lemma_scan_keeps_kind(state: StateView, text: Seq<char>)
    ensures
        scan(state, text) is Ok ==> scan(state, text)->Ok_0.shared().host_is_reg_name
            == state.shared().host_is_reg_name,
    decreases text.len(),
{
    if text.len() > 0 {
        match next_state(state, text[0]) {
            Ok(next) => lemma_scan_keeps_kind(next, text.skip(1)),
            Err(_) => {},
        }
    }
}

/// A registered name comes out in lower case: where the text does not open
/// with `[` and is accepted, the host holds no ASCII capital letter.
pub proof fn lemma_reg_name_is_lower_case(text: Seq<char>)
    requires
        text.len() == 0 || text[0] != '[',
    ensures
        parse_host_port_spec(text) is Ok ==> no_ascii_capital(parse_host_port_spec(text)->Ok_0.0),
{
    let (state, rest) = initial_state(text);
    lemma_scan_keeps_kind(state, rest);
}

/// Whether `host` is, byte for character, what stands in `text` between
/// the `[` that opens it and a `]`, and is not empty.
pub open spec fn is_bracket_interior(host: Seq<u8>, text: Seq<char>) -> bool {
    &&& 0 < host.len()
    &&& host.len() + 1 < text.len()
    &&& text[0] == '['
    &&& text[host.len() as int + 1] == ']'
    &&& forall|i: int| 0 <= i < host.len() ==> (#[trigger] host[i]) as char == text[i + 1]
}

spec fn is_ascii_char(c: char) -> bool {
    (c as u32) < 128
}

proof fn lemma_low_byte_of_ascii(c: char)
    requires
        is_ascii_char(c),
    ensures
        low_byte(c) as char == c,
{
}

proof fn lemma_scan_keeps_host(state: StateView, text: Seq<char>)
    requires
        state is GarbageCheck || state is Port,
    ensures
        scan(state, text) is Ok ==> scan(state, text)->Ok_0.shared().host == state.shared().host,
    decreases text.len(),
{
    if text.len() > 0 {
        match next_state(state, text[0]) {
            Ok(next) => lemma_scan_keeps_host(next, text.skip(1)),
            Err(_) => {},
        }
    }
}

proof fn lemma_scan_ipv6_literal(s: SharedView, rest: Seq<char>)
    ensures
        ({
            let r = scan(StateView::Ipv6Address(s), rest);
            let full = s.ipv6_address + rest;
            r is Ok && finalize_state(r->Ok_0) is Ok ==> {
                let host = r->Ok_0.shared().host;
                &&& s.ipv6_address.len() <= host.len() < full.len()
                &&& full[host.len() as int] == ']'
                &&& host == low_bytes(full.take(host.len() as int))
                &&& validate_ipv6_spec(full.take(host.len() as int)) is Ok
            }
        }),
    decreases rest.len(),
{
    let full = s.ipv6_address + rest;
    if rest.len() > 0 {
        let c = rest[0];
        if c == ']' {
            if validate_ipv6_spec(s.ipv6_address) is Ok {
                let next = StateView::GarbageCheck(
                    SharedView { host: low_bytes(s.ipv6_address), ..s },
                );
                lemma_scan_keeps_host(next, rest.skip(1));
                assert(full.take(s.ipv6_address.len() as int) =~= s.ipv6_address);
            }
        } else {
            let longer = SharedView { ipv6_address: s.ipv6_address.push(c), ..s };
            lemma_scan_ipv6_literal(longer, rest.skip(1));
            assert(longer.ipv6_address + rest.skip(1) =~= full);
        }
    }
}

proof fn lemma_scan_ipv_future(state: StateView, rest: Seq<char>)
    requires
        state is IpvFutureNumber || state is IpvFutureBody,
    ensures
        ({
            let r = scan(state, rest);
            let before = state.shared().host;
            r is Ok && finalize_state(r->Ok_0) is Ok ==> {
                let host = r->Ok_0.shared().host;
                let k = host.len() - before.len();
                &&& 0 <= k < rest.len()
                &&& rest[k] == ']'
                &&& host == before + low_bytes(rest.take(k))
                &&& forall|j: int| 0 <= j < k ==> is_ascii_char(#[trigger] rest[j])
            }
        }),
    decreases rest.len(),
{
    let before = state.shared().host;
    if rest.len() > 0 {
        let c = rest[0];
        match next_state(state, c) {
            Ok(next) => {
                let r = scan(next, rest.skip(1));
                if next is GarbageCheck {
                    lemma_scan_keeps_host(next, rest.skip(1));
                } else {
                    lemma_scan_ipv_future(next, rest.skip(1));
                    if r is Ok && finalize_state(r->Ok_0) is Ok {
                        let host = r->Ok_0.shared().host;
                        let k = host.len() - before.len();
                        assert forall|j: int| 0 <= j < k implies is_ascii_char(
                            #[trigger] rest[j],
                        ) by {
                            if j > 0 {
                                assert(rest.skip(1)[j - 1] == rest[j]);
                            }
                        }
                    }
                }
            },
            Err(_) => {},
        }
    }
}

/// An IP literal is kept as it is written: where the text opens with `[`
/// and is accepted, the host is, byte for character and in the case it was
/// written in, what stands between the brackets, and that is not nothing.
pub proof fn lemma_ip_literal_is_kept(text: Seq<char>)
    requires
        text.len() > 0,
        text[0] == '[',
    ensures
        parse_host_port_spec(text) is Ok ==> is_bracket_interior(
            parse_host_port_spec(text)->Ok_0.0,
            text,
        ),
{
    let (state, rest) = initial_state(text);
    lemma_scan_keeps_kind(state, rest);
    if parse_host_port_spec(text) is Ok {
        let host = parse_host_port_spec(text)->Ok_0.0;
        if text.len() >= 2 && text[1] == 'v' {
            lemma_scan_ipv_future(state, rest);
            assert forall|i: int| 0 <= i < host.len() implies (#[trigger] host[i]) as char
                == text[i + 1] by {
                if i > 0 {
                    lemma_low_byte_of_ascii(rest[i - 1]);
                }
            }
        } else {
            lemma_scan_ipv6_literal(state.shared(), rest);
            let interior = rest.take(host.len() as int);
            lemma_valid_ipv6_chars(interior);
            assert forall|i: int| 0 <= i < host.len() implies (#[trigger] host[i]) as char
                == text[i + 1] by {
                lemma_low_byte_of_ascii(interior[i]);
            }
        }
    }
}

/// Whether every character may stand unescaped in a registered name.
pub open spec fn plain_reg_name(name: Seq<char>) -> bool {
    forall|i: int|
        0 <= i < name.len() ==> reg_name_not_pct_encoded_chars().contains(#[trigger] name[i])
}

/// Whether every character is a hexadecimal digit.
pub open spec fn all_hexdig(text: Seq<char>) -> bool {
    forall|i: int| 0 <= i < text.len() ==> hexdig_chars().contains(#[trigger] text[i])
}

/// Whether every character may stand behind the dot of an IPvFuture
/// literal.
pub open spec fn all_ipv_future_last_part(text: Seq<char>) -> bool {
    forall|i: int|
        0 <= i < text.len() ==> ipv_future_last_part_chars().contains(#[trigger] text[i])
}

proof fn lemma_scan_concat(state: StateView, a: Seq<char>, b: Seq<char>)
    ensures
        scan(state, a + b) == match scan(state, a) {
            Ok(mid) => scan(mid, b),
            Err(e) => Err(e),
        },
    decreases a.len(),
{
    if a.len() > 0 {
        assert((a + b).skip(1) =~= a.skip(1) + b);
        match next_state(state, a[0]) {
            Ok(next) => lemma_scan_concat(next, a.skip(1), b),
            Err(_) => {},
        }
    } else {
        assert(a + b =~= b);
    }
}

proof fn lemma_scan_one(state: StateView, c: char)
    ensures
        scan(state, seq![c]) == next_state(state, c),
{
    let text = seq![c];
    match next_state(state, c) {
        Ok(next) => {
            assert(scan(next, text.skip(1)) == Ok::<StateView, ErrorView>(next));
        },
        Err(_) => {},
    }
}

proof fn lemma_scan_port(s: SharedView, text: Seq<char>)
    ensures
        scan(StateView::Port(s), text) == Ok::<StateView, ErrorView>(
            StateView::Port(SharedView { port_string: s.port_string + text, ..s }),
        ),
    decreases text.len(),
{
    if text.len() > 0 {
        let longer = SharedView { port_string: s.port_string.push(text[0]), ..s };
        lemma_scan_port(longer, text.skip(1));
        assert(longer.port_string + text.skip(1) =~= s.port_string + text);
    } else {
        assert(s.port_string + text =~= s.port_string);
    }
}

/// The host as it comes out at the end: in lower case where it is a
/// registered name.
spec fn final_host(s: SharedView) -> Seq<u8> {
    if s.host_is_reg_name {
        ascii_lowercase(s.host)
    } else {
        s.host
    }
}

proof fn lemma_scan_suffix(state: StateView, port: Option<Seq<char>>)
    requires
        state is NotIpLiteral || state is GarbageCheck,
        state.shared().port_string.len() == 0,
    ensures
        scan(state, port_suffix(port)) is Ok,
        finalize_state(scan(state, port_suffix(port))->Ok_0) == with_port(
            final_host(state.shared()),
            port,
        ),
{
    match port {
        None => {},
        Some(text) => {
            lemma_scan_concat(state, seq![':'], text);
            lemma_scan_one(state, ':');
            lemma_scan_port(state.shared(), text);
            assert(state.shared().port_string + text =~= text);
        },
    }
}

proof fn lemma_scan_name(s: SharedView, name: Seq<char>)
    requires
        plain_reg_name(name),
    ensures
        scan(StateView::NotIpLiteral(s), name) == Ok::<StateView, ErrorView>(
            StateView::NotIpLiteral(SharedView { host: s.host + low_bytes(name), ..s }),
        ),
    decreases name.len(),
{
    if name.len() > 0 {
        let c = name[0];
        assert(reg_name_not_pct_encoded_chars().contains(c));
        let longer = SharedView { host: s.host.push(low_byte(c)), ..s };
        assert(plain_reg_name(name.skip(1)));
        lemma_scan_name(longer, name.skip(1));
        assert(longer.host + low_bytes(name.skip(1)) =~= s.host + low_bytes(name));
    } else {
        assert(s.host + low_bytes(name) =~= s.host);
    }
}

proof fn lemma_scan_interior(s: SharedView, text: Seq<char>)
    requires
        forall|i: int| 0 <= i < text.len() ==> text[i] != ']',
    ensures
        scan(StateView::Ipv6Address(s), text) == Ok::<StateView, ErrorView>(
            StateView::Ipv6Address(SharedView { ipv6_address: s.ipv6_address + text, ..s }),
        ),
    decreases text.len(),
{
    if text.len() > 0 {
        let longer = SharedView { ipv6_address: s.ipv6_address.push(text[0]), ..s };
        lemma_scan_interior(longer, text.skip(1));
        assert(longer.ipv6_address + text.skip(1) =~= s.ipv6_address + text);
    } else {
        assert(s.ipv6_address + text =~= s.ipv6_address);
    }
}

proof fn lemma_scan_version(s: SharedView, version: Seq<char>)
    requires
        all_hexdig(version),
    ensures
        scan(StateView::IpvFutureNumber(s), version) == Ok::<StateView, ErrorView>(
            StateView::IpvFutureNumber(SharedView { host: s.host + low_bytes(version), ..s }),
        ),
    decreases version.len(),
{
    if version.len() > 0 {
        let c = version[0];
        assert(hexdig_chars().contains(c));
        let longer = SharedView { host: s.host.push(low_byte(c)), ..s };
        assert(all_hexdig(version.skip(1)));
        lemma_scan_version(longer, version.skip(1));
        assert(longer.host + low_bytes(version.skip(1)) =~= s.host + low_bytes(version));
    } else {
        assert(s.host + low_bytes(version) =~= s.host);
    }
}

proof fn lemma_scan_body(s: SharedView, body: Seq<char>)
    requires
        all_ipv_future_last_part(body),
    ensures
        scan(StateView::IpvFutureBody(s), body) == Ok::<StateView, ErrorView>(
            StateView::IpvFutureBody(
                SharedView {
                    host: s.host + low_bytes(body),
                    ipv_future_body_seen: s.ipv_future_body_seen || body.len() > 0,
                    ..s
                },
            ),
        ),
    decreases body.len(),
{
    if body.len() > 0 {
        let c = body[0];
        assert(ipv_future_last_part_chars().contains(c));
        let longer = SharedView {
            host: s.host.push(low_byte(c)),
            ipv_future_body_seen: true,
            ..s
        };
        assert(all_ipv_future_last_part(body.skip(1)));
        lemma_scan_body(longer, body.skip(1));
        assert(longer.host + low_bytes(body.skip(1)) =~= s.host + low_bytes(body));
    } else {
        assert(s.host + low_bytes(body) =~= s.host);
    }
}

/// A plain registered name. A text of characters that may stand unescaped
/// in a registered name, with or without a port behind it, gives those
/// characters as the host, in lower case, and what the port gives.
pub proof fn lemma_plain_name(name: Seq<char>, port: Option<Seq<char>>)
    requires
        plain_reg_name(name),
    ensures
        parse_host_port_spec(name + port_suffix(port)) == with_port(
            ascii_lowercase(low_bytes(name)),
            port,
        ),
{
    let text = name + port_suffix(port);
    if name.len() > 0 {
        assert(reg_name_not_pct_encoded_chars().contains(name[0]));
        assert(text[0] == name[0]);
    }
    let (state, rest) = initial_state(text);
    lemma_scan_concat(state, name, port_suffix(port));
    lemma_scan_name(state.shared(), name);
    assert(state.shared().host + low_bytes(name) =~= low_bytes(name));
    lemma_scan_suffix(scan(state, name)->Ok_0, port);
}

/// An IPv6 literal in brackets. A valid IPv6 literal between `[` and `]`,
/// with or without a port behind it, gives the literal as the host, as it
/// is written, and what the port gives.
pub proof fn lemma_ipv6_literal(address: Seq<char>, port: Option<Seq<char>>)
    requires
        validate_ipv6_spec(address) is Ok,
    ensures
        parse_host_port_spec(seq!['['] + address + seq![']'] + port_suffix(port)) == with_port(
            low_bytes(address),
            port,
        ),
{
    let text = seq!['['] + address + seq![']'] + port_suffix(port);
    lemma_valid_ipv6_chars(address);
    if address.len() > 0 {
        assert(text[1] == address[0]);
    } else {
        assert(text[1] == ']');
    }
    let (state, rest) = initial_state(text);
    assert(rest =~= address + (seq![']'] + port_suffix(port)));
    lemma_scan_concat(state, address, seq![']'] + port_suffix(port));
    lemma_scan_interior(state.shared(), address);
    assert(state.shared().ipv6_address + address =~= address);
    let inside = scan(state, address)->Ok_0;
    lemma_scan_concat(inside, seq![']'], port_suffix(port));
    lemma_scan_one(inside, ']');
    lemma_scan_suffix(next_state(inside, ']')->Ok_0, port);
}

/// An IPvFuture literal in brackets. Between `[` and `]`: `v`, one
/// hexadecimal digit or more, a dot, and one character or more of those
/// that may follow it. With or without a port behind it, this gives the
/// literal as the host, as it is written, and what the port gives.
pub proof fn lemma_ipv_future_literal(
    version: Seq<char>,
    body: Seq<char>,
    port: Option<Seq<char>>,
)
    requires
        version.len() > 0,
        all_hexdig(version),
        body.len() > 0,
        all_ipv_future_last_part(body),
    ensures
        parse_host_port_spec(
            seq!['[', 'v'] + version + seq!['.'] + body + seq![']'] + port_suffix(port),
        ) == with_port(low_bytes(seq!['v'] + version + seq!['.'] + body), port),
{
    let suffix = port_suffix(port);
    let text = seq!['[', 'v'] + version + seq!['.'] + body + seq![']'] + suffix;
    let (state, rest) = initial_state(text);
    assert(rest =~= version + (seq!['.'] + (body + (seq![']'] + suffix))));
    lemma_scan_concat(state, version, seq!['.'] + (body + (seq![']'] + suffix)));
    lemma_scan_version(state.shared(), version);
    let numbered = scan(state, version)->Ok_0;
    lemma_scan_concat(numbered, seq!['.'], body + (seq![']'] + suffix));
    lemma_scan_one(numbered, '.');
    let dotted = next_state(numbered, '.')->Ok_0;
    lemma_scan_concat(dotted, body, seq![']'] + suffix);
    lemma_scan_body(dotted.shared(), body);
    let filled = scan(dotted, body)->Ok_0;
    lemma_scan_concat(filled, seq![']'], suffix);
    lemma_scan_one(filled, ']');
    lemma_scan_suffix(next_state(filled, ']')->Ok_0, port);
    assert(filled.shared().host =~= low_bytes(seq!['v'] + version + seq!['.'] + body));
}

/// The split at the first `@`. A text without `@`, then `@`, then any
/// text, gives what the first text decodes to as the user information and
/// what the last text gives as host and port.
pub proof fn lemma_userinfo_split(userinfo: Seq<char>, rest: Seq<char>)
    requires
        forall|i: int| 0 <= i < userinfo.len() ==> userinfo[i] != '@',
    ensures
        parse_spec(userinfo + seq!['@'] + rest) == with_userinfo(
            Some(decode_spec(userinfo, user_info_not_pct_encoded_chars(), Context::Userinfo)),
            parse_host_port_spec(rest),
        ),
{
    let text = userinfo + seq!['@'] + rest;
    lemma_first_index(text, '@', userinfo.len() as int);
    assert(text.take(userinfo.len() as int) =~= userinfo);
    assert(text.skip(userinfo.len() as int + 1) =~= rest);
}

/// No `@`, no user information: a text without `@` is host and port.
pub proof fn lemma_no_userinfo(text: Seq<char>)
    requires
        forall|i: int| 0 <= i < text.len() ==> text[i] != '@',
    ensures
        parse_spec(text) == with_userinfo(None, parse_host_port_spec(text)),
{
    lemma_first_index(text, '@', text.len() as int);
}

/// The registered name in `text`: what stands before the first colon,
/// decoded.
pub open spec fn decoded_reg_name(text: Seq<char>) -> Result<Seq<u8>, ErrorView> {
    decode_spec(
        text.take(first_index(text, ':') as int),
        reg_name_not_pct_encoded_chars(),
        Context::Host,
    )
}

proof fn lemma_scan_reg_name(s: SharedView, text: Seq<char>)
    requires
        s.pec_pending is None,
    ensures
        ({
            let r = scan(StateView::NotIpLiteral(s), text);
            r is Ok && finalize_state(r->Ok_0) is Ok ==> decoded_reg_name(text) is Ok
                && r->Ok_0.shared().host == s.host + decoded_reg_name(text)->Ok_0
        }),
    decreases text.len(),
{
    lemma_first_index_is_first(text, ':');
    let d = first_index(text, ':') as int;
    let name = text.take(d);
    let allowed = reg_name_not_pct_encoded_chars();
    if text.len() == 0 {
        assert(s.host + Seq::<u8>::empty() =~= s.host);
    } else if text[0] == ':' {
        lemma_scan_port(s, text.skip(1));
        assert(s.host + Seq::<u8>::empty() =~= s.host);
    } else if text[0] == '%' {
        let second = text.skip(1);
        let third = second.skip(1);
        if text.len() >= 2 && hex_digit_value(text[1]) is Some {
            let high = hex_digit_value(text[1])->Some_0;
            let waiting = StateView::PercentEncodedCharacter(
                SharedView { pec_pending: Some(high), ..s },
            );
            assert(second[0] == text[1]);
            assert(scan(StateView::PercentEncodedCharacter(s), second) == scan(waiting, third));
            if text.len() >= 3 && hex_digit_value(text[2]) is Some {
                let low = hex_digit_value(text[2])->Some_0;
                let b = (16 * high + low) as u8;
                let longer = SharedView { host: s.host.push(b), ..s };
                let rest = text.skip(3);
                assert(third[0] == text[2]);
                assert(third.skip(1) =~= rest);
                assert(scan(waiting, third) == scan(StateView::NotIpLiteral(longer), rest));
                lemma_scan_reg_name(longer, rest);
                assert(first_index(second, ':') == 1 + first_index(third, ':'));
                assert(first_index(third, ':') == 1 + first_index(rest, ':'));
                assert(name.skip(3) =~= rest.take(d - 3));
                assert(decode_spec(name, allowed, Context::Host) == prepend_bytes(
                    seq![b],
                    decoded_reg_name(rest),
                ));
                if decoded_reg_name(rest) is Ok {
                    assert(longer.host + decoded_reg_name(rest)->Ok_0 =~= s.host + (seq![b]
                        + decoded_reg_name(rest)->Ok_0));
                }
            } else if text.len() >= 3 {
                assert(third[0] == text[2]);
            }
        } else if text.len() >= 2 {
            assert(second[0] == text[1]);
        }
    } else if allowed.contains(text[0]) {
        let b = low_byte(text[0]);
        let longer = SharedView { host: s.host.push(b), ..s };
        let rest = text.skip(1);
        lemma_scan_reg_name(longer, rest);
        assert(name.skip(1) =~= rest.take(d - 1));
        assert(decode_spec(name, allowed, Context::Host) == prepend_bytes(
            seq![b],
            decoded_reg_name(rest),
        ));
        if decoded_reg_name(rest) is Ok {
            assert(longer.host + decoded_reg_name(rest)->Ok_0 =~= s.host + (seq![b]
                + decoded_reg_name(rest)->Ok_0));
        }
    }
}

/// A registered name is decoded and lower-cased: where the text does not
/// open with `[` and is accepted, the host is what stands before the first
/// colon, percent-decoded and then in lower case.
pub proof fn lemma_reg_name_is_decoded(text: Seq<char>)
    requires
        text.len() == 0 || text[0] != '[',
    ensures
        parse_host_port_spec(text) is Ok ==> decoded_reg_name(text) is Ok
            && parse_host_port_spec(text)->Ok_0.0 == ascii_lowercase(
            decoded_reg_name(text)->Ok_0,
        ),
{
    let (state, rest) = initial_state(text);
    lemma_scan_keeps_kind(state, rest);
    lemma_scan_reg_name(state.shared(), text);
    if decoded_reg_name(text) is Ok {
        assert(Seq::<u8>::empty() + decoded_reg_name(text)->Ok_0 =~= decoded_reg_name(
            text,
        )->Ok_0);
    }
}

} // verus!
