//! Validation of an IPv4 literal: four groups of decimal digits, each worth
//! at most 255, with a dot between them.
use crate::chars_sets::{digit_chars, is_digit};
use crate::error::{ErrorKind, ErrorView};
use crate::text::{first_index, lemma_first_index, lemma_first_index_is_first};
use crate::uri::codec::Context;
use vstd::prelude::*;

verus! {

/// What the scan has gathered: how many groups are complete, and the digits
/// of the group that is being read.
pub struct SharedView {
    pub num_groups: nat,
    pub octet_buffer: Seq<char>,
}

/// Where the scan stands: before the first digit of a group, or behind one.
pub enum StateView {
    NotInOctet(SharedView),
    ExpectDigitOrDot(SharedView),
}

/// The number that decimal digits spell; a character that is no digit
/// counts as its distance from `0`.
pub open spec fn decimal_value(digits: Seq<char>) -> int
    decreases digits.len(),
{
    if digits.len() == 0 {
        0
    } else {
        10 * decimal_value(digits.drop_last()) + (digits.last() as u32 as int - '0' as u32 as int)
    }
}

/// Whether every character is a decimal digit.
pub open spec fn all_digits(text: Seq<char>) -> bool {
    forall|i: int| 0 <= i < text.len() ==> digit_chars().contains(#[trigger] text[i])
}

/// Whether `buffer` spells an octet: one digit or more, nothing but digits,
/// and a value of at most 255.
pub open spec fn parses_as_octet(buffer: Seq<char>) -> bool {
    buffer.len() > 0 && all_digits(buffer) && decimal_value(buffer) <= 255
}

/// The state before the first character.
pub open spec fn initial_state() -> StateView {
    StateView::NotInOctet(SharedView { num_groups: 0, octet_buffer: Seq::empty() })
}

/// One step of the scan. A digit starts or continues a group. A dot behind
/// a group closes it: that is one group too many if four are complete, and
/// a bad octet if the group does not spell one. Anything else is out of
/// place.
pub open spec fn next_state(state: StateView, c: char) -> Result<StateView, ErrorView> {
    match state {
        StateView::NotInOctet(s) => {
            if digit_chars().contains(c) {
                Ok(
                    StateView::ExpectDigitOrDot(
                        SharedView { octet_buffer: s.octet_buffer.push(c), ..s },
                    ),
                )
            } else {
                Err(ErrorView::InvalidCharacter(Context::Ipv4Address))
            }
        },
        StateView::ExpectDigitOrDot(s) => {
            if c == '.' {
                if s.num_groups + 1 > 4 {
                    Err(ErrorView::TooManyAddressParts)
                } else if !parses_as_octet(s.octet_buffer) {
                    Err(ErrorView::InvalidDecimalOctet)
                } else {
                    Ok(
                        StateView::NotInOctet(
                            SharedView { num_groups: s.num_groups + 1, octet_buffer: Seq::empty() },
                        ),
                    )
                }
            } else if digit_chars().contains(c) {
                Ok(
                    StateView::ExpectDigitOrDot(
                        SharedView { octet_buffer: s.octet_buffer.push(c), ..s },
                    ),
                )
            } else {
                Err(ErrorView::InvalidCharacter(Context::Ipv4Address))
            }
        },
    }
}

/// The verdict at the end of the text. Ending before a group is a
/// truncation. Ending in a group closes it: it must spell an octet, and
/// then there must be four groups, no fewer and no more.
pub open spec fn finalize_state(state: StateView) -> Result<(), ErrorView> {
    match state {
        StateView::NotInOctet(_) => Err(ErrorView::TruncatedHost),
        StateView::ExpectDigitOrDot(s) => {
            let closed = s.octet_buffer.len() > 0;
            let groups = if closed {
                s.num_groups + 1
            } else {
                s.num_groups
            };
            if closed && !parses_as_octet(s.octet_buffer) {
                Err(ErrorView::InvalidDecimalOctet)
            } else if groups == 4 {
                Ok(())
            } else if groups < 4 {
                Err(ErrorView::TooFewAddressParts)
            } else {
                Err(ErrorView::TooManyAddressParts)
            }
        },
    }
}

/// The state after `text`, character by character from `state`, or the
/// first error on the way.
pub open spec fn scan(state: StateView, text: Seq<char>) -> Result<StateView, ErrorView>
    decreases text.len(),
{
    if text.len() == 0 {
        Ok(state)
    } else {
        match next_state(state, text[0]) {
            Ok(next) => scan(next, text.skip(1)),
            Err(e) => Err(e),
        }
    }
}

/// The verdict on `text` as an IPv4 literal.
pub open spec fn validate_ipv4_spec(text: Seq<char>) -> Result<(), ErrorView> {
    match scan(initial_state(), text) {
        Ok(state) => finalize_state(state),
        Err(e) => Err(e),
    }
}

/// The view of a verdict.
pub open spec fn verdict_view(r: Result<(), ErrorKind>) -> Result<(), ErrorView> {
    match r {
        Ok(()) => Ok(()),
        Err(e) => Err(e@),
    }
}

struct Shared {
    num_groups: usize,
    octet_buffer: Vec<char>,
}

enum State {
    NotInOctet(Shared),
    ExpectDigitOrDot(Shared),
}

impl View for Shared {
    type V = SharedView;

    closed spec fn view(&self) -> SharedView {
        SharedView { num_groups: self.num_groups as nat, octet_buffer: self.octet_buffer@ }
    }
}

impl View for State {
    type V = StateView;

    closed spec fn view(&self) -> StateView {
        match self {
            State::NotInOctet(s) => StateView::NotInOctet(s@),
            State::ExpectDigitOrDot(s) => StateView::ExpectDigitOrDot(s@),
        }
    }
}

spec fn step_view(r: Result<State, ErrorKind>) -> Result<StateView, ErrorView> {
    match r {
        Ok(state) => Ok(state@),
        Err(e) => Err(e@),
    }
}

/// Whether the buffer spells an octet.
fn octet_buffer_parses(buffer: &Vec<char>) -> (b: bool)
    ensures
        b == parses_as_octet(buffer@),
{
    if buffer.len() == 0 {
        return false;
    }
    let mut value: u16 = 0;
    let mut i: usize = 0;
    while i < buffer.len()
        invariant
            0 <= i <= buffer@.len(),
            all_digits(buffer@.take(i as int)),
            value <= 256,
            value <= 255 ==> value == decimal_value(buffer@.take(i as int)),
            value == 256 ==> decimal_value(buffer@.take(i as int)) > 255,
        decreases buffer@.len() - i,
    {
        let c = buffer[i];
        if !is_digit(c) {
            return false;
        }
        let d: u16 = (c as u32 - '0' as u32) as u16;
        proof {
            let next = buffer@.take(i + 1);
            assert(next.drop_last() =~= buffer@.take(i as int));
            assert(all_digits(next));
        }
        if value > 25 {
            value = 256;
        } else {
            value = value * 10 + d;
            if value > 255 {
                value = 256;
            }
        }
        i += 1;
    }
    assert(buffer@.take(i as int) =~= buffer@);
    value <= 255
}

impl State {
    fn finalize(self) -> (r: Result<(), ErrorKind>)
        ensures
            verdict_view(r) == finalize_state(self@),
    {
        match self {
            Self::NotInOctet(_) => Err(ErrorKind::TruncatedHost),
            Self::ExpectDigitOrDot(state) => Self::finalize_expect_digit_or_dot(state),
        }
    }

    fn finalize_expect_digit_or_dot(state: Shared) -> (r: Result<(), ErrorKind>)
        ensures
            verdict_view(r) == finalize_state(StateView::ExpectDigitOrDot(state@)),
    {
        let closed = state.octet_buffer.len() > 0;
        if closed && !octet_buffer_parses(&state.octet_buffer) {
            return Err(ErrorKind::InvalidDecimalOctet);
        }
        // Closing the group in hand adds one to the count, so four groups
        // are three complete ones and this one.
        let full: usize = if closed {
            3
        } else {
            4
        };
        if state.num_groups == full {
            Ok(())
        } else if state.num_groups < full {
            Err(ErrorKind::TooFewAddressParts)
        } else {
            Err(ErrorKind::TooManyAddressParts)
        }
    }

    fn new() -> (state: Self)
        ensures
            state@ == initial_state(),
    {
        Self::NotInOctet(Shared { num_groups: 0, octet_buffer: Vec::new() })
    }

    fn next(self, c: char) -> (r: Result<Self, ErrorKind>)
        ensures
            step_view(r) == next_state(self@, c),
    {
        match self {
            Self::NotInOctet(state) => Self::next_not_in_octet(state, c),
            Self::ExpectDigitOrDot(state) => Self::next_expect_digit_or_dot(state, c),
        }
    }

    fn next_not_in_octet(state: Shared, c: char) -> (r: Result<Self, ErrorKind>)
        ensures
            step_view(r) == next_state(StateView::NotInOctet(state@), c),
    {
        let mut state = state;
        if is_digit(c) {
            state.octet_buffer.push(c);
            Ok(Self::ExpectDigitOrDot(state))
        } else {
            Err(ErrorKind::InvalidCharacter(Context::Ipv4Address))
        }
    }

    fn next_expect_digit_or_dot(state: Shared, c: char) -> (r: Result<Self, ErrorKind>)
        ensures
            step_view(r) == next_state(StateView::ExpectDigitOrDot(state@), c),
    {
        let mut state = state;
        if c == '.' {
            if state.num_groups >= 4 {
                return Err(ErrorKind::TooManyAddressParts);
            }
            state.num_groups += 1;
            if !octet_buffer_parses(&state.octet_buffer) {
                return Err(ErrorKind::InvalidDecimalOctet);
            }
            state.octet_buffer.clear();
            Ok(Self::NotInOctet(state))
        } else if is_digit(c) {
            state.octet_buffer.push(c);
            Ok(Self::ExpectDigitOrDot(state))
        } else {
            Err(ErrorKind::InvalidCharacter(Context::Ipv4Address))
        }
    }
}

/// Validates `address` as an IPv4 literal: see [`validate_ipv4_spec`].
pub fn validate_ipv4_address(address: &str) -> (r: Result<(), ErrorKind>)
    ensures
        verdict_view(r) == validate_ipv4_spec(address@),
{
    let mut state = State::new();
    let ghost text = address@;
    assert(text.skip(0) =~= text);
    for c in it: address.chars()
        invariant
            it.seq() == text,
            text == address@,
            scan(initial_state(), text) == scan(state@, text.skip(it.index())),
    {
        let ghost i = it.index();
        assert(text.skip(i).skip(1) =~= text.skip(i + 1));
        match state.next(c) {
            Ok(next) => {
                state = next;
            },
            Err(e) => {
                return Err(e);
            },
        }
    }
    state.finalize()
}

/// The groups written one after the other with a dot between each two.
pub open spec fn dotted(groups: Seq<Seq<char>>) -> Seq<char>
    decreases groups.len(),
{
    if groups.len() == 0 {
        Seq::empty()
    } else if groups.len() == 1 {
        groups[0]
    } else {
        groups[0] + seq!['.'] + dotted(groups.skip(1))
    }
}

/// Whether every group is one decimal digit or more.
pub open spec fn digit_groups(groups: Seq<Seq<char>>) -> bool {
    forall|i: int|
        0 <= i < groups.len() ==> (#[trigger] groups[i]).len() > 0 && all_digits(groups[i])
}

/// The verdict on groups of digits with dots between them. The first four
/// groups must spell octets, and so must the fifth where it is the last:
/// else the text is rejected for a bad octet. Then the count decides.
pub open spec fn dotted_verdict(groups: Seq<Seq<char>>) -> Result<(), ErrorView> {
    let checked = if groups.len() <= 5 {
        groups.len() as int
    } else {
        4
    };
    if exists|i: int| 0 <= i < checked && !parses_as_octet(#[trigger] groups[i]) {
        Err(ErrorView::InvalidDecimalOctet)
    } else if groups.len() < 4 {
        Err(ErrorView::TooFewAddressParts)
    } else if groups.len() == 4 {
        Ok(())
    } else {
        Err(ErrorView::TooManyAddressParts)
    }
}

/// The verdict once the text has ended in `r`.
pub open spec fn finish(r: Result<StateView, ErrorView>) -> Result<(), ErrorView> {
    match r {
        Ok(state) => finalize_state(state),
        Err(e) => Err(e),
    }
}

proof fn lemma_scan_digits(n: nat, buffer: Seq<char>, digits: Seq<char>, rest: Seq<char>)
    requires
        all_digits(digits),
    ensures
        scan(
            StateView::ExpectDigitOrDot(SharedView { num_groups: n, octet_buffer: buffer }),
            digits + rest,
        ) == scan(
            StateView::ExpectDigitOrDot(
                SharedView { num_groups: n, octet_buffer: buffer + digits },
            ),
            rest,
        ),
    decreases digits.len(),
{
    if digits.len() > 0 {
        let d = digits[0];
        assert((digits + rest).skip(1) =~= digits.skip(1) + rest);
        assert(buffer.push(d) + digits.skip(1) =~= buffer + digits);
        assert(all_digits(digits.skip(1)));
        lemma_scan_digits(n, buffer.push(d), digits.skip(1), rest);
    }
}

proof fn lemma_scan_group(n: nat, group: Seq<char>, rest: Seq<char>)
    requires
        group.len() > 0,
        all_digits(group),
    ensures
        scan(
            StateView::NotInOctet(SharedView { num_groups: n, octet_buffer: Seq::empty() }),
            group + rest,
        ) == scan(
            StateView::ExpectDigitOrDot(SharedView { num_groups: n, octet_buffer: group }),
            rest,
        ),
{
    let d = group[0];
    assert((group + rest).skip(1) =~= group.skip(1) + rest);
    assert(Seq::<char>::empty().push(d) + group.skip(1) =~= group);
    assert(all_digits(group.skip(1)));
    lemma_scan_digits(n, Seq::<char>::empty().push(d), group.skip(1), rest);
}

proof fn lemma_dotted_from(groups: Seq<Seq<char>>, k: int)
    requires
        digit_groups(groups),
        0 <= k < groups.len(),
        k <= 4,
        forall|i: int| 0 <= i < k ==> parses_as_octet(#[trigger] groups[i]),
    ensures
        finish(
            scan(
                StateView::NotInOctet(
                    SharedView { num_groups: k as nat, octet_buffer: Seq::empty() },
                ),
                dotted(groups.skip(k)),
            ),
        ) == dotted_verdict(groups),
    decreases groups.len() - k,
{
    let g = groups[k];
    let remaining = groups.skip(k);
    if remaining.len() == 1 {
        lemma_scan_group(k as nat, g, Seq::empty());
    } else {
        let tail = dotted(remaining.skip(1));
        assert(remaining.skip(1) =~= groups.skip(k + 1));
        assert(dotted(remaining) =~= g + (seq!['.'] + tail));
        lemma_scan_group(k as nat, g, seq!['.'] + tail);
        assert((seq!['.'] + tail).skip(1) =~= tail);
        if k < 4 && parses_as_octet(g) {
            lemma_dotted_from(groups, k + 1);
        }
    }
}

/// The verdict on a dotted text. For groups of decimal digits, one or more,
/// written with dots between them, validation says what [`dotted_verdict`]
/// says. So four groups that each spell an octet are accepted; a group
/// above 255 among the first four is rejected as a bad octet; and where
/// those are sound, fewer than four groups are too few and more than four
/// too many.
pub proof fn lemma_dotted_groups(groups: Seq<Seq<char>>)
    requires
        groups.len() >= 1,
        digit_groups(groups),
    ensures
        validate_ipv4_spec(dotted(groups)) == dotted_verdict(groups),
        groups.len() == 4 && (forall|i: int| 0 <= i < 4 ==> parses_as_octet(#[trigger] groups[i]))
            ==> validate_ipv4_spec(dotted(groups)) == Ok::<(), ErrorView>(()),
        (exists|i: int| 0 <= i < groups.len() && i < 4 && !parses_as_octet(#[trigger] groups[i]))
            ==> validate_ipv4_spec(dotted(groups)) == Err::<(), ErrorView>(
            ErrorView::InvalidDecimalOctet,
        ),
        (forall|i: int| 0 <= i < groups.len() ==> parses_as_octet(#[trigger] groups[i]))
            && groups.len() < 4 ==> validate_ipv4_spec(dotted(groups)) == Err::<(), ErrorView>(
            ErrorView::TooFewAddressParts,
        ),
        (forall|i: int| 0 <= i < groups.len() ==> parses_as_octet(#[trigger] groups[i]))
            && groups.len() > 4 ==> validate_ipv4_spec(dotted(groups)) == Err::<(), ErrorView>(
            ErrorView::TooManyAddressParts,
        ),
{
    assert(groups.skip(0) =~= groups);
    lemma_dotted_from(groups, 0);
}

/// Whether every character is a decimal digit or a dot.
pub open spec fn digits_and_dots(text: Seq<char>) -> bool {
    forall|i: int|
        0 <= i < text.len() ==> digit_chars().contains(#[trigger] text[i]) || text[i] == '.'
}

proof fn lemma_scan_digits_and_dots(state: StateView, text: Seq<char>)
    ensures
        scan(state, text) is Ok ==> digits_and_dots(text),
    decreases text.len(),
{
    if text.len() > 0 {
        match next_state(state, text[0]) {
            Ok(next) => {
                lemma_scan_digits_and_dots(next, text.skip(1));
                if scan(state, text) is Ok {
                    assert forall|i: int| 0 <= i < text.len() implies digit_chars().contains(
                        #[trigger] text[i],
                    ) || text[i] == '.' by {
                        if i > 0 {
                            assert(text.skip(1)[i - 1] == text[i]);
                        }
                    }
                }
            },
            Err(_) => {},
        }
    }
}

/// An accepted text holds nothing but decimal digits and dots.
pub proof fn lemma_valid_ipv4_chars(text: Seq<char>)
    ensures
        validate_ipv4_spec(text) is Ok ==> digits_and_dots(text),
{
    lemma_scan_digits_and_dots(initial_state(), text);
}

/// The groups that the dots of `text` part.
pub open spec fn split_dots(text: Seq<char>) -> Seq<Seq<char>>
    decreases text.len(),
{
    let d = first_index(text, '.');
    if d >= text.len() {
        seq![text]
    } else {
        seq![text.take(d as int)] + split_dots(text.skip(d as int + 1))
    }
}

proof fn lemma_dotted_split(text: Seq<char>)
    ensures
        split_dots(text).len() >= 1,
        dotted(split_dots(text)) == text,
    decreases text.len(),
{
    let d = first_index(text, '.');
    if d < text.len() {
        let rest = text.skip(d as int + 1);
        lemma_first_index_is_first(text, '.');
        lemma_dotted_split(rest);
        let groups = split_dots(text);
        assert(groups.skip(1) =~= split_dots(rest));
    }
}

spec fn buffer_of(state: StateView) -> Seq<char> {
    match state {
        StateView::NotInOctet(s) => s.octet_buffer,
        StateView::ExpectDigitOrDot(s) => s.octet_buffer,
    }
}

proof fn lemma_accepted_groups(state: StateView, text: Seq<char>)
    requires
        all_digits(buffer_of(state)),
        state is NotInOctet ==> buffer_of(state).len() == 0,
        state is ExpectDigitOrDot ==> buffer_of(state).len() > 0,
    ensures
        finish(scan(state, text)) is Ok ==> digit_groups(split_dots(buffer_of(state) + text)),
    decreases text.len(),
{
    let buffer = buffer_of(state);
    let whole = buffer + text;
    if text.len() == 0 {
        if state is ExpectDigitOrDot {
            lemma_first_index(buffer, '.', buffer.len() as int);
        }
    } else {
        let c = text[0];
        match next_state(state, c) {
            Ok(next) => {
                if c == '.' {
                    lemma_first_index(whole, '.', buffer.len() as int);
                    assert(whole.skip(buffer.len() as int + 1) =~= Seq::<char>::empty()
                        + text.skip(1));
                    lemma_accepted_groups(next, text.skip(1));
                    if finish(scan(state, text)) is Ok {
                        assert(digit_groups(split_dots(whole)));
                    }
                } else {
                    assert(buffer.push(c) + text.skip(1) =~= whole);
                    lemma_accepted_groups(next, text.skip(1));
                }
            },
            Err(_) => {},
        }
    }
}

/// What is accepted is a dotted quad: the dots of an accepted text part it
/// into four groups, each of which spells an octet. With
/// [`lemma_dotted_groups`] this makes acceptance the same as being four
/// octets with dots between them.
pub proof fn lemma_accepted_is_dotted_quad(text: Seq<char>)
    ensures
        dotted(split_dots(text)) == text,
        validate_ipv4_spec(text) is Ok ==> split_dots(text).len() == 4 && forall|i: int|
            0 <= i < 4 ==> parses_as_octet(#[trigger] split_dots(text)[i]),
{
    lemma_dotted_split(text);
    lemma_accepted_groups(initial_state(), text);
    if validate_ipv4_spec(text) is Ok {
        lemma_dotted_groups(split_dots(text));
    }
}

} // verus!
