//! Validation of an IPv6 literal: groups of up to four hexadecimal digits
//! with colons between them, at most one `::` that stands for the groups
//! left out, and optionally an IPv4 literal in place of the last two groups.
use crate::chars_sets::{digit_chars, hexdig_chars, is_digit, is_hexdig};
use crate::error::{ErrorKind, ErrorView};
use crate::uri::codec::Context;
use crate::uri::ipv4::{
    all_digits, digit_groups, dotted, lemma_dotted_groups, lemma_valid_ipv4_chars,
    parses_as_octet, validate_ipv4_address, validate_ipv4_spec, verdict_view,
};
use vstd::prelude::*;

verus! {

/// What the scan has gathered.
pub struct SharedView {
    /// The whole literal.
    pub address: Seq<char>,
    /// The groups that a colon has closed.
    pub num_groups: nat,
    /// The digits read of the group in hand.
    pub num_digits: nat,
    /// Whether `::` has been met.
    pub double_colon_encountered: bool,
    /// Where the latest group began that started with a decimal digit.
    pub potential_ipv4_address_start: nat,
}

/// Where the scan stands.
pub enum StateView {
    NoGroupsYet(SharedView),
    ColonButNoGroupsYet(SharedView),
    AfterDoubleColon(SharedView),
    InGroupNotIpv4(SharedView),
    InGroupCouldBeIpv4(SharedView),
    InGroupIpv4(SharedView),
    ColonAfterGroup(SharedView),
}

/// Why the scan stops before the end of the text: for an error, or because
/// the group in hand turned out to begin an IPv4 literal.
pub enum ExitView {
    Error(ErrorView),
    Ipv4Trailer(SharedView),
}

impl StateView {
    /// What the state has gathered.
    pub open spec fn shared(self) -> SharedView {
        match self {
            StateView::NoGroupsYet(s) => s,
            StateView::ColonButNoGroupsYet(s) => s,
            StateView::AfterDoubleColon(s) => s,
            StateView::InGroupNotIpv4(s) => s,
            StateView::InGroupCouldBeIpv4(s) => s,
            StateView::InGroupIpv4(s) => s,
            StateView::ColonAfterGroup(s) => s,
        }
    }
}

impl SharedView {
    /// Whether no counter or position exceeds `index`, the number of
    /// characters read.
    pub open spec fn within(self, index: nat) -> bool {
        self.num_groups <= index && self.num_digits <= index && self.potential_ipv4_address_start
            <= index
    }
}

/// The state before the first character of `address`.
pub open spec fn initial_state(address: Seq<char>) -> StateView {
    StateView::NoGroupsYet(
        SharedView {
            address,
            num_groups: 0,
            num_digits: 0,
            double_colon_encountered: false,
            potential_ipv4_address_start: 0,
        },
    )
}

/// The error for a character that has no place in an IPv6 literal.
pub open spec fn misplaced() -> Result<StateView, ExitView> {
    Err(ExitView::Error(ErrorView::InvalidCharacter(Context::Ipv6Address)))
}

/// The step on a digit that may start or continue a group: a fifth digit is
/// one too many; a decimal digit leaves it open whether an IPv4 literal
/// begins; another hexadecimal digit settles that none does.
pub open spec fn digit_step(s: SharedView, c: char) -> Result<StateView, ExitView> {
    if s.num_digits > 4 {
        Err(ExitView::Error(ErrorView::TooManyDigits))
    } else if digit_chars().contains(c) {
        Ok(StateView::InGroupCouldBeIpv4(s))
    } else if hexdig_chars().contains(c) {
        Ok(StateView::InGroupNotIpv4(s))
    } else {
        misplaced()
    }
}

/// One step of the scan, on the character `c` at position `i`. A colon
/// behind `::`, be it directly behind it or behind later groups, begins a
/// second `::`, and there may be but one.
pub open spec fn next_state(state: StateView, i: nat, c: char) -> Result<StateView, ExitView> {
    match state {
        StateView::NoGroupsYet(s) => {
            if c == ':' {
                Ok(StateView::ColonButNoGroupsYet(s))
            } else if digit_chars().contains(c) {
                Ok(
                    StateView::InGroupCouldBeIpv4(
                        SharedView { potential_ipv4_address_start: i, num_digits: 1, ..s },
                    ),
                )
            } else if hexdig_chars().contains(c) {
                Ok(StateView::InGroupNotIpv4(SharedView { num_digits: 1, ..s }))
            } else {
                misplaced()
            }
        },
        StateView::ColonButNoGroupsYet(s) => {
            if c == ':' {
                Ok(StateView::AfterDoubleColon(SharedView { double_colon_encountered: true, ..s }))
            } else {
                misplaced()
            }
        },
        StateView::AfterDoubleColon(s) => {
            let counted = SharedView { num_digits: s.num_digits + 1, ..s };
            if c == ':' {
                Err(ExitView::Error(ErrorView::TooManyDoubleColons))
            } else if digit_chars().contains(c) {
                digit_step(SharedView { potential_ipv4_address_start: i, ..counted }, c)
            } else {
                digit_step(counted, c)
            }
        },
        StateView::InGroupNotIpv4(s) => {
            if c == ':' {
                Ok(
                    StateView::ColonAfterGroup(
                        SharedView { num_digits: 0, num_groups: s.num_groups + 1, ..s },
                    ),
                )
            } else if hexdig_chars().contains(c) {
                if s.num_digits + 1 > 4 {
                    Err(ExitView::Error(ErrorView::TooManyDigits))
                } else {
                    Ok(StateView::InGroupNotIpv4(SharedView { num_digits: s.num_digits + 1, ..s }))
                }
            } else {
                misplaced()
            }
        },
        StateView::InGroupCouldBeIpv4(s) => {
            if c == ':' {
                Ok(
                    StateView::ColonAfterGroup(
                        SharedView { num_digits: 0, num_groups: s.num_groups + 1, ..s },
                    ),
                )
            } else if c == '.' {
                Err(ExitView::Ipv4Trailer(s))
            } else {
                digit_step(SharedView { num_digits: s.num_digits + 1, ..s }, c)
            }
        },
        StateView::InGroupIpv4(s) => Ok(StateView::InGroupIpv4(s)),
        StateView::ColonAfterGroup(s) => {
            if c == ':' {
                if s.double_colon_encountered {
                    Err(ExitView::Error(ErrorView::TooManyDoubleColons))
                } else {
                    Ok(
                        StateView::AfterDoubleColon(
                            SharedView { double_colon_encountered: true, ..s },
                        ),
                    )
                }
            } else if digit_chars().contains(c) {
                Ok(
                    StateView::InGroupCouldBeIpv4(
                        SharedView {
                            potential_ipv4_address_start: i,
                            num_digits: s.num_digits + 1,
                            ..s
                        },
                    ),
                )
            } else if hexdig_chars().contains(c) {
                Ok(StateView::InGroupNotIpv4(SharedView { num_digits: s.num_digits + 1, ..s }))
            } else {
                misplaced()
            }
        },
    }
}

/// The verdict by the number of groups: with `::` at most seven, without
/// it eight, no fewer and no more.
pub open spec fn count_verdict(double_colon_encountered: bool, num_groups: nat) -> Result<
    (),
    ErrorView,
> {
    if double_colon_encountered && num_groups <= 7 {
        Ok(())
    } else if !double_colon_encountered && num_groups == 8 {
        Ok(())
    } else if !double_colon_encountered && num_groups < 8 {
        Err(ErrorView::TooFewAddressParts)
    } else {
        Err(ErrorView::TooManyAddressParts)
    }
}

/// The verdict at the end of the scan. A group in hand counts as one
/// group. An IPv4 literal in hand, which runs from where its group began to
/// the end of the address, must be valid and counts as two. A colon in hand
/// is a truncation. Then the count decides.
pub open spec fn finalize_state(state: StateView) -> Result<(), ErrorView> {
    match state {
        StateView::ColonButNoGroupsYet(_) | StateView::ColonAfterGroup(_) => Err(
            ErrorView::TruncatedHost,
        ),
        StateView::InGroupNotIpv4(s) | StateView::InGroupCouldBeIpv4(s) => count_verdict(
            s.double_colon_encountered,
            s.num_groups + 1,
        ),
        StateView::InGroupIpv4(s) => match validate_ipv4_spec(
            s.address.skip(s.potential_ipv4_address_start as int),
        ) {
            Err(e) => Err(e),
            Ok(()) => count_verdict(s.double_colon_encountered, s.num_groups + 2),
        },
        StateView::AfterDoubleColon(s) | StateView::NoGroupsYet(s) => count_verdict(
            s.double_colon_encountered,
            s.num_groups,
        ),
    }
}

/// The state after `text`, whose first character stands at position `i`,
/// or the first exit on the way.
pub open spec fn scan(state: StateView, text: Seq<char>, i: nat) -> Result<StateView, ExitView>
    decreases text.len(),
{
    if text.len() == 0 {
        Ok(state)
    } else {
        match next_state(state, i, text[0]) {
            Ok(next) => scan(next, text.skip(1), i + 1),
            Err(exit) => Err(exit),
        }
    }
}

/// The verdict once the scan has ended in `r`.
pub open spec fn finish(r: Result<StateView, ExitView>) -> Result<(), ErrorView> {
    match r {
        Ok(state) => finalize_state(state),
        Err(ExitView::Ipv4Trailer(s)) => finalize_state(StateView::InGroupIpv4(s)),
        Err(ExitView::Error(e)) => Err(e),
    }
}

/// The verdict on `text` as an IPv6 literal.
pub open spec fn validate_ipv6_spec(text: Seq<char>) -> Result<(), ErrorView> {
    finish(scan(initial_state(text), text, 0))
}

enum MachineExitStatus<'a> {
    Error(ErrorKind),
    Ipv4Trailer(Shared<'a>),
}

struct Shared<'a> {
    address: &'a str,
    num_groups: usize,
    num_digits: usize,
    double_colon_encountered: bool,
    potential_ipv4_address_start: usize,
}

enum State<'a> {
    NoGroupsYet(Shared<'a>),
    ColonButNoGroupsYet(Shared<'a>),
    AfterDoubleColon(Shared<'a>),
    InGroupNotIpv4(Shared<'a>),
    InGroupCouldBeIpv4(Shared<'a>),
    InGroupIpv4(Shared<'a>),
    ColonAfterGroup(Shared<'a>),
}

impl<'a> View for Shared<'a> {
    type V = SharedView;

    closed spec fn view(&self) -> SharedView {
        SharedView {
            address: self.address@,
            num_groups: self.num_groups as nat,
            num_digits: self.num_digits as nat,
            double_colon_encountered: self.double_colon_encountered,
            potential_ipv4_address_start: self.potential_ipv4_address_start as nat,
        }
    }
}

impl<'a> View for State<'a> {
    type V = StateView;

    closed spec fn view(&self) -> StateView {
        match self {
            State::NoGroupsYet(s) => StateView::NoGroupsYet(s@),
            State::ColonButNoGroupsYet(s) => StateView::ColonButNoGroupsYet(s@),
            State::AfterDoubleColon(s) => StateView::AfterDoubleColon(s@),
            State::InGroupNotIpv4(s) => StateView::InGroupNotIpv4(s@),
            State::InGroupCouldBeIpv4(s) => StateView::InGroupCouldBeIpv4(s@),
            State::InGroupIpv4(s) => StateView::InGroupIpv4(s@),
            State::ColonAfterGroup(s) => StateView::ColonAfterGroup(s@),
        }
    }
}

impl<'a> View for MachineExitStatus<'a> {
    type V = ExitView;

    closed spec fn view(&self) -> ExitView {
        match self {
            MachineExitStatus::Error(e) => ExitView::Error(e@),
            MachineExitStatus::Ipv4Trailer(s) => ExitView::Ipv4Trailer(s@),
        }
    }
}

spec fn step_view(r: Result<State, MachineExitStatus>) -> Result<StateView, ExitView> {
    match r {
        Ok(state) => Ok(state@),
        Err(exit) => Err(exit@),
    }
}

fn invalid_character<'a>() -> (r: Result<State<'a>, MachineExitStatus<'a>>)
    ensures
        step_view(r) == misplaced(),
{
    Err(MachineExitStatus::Error(ErrorKind::InvalidCharacter(Context::Ipv6Address)))
}

fn count_groups(double_colon_encountered: bool, num_groups: usize, extra: usize) -> (r: Result<
    (),
    ErrorKind,
>)
    requires
        extra <= 2,
    ensures
        verdict_view(r) == count_verdict(double_colon_encountered, (num_groups + extra) as nat),
{
    if double_colon_encountered && num_groups <= 7 - extra {
        Ok(())
    } else if !double_colon_encountered && num_groups == 8 - extra {
        Ok(())
    } else if !double_colon_encountered && num_groups < 8 - extra {
        Err(ErrorKind::TooFewAddressParts)
    } else {
        Err(ErrorKind::TooManyAddressParts)
    }
}

impl<'a> State<'a> {
    fn finalize(self) -> (r: Result<(), ErrorKind>)
        requires
            self@.shared().potential_ipv4_address_start <= self@.shared().address.len(),
        ensures
            verdict_view(r) == finalize_state(self@),
    {
        match self {
            Self::ColonButNoGroupsYet(_) | Self::ColonAfterGroup(_) => Err(
                ErrorKind::TruncatedHost,
            ),
            Self::InGroupNotIpv4(state) | Self::InGroupCouldBeIpv4(state) => {
                // count trailing group
                count_groups(state.double_colon_encountered, state.num_groups, 1)
            },
            Self::InGroupIpv4(state) => {
                let end = state.address.unicode_len();
                let trailer = state.address.substring_char(
                    state.potential_ipv4_address_start,
                    end,
                );
                match validate_ipv4_address(trailer) {
                    Err(e) => Err(e),
                    Ok(()) => count_groups(state.double_colon_encountered, state.num_groups, 2),
                }
            },
            Self::AfterDoubleColon(state) | Self::NoGroupsYet(state) => count_groups(
                state.double_colon_encountered,
                state.num_groups,
                0,
            ),
        }
    }

    fn new(address: &'a str) -> (state: Self)
        ensures
            state@ == initial_state(address@),
    {
        Self::NoGroupsYet(
            Shared {
                address,
                num_groups: 0,
                num_digits: 0,
                double_colon_encountered: false,
                potential_ipv4_address_start: 0,
            },
        )
    }

    fn next(self, i: usize, c: char) -> (r: Result<Self, MachineExitStatus<'a>>)
        requires
            self@.shared().within(i as nat),
            i < usize::MAX,
        ensures
            step_view(r) == next_state(self@, i as nat, c),
    {
        match self {
            Self::NoGroupsYet(state) => Self::next_no_groups_yet(state, i, c),
            Self::ColonButNoGroupsYet(state) => Self::next_colon_but_no_groups_yet(state, c),
            Self::AfterDoubleColon(state) => Self::next_after_double_colon(state, i, c),
            Self::InGroupNotIpv4(state) => Self::next_in_group_not_ipv4(state, c),
            Self::InGroupCouldBeIpv4(state) => Self::next_in_group_could_be_ipv4(state, c),
            Self::InGroupIpv4(state) => Ok(Self::InGroupIpv4(state)),
            Self::ColonAfterGroup(state) => Self::next_colon_after_group(state, i, c),
        }
    }

    fn next_no_groups_yet(state: Shared<'a>, i: usize, c: char) -> (r: Result<
        Self,
        MachineExitStatus<'a>,
    >)
        ensures
            step_view(r) == next_state(StateView::NoGroupsYet(state@), i as nat, c),
    {
        let mut state = state;
        if c == ':' {
            Ok(Self::ColonButNoGroupsYet(state))
        } else if is_digit(c) {
            state.potential_ipv4_address_start = i;
            state.num_digits = 1;
            Ok(Self::InGroupCouldBeIpv4(state))
        } else if is_hexdig(c) {
            state.num_digits = 1;
            Ok(Self::InGroupNotIpv4(state))
        } else {
            invalid_character()
        }
    }

    fn next_colon_but_no_groups_yet(state: Shared<'a>, c: char) -> (r: Result<
        Self,
        MachineExitStatus<'a>,
    >)
        ensures
            step_view(r) == next_state(StateView::ColonButNoGroupsYet(state@), 0, c),
    {
        let mut state = state;
        if c == ':' {
            state.double_colon_encountered = true;
            Ok(Self::AfterDoubleColon(state))
        } else {
            invalid_character()
        }
    }

    fn next_after_double_colon(state: Shared<'a>, i: usize, c: char) -> (r: Result<
        Self,
        MachineExitStatus<'a>,
    >)
        requires
            state@.num_digits < usize::MAX,
        ensures
            step_view(r) == next_state(StateView::AfterDoubleColon(state@), i as nat, c),
    {
        let mut state = state;
        if c == ':' {
            return Err(MachineExitStatus::Error(ErrorKind::TooManyDoubleColons));
        }
        state.num_digits += 1;
        if state.num_digits > 4 {
            Err(MachineExitStatus::Error(ErrorKind::TooManyDigits))
        } else if is_digit(c) {
            state.potential_ipv4_address_start = i;
            Ok(Self::InGroupCouldBeIpv4(state))
        } else if is_hexdig(c) {
            Ok(Self::InGroupNotIpv4(state))
        } else {
            invalid_character()
        }
    }

    fn next_in_group_not_ipv4(state: Shared<'a>, c: char) -> (r: Result<
        Self,
        MachineExitStatus<'a>,
    >)
        requires
            state@.num_digits < usize::MAX,
            state@.num_groups < usize::MAX,
        ensures
            step_view(r) == next_state(StateView::InGroupNotIpv4(state@), 0, c),
    {
        let mut state = state;
        if c == ':' {
            state.num_digits = 0;
            state.num_groups += 1;
            Ok(Self::ColonAfterGroup(state))
        } else if is_hexdig(c) {
            state.num_digits += 1;
            if state.num_digits > 4 {
                Err(MachineExitStatus::Error(ErrorKind::TooManyDigits))
            } else {
                Ok(Self::InGroupNotIpv4(state))
            }
        } else {
            invalid_character()
        }
    }

    fn next_in_group_could_be_ipv4(state: Shared<'a>, c: char) -> (r: Result<
        Self,
        MachineExitStatus<'a>,
    >)
        requires
            state@.num_digits < usize::MAX,
            state@.num_groups < usize::MAX,
        ensures
            step_view(r) == next_state(StateView::InGroupCouldBeIpv4(state@), 0, c),
    {
        let mut state = state;
        if c == ':' {
            state.num_digits = 0;
            state.num_groups += 1;
            Ok(Self::ColonAfterGroup(state))
        } else if c == '.' {
            Err(MachineExitStatus::Ipv4Trailer(state))
        } else {
            state.num_digits += 1;
            if state.num_digits > 4 {
                Err(MachineExitStatus::Error(ErrorKind::TooManyDigits))
            } else if is_digit(c) {
                Ok(Self::InGroupCouldBeIpv4(state))
            } else if is_hexdig(c) {
                Ok(Self::InGroupNotIpv4(state))
            } else {
                invalid_character()
            }
        }
    }

    fn next_colon_after_group(state: Shared<'a>, i: usize, c: char) -> (r: Result<
        Self,
        MachineExitStatus<'a>,
    >)
        requires
            state@.num_digits < usize::MAX,
        ensures
            step_view(r) == next_state(StateView::ColonAfterGroup(state@), i as nat, c),
    {
        let mut state = state;
        if c == ':' {
            if state.double_colon_encountered {
                Err(MachineExitStatus::Error(ErrorKind::TooManyDoubleColons))
            } else {
                state.double_colon_encountered = true;
                Ok(Self::AfterDoubleColon(state))
            }
        } else if is_digit(c) {
            state.potential_ipv4_address_start = i;
            state.num_digits += 1;
            Ok(Self::InGroupCouldBeIpv4(state))
        } else if is_hexdig(c) {
            state.num_digits += 1;
            Ok(Self::InGroupNotIpv4(state))
        } else {
            invalid_character()
        }
    }
}

/// A step keeps the counters and the position within the number of
/// characters read, and leaves the address alone.
proof fn lemma_step_within(state: StateView, i: nat, c: char)
    requires
        state.shared().within(i),
    ensures
        match next_state(state, i, c) {
            Ok(next) => next.shared().within(i + 1) && next.shared().address
                == state.shared().address,
            Err(ExitView::Ipv4Trailer(s)) => s.within(i + 1) && s.address
                == state.shared().address,
            Err(ExitView::Error(_)) => true,
        },
{
}

/// Validates `address` as an IPv6 literal: see [`validate_ipv6_spec`].
pub fn validate_ipv6_address(address: &str) -> (r: Result<(), ErrorKind>)
    ensures
        verdict_view(r) == validate_ipv6_spec(address@),
{
    let mut state = State::new(address);
    let total = address.unicode_len();
    let mut i: usize = 0;
    let ghost text = address@;
    assert(text.skip(0) =~= text);
    for c in it: address.chars()
        invariant
            it.seq() == text,
            text == address@,
            total == text.len(),
            i == it.index(),
            state@.shared().within(i as nat),
            state@.shared().address == text,
            scan(initial_state(text), text, 0) == scan(state@, text.skip(i as int), i as nat),
    {
        assert(text.skip(i as int).skip(1) =~= text.skip(i + 1));
        proof {
            lemma_step_within(state@, i as nat, c);
        }
        match state.next(i, c) {
            Ok(next) => {
                state = next;
            },
            Err(MachineExitStatus::Ipv4Trailer(shared)) => {
                return State::InGroupIpv4(shared).finalize();
            },
            Err(MachineExitStatus::Error(e)) => {
                return Err(e);
            },
        }
        i += 1;
    }
    state.finalize()
}

/// The groups written one after the other with a colon between each two.
pub open spec fn coloned(groups: Seq<Seq<char>>) -> Seq<char>
    decreases groups.len(),
{
    if groups.len() == 0 {
        Seq::empty()
    } else if groups.len() == 1 {
        groups[0]
    } else {
        groups[0] + seq![':'] + coloned(groups.skip(1))
    }
}

/// Whether every character is a hexadecimal digit.
pub open spec fn all_hex(text: Seq<char>) -> bool {
    forall|i: int| 0 <= i < text.len() ==> hexdig_chars().contains(#[trigger] text[i])
}

/// Whether every group is one to four hexadecimal digits.
pub open spec fn hex_groups(groups: Seq<Seq<char>>) -> bool {
    forall|i: int|
        0 <= i < groups.len() ==> 1 <= (#[trigger] groups[i]).len() <= 4 && all_hex(groups[i])
}

/// The groups, each with a colon behind it.
pub open spec fn colon_ended(groups: Seq<Seq<char>>) -> Seq<char> {
    if groups.len() == 0 {
        Seq::empty()
    } else {
        coloned(groups) + seq![':']
    }
}

spec fn in_group(state: StateView) -> bool {
    state is InGroupNotIpv4 || state is InGroupCouldBeIpv4
}

spec fn ready(state: StateView) -> bool {
    (state is NoGroupsYet || state is AfterDoubleColon || state is ColonAfterGroup)
        && state.shared().num_digits == 0
}

/// Whether `state` stands in a group, with the address and the `::` flag of
/// `base` and the given counts.
spec fn in_group_with(state: StateView, base: SharedView, groups: nat, digits: nat) -> bool {
    in_group(state) && state.shared().address == base.address && state.shared().num_groups
        == groups && state.shared().num_digits == digits
        && state.shared().double_colon_encountered == base.double_colon_encountered
}

proof fn lemma_scan_concat(state: StateView, a: Seq<char>, b: Seq<char>, i: nat)
    ensures
        scan(state, a + b, i) == match scan(state, a, i) {
            Ok(mid) => scan(mid, b, i + a.len()),
            Err(exit) => Err(exit),
        },
    decreases a.len(),
{
    if a.len() > 0 {
        assert((a + b).skip(1) =~= a.skip(1) + b);
        match next_state(state, i, a[0]) {
            Ok(next) => lemma_scan_concat(next, a.skip(1), b, i + 1),
            Err(_) => {},
        }
    }
}

proof fn lemma_scan_one(state: StateView, c: char, i: nat)
    ensures
        scan(state, seq![c], i) == next_state(state, i, c),
{
    let text = seq![c];
    match next_state(state, i, c) {
        Ok(next) => {
            assert(scan(next, text.skip(1), i + 1) == Ok::<StateView, ExitView>(next));
        },
        Err(_) => {},
    }
}

proof fn lemma_all_hex_skip(text: Seq<char>)
    requires
        all_hex(text),
        text.len() > 0,
    ensures
        all_hex(text.skip(1)),
        hexdig_chars().contains(text[0]),
        text[0] != ':',
        text[0] != '.',
{
    assert(all_hex(text.skip(1)));
}

proof fn lemma_scan_hex_digits(state: StateView, digits: Seq<char>, i: nat)
    requires
        in_group(state),
        all_hex(digits),
        state.shared().num_digits + digits.len() <= 4,
    ensures
        scan(state, digits, i) is Ok,
        in_group_with(
            scan(state, digits, i)->Ok_0,
            state.shared(),
            state.shared().num_groups,
            state.shared().num_digits + digits.len(),
        ),
    decreases digits.len(),
{
    if digits.len() > 0 {
        lemma_all_hex_skip(digits);
        let next = next_state(state, i, digits[0])->Ok_0;
        lemma_scan_hex_digits(next, digits.skip(1), i + 1);
    }
}

proof fn lemma_scan_hex_group(state: StateView, group: Seq<char>, i: nat)
    requires
        ready(state),
        1 <= group.len() <= 4,
        all_hex(group),
    ensures
        scan(state, group, i) is Ok,
        in_group_with(
            scan(state, group, i)->Ok_0,
            state.shared(),
            state.shared().num_groups,
            group.len(),
        ),
{
    lemma_all_hex_skip(group);
    let next = next_state(state, i, group[0])->Ok_0;
    lemma_scan_hex_digits(next, group.skip(1), i + 1);
}

proof fn lemma_scan_hex_groups(state: StateView, groups: Seq<Seq<char>>, i: nat)
    requires
        ready(state),
        groups.len() >= 1,
        hex_groups(groups),
    ensures
        scan(state, coloned(groups), i) is Ok,
        in_group_with(
            scan(state, coloned(groups), i)->Ok_0,
            state.shared(),
            (state.shared().num_groups + groups.len() - 1) as nat,
            groups.last().len(),
        ),
    decreases groups.len(),
{
    let g = groups[0];
    lemma_scan_hex_group(state, g, i);
    if groups.len() > 1 {
        let rest = groups.skip(1);
        let tail = coloned(rest);
        let mid = scan(state, g, i)->Ok_0;
        assert(coloned(groups) =~= g + (seq![':'] + tail));
        lemma_scan_concat(state, g, seq![':'] + tail, i);
        lemma_scan_concat(mid, seq![':'], tail, i + g.len());
        let colon = next_state(mid, i + g.len(), ':')->Ok_0;
        lemma_scan_one(mid, ':', i + g.len());
        assert(hex_groups(rest));
        lemma_scan_hex_groups(colon, rest, i + g.len() + 1);
    }
}

/// The state behind `::`, read from `state` after a group or at the start.
proof fn lemma_scan_double_colon(state: StateView, i: nat)
    requires
        in_group(state) || (state is NoGroupsYet && state.shared().num_digits == 0),
        !state.shared().double_colon_encountered,
    ensures
        scan(state, seq![':', ':'], i) is Ok,
        ready(scan(state, seq![':', ':'], i)->Ok_0),
        scan(state, seq![':', ':'], i)->Ok_0 is AfterDoubleColon,
        scan(state, seq![':', ':'], i)->Ok_0.shared().address == state.shared().address,
        scan(state, seq![':', ':'], i)->Ok_0.shared().double_colon_encountered,
        scan(state, seq![':', ':'], i)->Ok_0.shared().num_groups == state.shared().num_groups + (
        if in_group(state) {
            1nat
        } else {
            0nat
        }),
{
    let first = next_state(state, i, ':')->Ok_0;
    assert(seq![':', ':'] =~= seq![':'] + seq![':']);
    lemma_scan_concat(state, seq![':'], seq![':'], i);
    lemma_scan_one(state, ':', i);
    lemma_scan_one(first, ':', i + 1);
}

/// Groups with colons between them and no `::`. For groups of one to four
/// hexadecimal digits, written with a colon between each two, the verdict
/// goes by their number alone: eight are accepted, fewer are too few, more
/// are too many.
pub proof fn lemma_plain_groups(groups: Seq<Seq<char>>)
    requires
        groups.len() >= 1,
        hex_groups(groups),
    ensures
        validate_ipv6_spec(coloned(groups)) == count_verdict(false, groups.len()),
        groups.len() == 8 ==> validate_ipv6_spec(coloned(groups)) == Ok::<(), ErrorView>(()),
{
    let text = coloned(groups);
    lemma_scan_hex_groups(initial_state(text), groups, 0);
}

/// A second `::`. Where a text begins with groups of one to four
/// hexadecimal digits (or none), `::`, such groups again (or none) and
/// another `::`, it is rejected for its second `::`, whatever follows.
pub proof fn lemma_second_double_colon(
    lead: Seq<Seq<char>>,
    middle: Seq<Seq<char>>,
    rest: Seq<char>,
)
    requires
        hex_groups(lead),
        hex_groups(middle),
    ensures
        validate_ipv6_spec(
            coloned(lead) + seq![':', ':'] + coloned(middle) + seq![':', ':'] + rest,
        ) == Err::<(), ErrorView>(ErrorView::TooManyDoubleColons),
{
    let dc = seq![':', ':'];
    let text = coloned(lead) + dc + coloned(middle) + dc + rest;
    let start = initial_state(text);
    assert(text =~= coloned(lead) + (dc + (coloned(middle) + (dc + rest))));
    lemma_scan_concat(start, coloned(lead), dc + (coloned(middle) + (dc + rest)), 0);
    if lead.len() > 0 {
        lemma_scan_hex_groups(start, lead, 0);
    }
    let a = scan(start, coloned(lead), 0)->Ok_0;
    let i = coloned(lead).len();
    lemma_scan_double_colon(a, i);
    lemma_scan_concat(a, dc, coloned(middle) + (dc + rest), i);
    let b = scan(a, dc, i)->Ok_0;
    lemma_scan_concat(b, coloned(middle), dc + rest, i + 2);
    if middle.len() > 0 {
        lemma_scan_hex_groups(b, middle, i + 2);
    }
    let c = scan(b, coloned(middle), i + 2)->Ok_0;
    let j = i + 2 + coloned(middle).len();
    assert(dc + rest =~= seq![':'] + (seq![':'] + rest));
    lemma_scan_concat(c, seq![':'], seq![':'] + rest, j);
    lemma_scan_one(c, ':', j);
    if middle.len() > 0 {
        let d = next_state(c, j, ':')->Ok_0;
        lemma_scan_concat(d, seq![':'], rest, j + 1);
        lemma_scan_one(d, ':', j + 1);
    }
}

/// What holds of every state that the scan reaches from its start: it is
/// not the one for an IPv4 literal in hand, and before the first group no
/// `::` has been read.
spec fn on_the_way(state: StateView) -> bool {
    &&& !(state is InGroupIpv4)
    &&& state is NoGroupsYet || state is ColonButNoGroupsYet
        ==> !state.shared().double_colon_encountered
}

proof fn lemma_scan_stays_on_the_way(state: StateView, text: Seq<char>, i: nat)
    requires
        on_the_way(state),
    ensures
        scan(state, text, i) is Ok ==> on_the_way(scan(state, text, i)->Ok_0),
    decreases text.len(),
{
    if text.len() > 0 {
        match next_state(state, i, text[0]) {
            Ok(next) => lemma_scan_stays_on_the_way(next, text.skip(1), i + 1),
            Err(_) => {},
        }
    }
}

/// There may be but one `::`. Once the scan of a text has read a `::` and
/// is still under way, another `::` ends it with the error for a second
/// `::`, whatever stands before and whatever follows.
pub proof fn lemma_one_double_colon_only(before: Seq<char>, rest: Seq<char>)
    requires
        ({
            let text = before + seq![':', ':'] + rest;
            let read = scan(initial_state(text), before, 0);
            read is Ok && read->Ok_0.shared().double_colon_encountered
        }),
    ensures
        validate_ipv6_spec(before + seq![':', ':'] + rest) == Err::<(), ErrorView>(
            ErrorView::TooManyDoubleColons,
        ),
{
    let text = before + seq![':', ':'] + rest;
    let start = initial_state(text);
    let i = before.len();
    assert(text =~= before + (seq![':'] + (seq![':'] + rest)));
    lemma_scan_concat(start, before, seq![':'] + (seq![':'] + rest), 0);
    lemma_scan_stays_on_the_way(start, before, 0);
    let a = scan(start, before, 0)->Ok_0;
    lemma_scan_concat(a, seq![':'], seq![':'] + rest, i);
    lemma_scan_one(a, ':', i);
    if next_state(a, i, ':') is Ok {
        let b = next_state(a, i, ':')->Ok_0;
        lemma_scan_concat(b, seq![':'], rest, i + 1);
        lemma_scan_one(b, ':', i + 1);
    }
}

proof fn lemma_scan_colon_ended(state: StateView, groups: Seq<Seq<char>>, i: nat)
    requires
        ready(state),
        hex_groups(groups),
    ensures
        scan(state, colon_ended(groups), i) is Ok,
        ready(scan(state, colon_ended(groups), i)->Ok_0),
        scan(state, colon_ended(groups), i)->Ok_0.shared().double_colon_encountered
            == state.shared().double_colon_encountered,
        scan(state, colon_ended(groups), i)->Ok_0.shared().address == state.shared().address,
        scan(state, colon_ended(groups), i)->Ok_0.shared().num_groups
            == state.shared().num_groups + groups.len(),
{
    if groups.len() > 0 {
        lemma_scan_hex_groups(state, groups, i);
        lemma_scan_concat(state, coloned(groups), seq![':'], i);
        let mid = scan(state, coloned(groups), i)->Ok_0;
        lemma_scan_one(mid, ':', i + coloned(groups).len());
    }
}

proof fn lemma_fifth_digit_from(state: StateView, digits: Seq<char>, rest: Seq<char>, i: nat)
    requires
        ready(state),
        digits.len() == 5,
        all_hex(digits),
    ensures
        scan(state, digits + rest, i) == Err::<StateView, ExitView>(
            ExitView::Error(ErrorView::TooManyDigits),
        ),
{
    let four = digits.take(4);
    let fifth = digits[4];
    assert(all_hex(four));
    assert(digits + rest =~= four + (seq![fifth] + rest));
    lemma_scan_hex_group(state, four, i);
    lemma_scan_concat(state, four, seq![fifth] + rest, i);
    let behind = scan(state, four, i)->Ok_0;
    lemma_scan_concat(behind, seq![fifth], rest, i + 4);
    lemma_scan_one(behind, fifth, i + 4);
}

/// A group of five digits. Where a text begins with groups of one to four
/// hexadecimal digits, each with a colon behind it (or with none), and
/// goes on with five hexadecimal digits, it is rejected for too many
/// digits, whatever follows.
pub proof fn lemma_fifth_digit(lead: Seq<Seq<char>>, digits: Seq<char>, rest: Seq<char>)
    requires
        hex_groups(lead),
        digits.len() == 5,
        all_hex(digits),
    ensures
        validate_ipv6_spec(colon_ended(lead) + digits + rest) == Err::<(), ErrorView>(
            ErrorView::TooManyDigits,
        ),
{
    let text = colon_ended(lead) + digits + rest;
    let start = initial_state(text);
    assert(text =~= colon_ended(lead) + (digits + rest));
    lemma_scan_concat(start, colon_ended(lead), digits + rest, 0);
    lemma_scan_colon_ended(start, lead, 0);
    let a = scan(start, colon_ended(lead), 0)->Ok_0;
    lemma_fifth_digit_from(a, digits, rest, colon_ended(lead).len());
}

/// A group of five digits behind `::`. Where a text begins with groups of
/// one to four hexadecimal digits (or none), `::` and such groups, each
/// with a colon behind it (or none), and goes on with five hexadecimal
/// digits, it is rejected for too many digits, whatever follows.
pub proof fn lemma_fifth_digit_after_double_colon(
    lead: Seq<Seq<char>>,
    middle: Seq<Seq<char>>,
    digits: Seq<char>,
    rest: Seq<char>,
)
    requires
        hex_groups(lead),
        hex_groups(middle),
        digits.len() == 5,
        all_hex(digits),
    ensures
        validate_ipv6_spec(
            coloned(lead) + seq![':', ':'] + colon_ended(middle) + digits + rest,
        ) == Err::<(), ErrorView>(ErrorView::TooManyDigits),
{
    let dc = seq![':', ':'];
    let text = coloned(lead) + dc + colon_ended(middle) + digits + rest;
    let start = initial_state(text);
    assert(text =~= coloned(lead) + (dc + (colon_ended(middle) + (digits + rest))));
    lemma_scan_concat(start, coloned(lead), dc + (colon_ended(middle) + (digits + rest)), 0);
    if lead.len() > 0 {
        lemma_scan_hex_groups(start, lead, 0);
    }
    let a = scan(start, coloned(lead), 0)->Ok_0;
    let i = coloned(lead).len();
    lemma_scan_double_colon(a, i);
    lemma_scan_concat(a, dc, colon_ended(middle) + (digits + rest), i);
    let b = scan(a, dc, i)->Ok_0;
    lemma_scan_colon_ended(b, middle, i + 2);
    lemma_scan_concat(b, colon_ended(middle), digits + rest, i + 2);
    let c = scan(b, colon_ended(middle), i + 2)->Ok_0;
    lemma_fifth_digit_from(c, digits, rest, i + 2 + colon_ended(middle).len());
}

/// Groups around one `::`. For groups of one to four hexadecimal digits
/// before `::` (or none) and behind it (or none), with colons between
/// them, the verdict goes by their number alone: up to seven are accepted,
/// more are too many.
pub proof fn lemma_groups_around_double_colon(lead: Seq<Seq<char>>, tail: Seq<Seq<char>>)
    requires
        hex_groups(lead),
        hex_groups(tail),
    ensures
        validate_ipv6_spec(coloned(lead) + seq![':', ':'] + coloned(tail)) == count_verdict(
            true,
            lead.len() + tail.len(),
        ),
{
    let dc = seq![':', ':'];
    let text = coloned(lead) + dc + coloned(tail);
    let start = initial_state(text);
    assert(text =~= coloned(lead) + (dc + coloned(tail)));
    lemma_scan_concat(start, coloned(lead), dc + coloned(tail), 0);
    if lead.len() > 0 {
        lemma_scan_hex_groups(start, lead, 0);
    }
    let a = scan(start, coloned(lead), 0)->Ok_0;
    let i = coloned(lead).len();
    lemma_scan_double_colon(a, i);
    lemma_scan_concat(a, dc, coloned(tail), i);
    let b = scan(a, dc, i)->Ok_0;
    if tail.len() > 0 {
        lemma_scan_hex_groups(b, tail, i + 2);
    }
}

proof fn lemma_scan_decimal_digits(state: StateView, digits: Seq<char>, i: nat)
    requires
        state is InGroupCouldBeIpv4,
        all_digits(digits),
        state.shared().num_digits + digits.len() <= 4,
    ensures
        scan(state, digits, i) == Ok::<StateView, ExitView>(
            StateView::InGroupCouldBeIpv4(
                SharedView {
                    num_digits: state.shared().num_digits + digits.len(),
                    ..state.shared()
                },
            ),
        ),
    decreases digits.len(),
{
    if digits.len() > 0 {
        let d = digits[0];
        assert(all_digits(digits.skip(1)));
        let next = next_state(state, i, d)->Ok_0;
        lemma_scan_decimal_digits(next, digits.skip(1), i + 1);
    }
}

proof fn lemma_ipv4_tail_from(state: StateView, quad: Seq<Seq<char>>, i: nat)
    requires
        ready(state),
        state.shared().address.skip(i as int) == dotted(quad),
        i <= state.shared().address.len(),
        quad.len() == 4,
        digit_groups(quad),
        forall|k: int| 0 <= k < 4 ==> parses_as_octet(#[trigger] quad[k]),
        quad[0].len() <= 4,
    ensures
        finish(scan(state, dotted(quad), i)) == count_verdict(
            state.shared().double_colon_encountered,
            state.shared().num_groups + 2,
        ),
{
    let first = quad[0];
    let tail = dotted(quad.skip(1));
    let d = first[0];
    assert(dotted(quad) =~= first + (seq!['.'] + tail));
    assert(all_digits(first.skip(1)));
    let begun = next_state(state, i, d)->Ok_0;
    lemma_scan_concat(state, seq![d], first.skip(1), i);
    lemma_scan_one(state, d, i);
    lemma_scan_decimal_digits(begun, first.skip(1), i + 1);
    lemma_scan_concat(state, first, seq!['.'] + tail, i);
    let behind = scan(state, first, i)->Ok_0;
    lemma_scan_concat(behind, seq!['.'], tail, i + first.len());
    lemma_scan_one(behind, '.', i + first.len());
    lemma_dotted_groups(quad);
}

/// An IPv4 literal in place of the last groups counts as two. For groups
/// of one to four hexadecimal digits, each with a colon behind it (or
/// none), followed by four octets with dots between them, the first with
/// at most four digits, the verdict goes by the number of groups and two
/// more.
pub proof fn lemma_ipv4_tail(lead: Seq<Seq<char>>, quad: Seq<Seq<char>>)
    requires
        hex_groups(lead),
        quad.len() == 4,
        digit_groups(quad),
        forall|k: int| 0 <= k < 4 ==> parses_as_octet(#[trigger] quad[k]),
        quad[0].len() <= 4,
    ensures
        validate_ipv6_spec(colon_ended(lead) + dotted(quad)) == count_verdict(
            false,
            lead.len() + 2,
        ),
{
    let text = colon_ended(lead) + dotted(quad);
    let start = initial_state(text);
    let i = colon_ended(lead).len();
    lemma_scan_concat(start, colon_ended(lead), dotted(quad), 0);
    lemma_scan_colon_ended(start, lead, 0);
    let a = scan(start, colon_ended(lead), 0)->Ok_0;
    assert(text.skip(i as int) =~= dotted(quad));
    lemma_ipv4_tail_from(a, quad, i);
}

/// An IPv4 literal behind `::` counts as two groups as well. For groups of
/// one to four hexadecimal digits (or none), `::`, such groups, each with a
/// colon behind it (or none), and four octets with dots between them, the
/// first with at most four digits, the verdict goes by the number of groups
/// and two more.
pub proof fn lemma_ipv4_tail_after_double_colon(
    lead: Seq<Seq<char>>,
    middle: Seq<Seq<char>>,
    quad: Seq<Seq<char>>,
)
    requires
        hex_groups(lead),
        hex_groups(middle),
        quad.len() == 4,
        digit_groups(quad),
        forall|k: int| 0 <= k < 4 ==> parses_as_octet(#[trigger] quad[k]),
        quad[0].len() <= 4,
    ensures
        validate_ipv6_spec(
            coloned(lead) + seq![':', ':'] + colon_ended(middle) + dotted(quad),
        ) == count_verdict(true, lead.len() + middle.len() + 2),
{
    let dc = seq![':', ':'];
    let text = coloned(lead) + dc + colon_ended(middle) + dotted(quad);
    let start = initial_state(text);
    assert(text =~= coloned(lead) + (dc + (colon_ended(middle) + dotted(quad))));
    lemma_scan_concat(start, coloned(lead), dc + (colon_ended(middle) + dotted(quad)), 0);
    if lead.len() > 0 {
        lemma_scan_hex_groups(start, lead, 0);
    }
    let a = scan(start, coloned(lead), 0)->Ok_0;
    let i = coloned(lead).len();
    lemma_scan_double_colon(a, i);
    lemma_scan_concat(a, dc, colon_ended(middle) + dotted(quad), i);
    let b = scan(a, dc, i)->Ok_0;
    lemma_scan_colon_ended(b, middle, i + 2);
    lemma_scan_concat(b, colon_ended(middle), dotted(quad), i + 2);
    let c = scan(b, colon_ended(middle), i + 2)->Ok_0;
    let j = i + 2 + colon_ended(middle).len();
    assert(text.skip(j as int) =~= dotted(quad));
    lemma_ipv4_tail_from(c, quad, j);
}

/// Whether every character is a hexadecimal digit, a colon or a dot.
pub open spec fn hex_colons_and_dots(text: Seq<char>) -> bool {
    forall|i: int|
        0 <= i < text.len() ==> hexdig_chars().contains(#[trigger] text[i]) || text[i] == ':'
            || text[i] == '.'
}

/// Whether the characters of `address` from `from` up to `to` are
/// hexadecimal digits, colons and dots.
spec fn span_is_sound(address: Seq<char>, from: int, to: int) -> bool {
    forall|j: int|
        from <= j < to && j < address.len() ==> hexdig_chars().contains(#[trigger] address[j])
            || address[j] == ':' || address[j] == '.'
}

proof fn lemma_scan_sound(state: StateView, address: Seq<char>, i: nat)
    requires
        !(state is InGroupIpv4),
        state.shared().within(i),
        state.shared().address == address,
        i <= address.len(),
    ensures
        match scan(state, address.skip(i as int), i) {
            Ok(_) => span_is_sound(address, i as int, address.len() as int),
            Err(ExitView::Ipv4Trailer(s)) => s.address == address
                && s.potential_ipv4_address_start < address.len() && span_is_sound(
                address,
                i as int,
                s.potential_ipv4_address_start as int,
            ),
            Err(ExitView::Error(_)) => true,
        },
    decreases address.len() - i,
{
    let text = address.skip(i as int);
    if text.len() > 0 {
        assert(text.skip(1) =~= address.skip(i as int + 1));
        lemma_step_within(state, i, text[0]);
        match next_state(state, i, text[0]) {
            Ok(next) => {
                lemma_scan_sound(next, address, i + 1);
            },
            Err(_) => {},
        }
    }
}

/// An accepted text holds nothing but hexadecimal digits, colons and dots.
pub proof fn lemma_valid_ipv6_chars(text: Seq<char>)
    ensures
        validate_ipv6_spec(text) is Ok ==> hex_colons_and_dots(text),
{
    assert(text.skip(0) =~= text);
    lemma_scan_sound(initial_state(text), text, 0);
    if validate_ipv6_spec(text) is Ok {
        match scan(initial_state(text), text, 0) {
            Ok(_) => {},
            Err(ExitView::Ipv4Trailer(s)) => {
                let start = s.potential_ipv4_address_start as int;
                let tail = text.skip(start);
                lemma_valid_ipv4_chars(tail);
                assert forall|j: int| 0 <= j < text.len() implies hexdig_chars().contains(
                    #[trigger] text[j],
                ) || text[j] == ':' || text[j] == '.' by {
                    if j >= start {
                        assert(tail[j - start] == text[j]);
                    }
                }
            },
            Err(ExitView::Error(_)) => {},
        }
    }
}

} // verus!
