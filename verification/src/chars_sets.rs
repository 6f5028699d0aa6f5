//! Character classes of the URI grammar.
//!
//! Every class exists three times: as a mathematical set (`*_chars`), as a
//! constant-time membership test on one character (`is_*`), and as a
//! [`CharacterSet`] table that can be handed to the percent-encoding codec.
use vstd::prelude::*;

verus! {

/// The letters `a`-`z` and `A`-`Z`.
pub open spec fn alpha_chars() -> Set<char> {
    Set::new(|c: char| ('a' <= c <= 'z') || ('A' <= c <= 'Z'))
}

/// The decimal digits `0`-`9`.
pub open spec fn digit_chars() -> Set<char> {
    Set::new(|c: char| '0' <= c <= '9')
}

/// The hexadecimal digits, in either case.
pub open spec fn hexdig_chars() -> Set<char> {
    Set::new(|c: char| digit_chars().contains(c) || ('A' <= c <= 'F') || ('a' <= c <= 'f'))
}

/// Letters, digits and `+ - .`.
pub open spec fn scheme_chars() -> Set<char> {
    Set::new(
        |c: char|
            alpha_chars().contains(c) || digit_chars().contains(c) || c == '+' || c == '-' || c
                == '.',
    )
}

/// Letters, digits and `- . _ ~`.
pub open spec fn unreserved_chars() -> Set<char> {
    Set::new(
        |c: char|
            alpha_chars().contains(c) || digit_chars().contains(c) || c == '-' || c == '.' || c
                == '_' || c == '~',
    )
}

/// The sub-delimiters `! $ & ' ( ) * + , ; =`.
pub open spec fn sub_delims_chars() -> Set<char> {
    Set::new(
        |c: char|
            c == '!' || c == '$' || c == '&' || c == '\'' || c == '(' || c == ')' || c == '*' || c
                == '+' || c == ',' || c == ';' || c == '=',
    )
}

/// What may stand unescaped in the user information: unreserved characters,
/// sub-delimiters and `:`.
pub open spec fn user_info_not_pct_encoded_chars() -> Set<char> {
    Set::new(|c: char| unreserved_chars().contains(c) || sub_delims_chars().contains(c) || c == ':')
}

/// What may stand unescaped in a registered name: unreserved characters and
/// sub-delimiters.
pub open spec fn reg_name_not_pct_encoded_chars() -> Set<char> {
    Set::new(|c: char| unreserved_chars().contains(c) || sub_delims_chars().contains(c))
}

/// What may stand behind the dot of an IPvFuture literal: unreserved
/// characters, sub-delimiters and `:`.
pub open spec fn ipv_future_last_part_chars() -> Set<char> {
    Set::new(|c: char| unreserved_chars().contains(c) || sub_delims_chars().contains(c) || c == ':')
}

/// The characters that stand for the bytes `first..=last`.
pub open spec fn byte_range_chars(first: u8, last: u8) -> Set<char> {
    Set::new(|c: char| first as int <= c as int <= last as int)
}

/// Whether `c` is a letter: see [`alpha_chars`].
pub fn is_alpha(c: char) -> (b: bool)
    ensures
        b == alpha_chars().contains(c),
{
    ('a' <= c && c <= 'z') || ('A' <= c && c <= 'Z')
}

/// Whether `c` is a decimal digit: see [`digit_chars`].
pub fn is_digit(c: char) -> (b: bool)
    ensures
        b == digit_chars().contains(c),
{
    '0' <= c && c <= '9'
}

/// Whether `c` is a hexadecimal digit: see [`hexdig_chars`].
pub fn is_hexdig(c: char) -> (b: bool)
    ensures
        b == hexdig_chars().contains(c),
{
    is_digit(c) || ('A' <= c && c <= 'F') || ('a' <= c && c <= 'f')
}

/// Whether `c` may stand in a scheme: see [`scheme_chars`].
pub fn is_scheme(c: char) -> (b: bool)
    ensures
        b == scheme_chars().contains(c),
{
    is_alpha(c) || is_digit(c) || c == '+' || c == '-' || c == '.'
}

/// Whether `c` is unreserved: see [`unreserved_chars`].
pub fn is_unreserved(c: char) -> (b: bool)
    ensures
        b == unreserved_chars().contains(c),
{
    is_alpha(c) || is_digit(c) || c == '-' || c == '.' || c == '_' || c == '~'
}

/// Whether `c` is a sub-delimiter: see [`sub_delims_chars`].
pub fn is_sub_delim(c: char) -> (b: bool)
    ensures
        b == sub_delims_chars().contains(c),
{
    c == '!' || c == '$' || c == '&' || c == '\'' || c == '(' || c == ')' || c == '*' || c == '+'
        || c == ',' || c == ';' || c == '='
}

/// Whether `c` may stand unescaped in the user information: see
/// [`user_info_not_pct_encoded_chars`].
pub fn is_user_info_not_pct_encoded(c: char) -> (b: bool)
    ensures
        b == user_info_not_pct_encoded_chars().contains(c),
{
    is_unreserved(c) || is_sub_delim(c) || c == ':'
}

/// Whether `c` may stand unescaped in a registered name: see
/// [`reg_name_not_pct_encoded_chars`].
pub fn is_reg_name_not_pct_encoded(c: char) -> (b: bool)
    ensures
        b == reg_name_not_pct_encoded_chars().contains(c),
{
    is_unreserved(c) || is_sub_delim(c)
}

/// Whether `c` may stand behind the dot of an IPvFuture literal: see
/// [`ipv_future_last_part_chars`].
pub fn is_ipv_future_last_part(c: char) -> (b: bool)
    ensures
        b == ipv_future_last_part_chars().contains(c),
{
    is_unreserved(c) || is_sub_delim(c) || c == ':'
}

/// The characters whose flag is set in a table indexed by code point.
pub open spec fn table_chars(table: Seq<bool>) -> Set<char> {
    Set::new(|c: char| (c as u32 as int) < table.len() as int && table[c as u32 as int])
}

/// Two characters with one code point are one character.
proof fn lemma_code_injective(a: char, b: char)
    ensures
        a as u32 == b as u32 ==> a == b,
        0 <= a as int <= 0x10FFFF,
        a as u32 as int == a as int,
{
}

/// A set of characters with a constant-time membership test: a table of
/// flags indexed by code point. A character beyond the table's end is not a
/// member, so every table stands for a set.
#[derive(Debug)]
pub struct CharacterSet {
    table: Vec<bool>,
}

impl View for CharacterSet {
    type V = Set<char>;

    closed spec fn view(&self) -> Set<char> {
        table_chars(self.table@)
    }
}

impl CharacterSet {
    /// The empty set.
    pub fn new() -> (s: Self)
        ensures
            s@ == Set::<char>::empty(),
    {
        CharacterSet { table: Vec::new() }
    }

    /// Whether `c` is a member.
    pub fn contains(&self, c: char) -> (b: bool)
        ensures
            b == self@.contains(c),
    {
        let i: usize = c as u32 as usize;
        i < self.table.len() && self.table[i]
    }

    /// Adds `c`.
    pub fn insert(&mut self, c: char)
        ensures
            final(self)@ == old(self)@.insert(c),
    {
        let i: usize = c as u32 as usize;
        while self.table.len() <= i
            invariant
                self.table@.len() >= old(self).table@.len(),
                forall|j: int|
                    0 <= j < old(self).table@.len() ==> self.table@[j] == old(self).table@[j],
                forall|j: int| old(self).table@.len() <= j < self.table@.len() ==> !self.table@[j],
            decreases i + 1 - self.table@.len(),
        {
            self.table.push(false);
        }
        self.table.set(i, true);
        assert forall|d: char| self@.contains(d) == old(self)@.insert(c).contains(d) by {
            if d != c {
                lemma_code_injective(d, c);
            }
        }
    }

    /// Adds the characters that stand for the bytes `first..=last`.
    pub fn insert_range(&mut self, first: u8, last: u8)
        ensures
            final(self)@ == old(self)@.union(byte_range_chars(first, last)),
    {
        if first > last {
            return;
        }
        let mut b: u8 = first;
        while b < last
            invariant
                first <= b <= last,
                self@ == old(self)@.union(
                    Set::new(|c: char| first as int <= c as int && (c as int) < b as int),
                ),
            decreases last - b,
        {
            self.insert(b as char);
            b = b + 1;
        }
        self.insert(last as char);
    }
}

fn add_alpha(s: &mut CharacterSet)
    ensures
        final(s)@ == old(s)@.union(alpha_chars()),
{
    s.insert_range('a' as u8, 'z' as u8);
    s.insert_range('A' as u8, 'Z' as u8);
}

fn add_digit(s: &mut CharacterSet)
    ensures
        final(s)@ == old(s)@.union(digit_chars()),
{
    s.insert_range('0' as u8, '9' as u8);
}

fn add_unreserved(s: &mut CharacterSet)
    ensures
        final(s)@ == old(s)@.union(unreserved_chars()),
{
    add_alpha(s);
    add_digit(s);
    s.insert('-');
    s.insert('.');
    s.insert('_');
    s.insert('~');
}

fn add_sub_delims(s: &mut CharacterSet)
    ensures
        final(s)@ == old(s)@.union(sub_delims_chars()),
{
    s.insert('!');
    s.insert('$');
    s.insert('&');
    s.insert('\'');
    s.insert('(');
    s.insert(')');
    s.insert('*');
    s.insert('+');
    s.insert(',');
    s.insert(';');
    s.insert('=');
}

/// The table of [`alpha_chars`].
pub fn alpha() -> (s: CharacterSet)
    ensures
        s@ == alpha_chars(),
{
    let mut s = CharacterSet::new();
    add_alpha(&mut s);
    s
}

/// The table of [`digit_chars`].
pub fn digit() -> (s: CharacterSet)
    ensures
        s@ == digit_chars(),
{
    let mut s = CharacterSet::new();
    add_digit(&mut s);
    s
}

/// The table of [`hexdig_chars`].
pub fn hexdig() -> (s: CharacterSet)
    ensures
        s@ == hexdig_chars(),
{
    let mut s = CharacterSet::new();
    add_digit(&mut s);
    s.insert_range('A' as u8, 'F' as u8);
    s.insert_range('a' as u8, 'f' as u8);
    s
}

/// The table of [`scheme_chars`].
pub fn scheme() -> (s: CharacterSet)
    ensures
        s@ == scheme_chars(),
{
    let mut s = CharacterSet::new();
    add_alpha(&mut s);
    add_digit(&mut s);
    s.insert('+');
    s.insert('-');
    s.insert('.');
    s
}

/// The table of [`unreserved_chars`].
pub fn unreserved() -> (s: CharacterSet)
    ensures
        s@ == unreserved_chars(),
{
    let mut s = CharacterSet::new();
    add_unreserved(&mut s);
    s
}

/// The table of [`sub_delims_chars`].
pub fn sub_delims() -> (s: CharacterSet)
    ensures
        s@ == sub_delims_chars(),
{
    let mut s = CharacterSet::new();
    add_sub_delims(&mut s);
    s
}

/// The table of [`user_info_not_pct_encoded_chars`].
pub fn user_info_not_pct_encoded() -> (s: CharacterSet)
    ensures
        s@ == user_info_not_pct_encoded_chars(),
{
    let mut s = CharacterSet::new();
    add_unreserved(&mut s);
    add_sub_delims(&mut s);
    s.insert(':');
    s
}

/// The table of [`reg_name_not_pct_encoded_chars`].
pub fn reg_name_not_pct_encoded() -> (s: CharacterSet)
    ensures
        s@ == reg_name_not_pct_encoded_chars(),
{
    let mut s = CharacterSet::new();
    add_unreserved(&mut s);
    add_sub_delims(&mut s);
    s
}

/// The table of [`ipv_future_last_part_chars`].
pub fn ipv_future_last_part() -> (s: CharacterSet)
    ensures
        s@ == ipv_future_last_part_chars(),
{
    let mut s = CharacterSet::new();
    add_unreserved(&mut s);
    add_sub_delims(&mut s);
    s.insert(':');
    s
}

} // verus!
