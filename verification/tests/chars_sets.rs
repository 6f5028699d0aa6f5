use http::chars_sets::{
    alpha, digit, hexdig, ipv_future_last_part, is_alpha, is_digit, is_hexdig,
    is_ipv_future_last_part, is_reg_name_not_pct_encoded, is_scheme, is_sub_delim, is_unreserved,
    is_user_info_not_pct_encoded, reg_name_not_pct_encoded, scheme, sub_delims, unreserved,
    user_info_not_pct_encoded, CharacterSet,
};

fn members(set: &CharacterSet) -> String {
    (0..0x300u32).filter_map(char::from_u32).filter(|c| set.contains(*c)).collect()
}

fn accepted(test: fn(char) -> bool) -> String {
    (0..0x300u32).filter_map(char::from_u32).filter(|c| test(*c)).collect()
}

const UPPER: &str = "ABCDEFGHIJKLMNOPQRSTUVWXYZ";
const LOWER: &str = "abcdefghijklmnopqrstuvwxyz";

#[test]
fn alpha_table() {
    assert_eq!(members(&alpha()), format!("{}{}", UPPER, LOWER));
    assert_eq!(accepted(is_alpha), members(&alpha()));
}

#[test]
fn digit_table() {
    assert_eq!(members(&digit()), "0123456789");
    assert_eq!(accepted(is_digit), members(&digit()));
}

#[test]
fn hexdig_table() {
    assert_eq!(members(&hexdig()), "0123456789ABCDEFabcdef");
    assert_eq!(accepted(is_hexdig), members(&hexdig()));
}

#[test]
fn scheme_table() {
    assert_eq!(members(&scheme()), format!("+-.0123456789{}{}", UPPER, LOWER));
    assert_eq!(accepted(is_scheme), members(&scheme()));
}

#[test]
fn unreserved_table() {
    assert_eq!(members(&unreserved()), format!("-.0123456789{}_{}~", UPPER, LOWER));
    assert_eq!(accepted(is_unreserved), members(&unreserved()));
}

#[test]
fn sub_delims_table() {
    assert_eq!(members(&sub_delims()), "!$&'()*+,;=");
    assert_eq!(accepted(is_sub_delim), members(&sub_delims()));
}

#[test]
fn composite_tables() {
    let reg_name = format!("!$&'()*+,-.0123456789;={}_{}~", UPPER, LOWER);
    let with_colon = format!("!$&'()*+,-.0123456789:;={}_{}~", UPPER, LOWER);
    assert_eq!(members(&reg_name_not_pct_encoded()), reg_name);
    assert_eq!(members(&user_info_not_pct_encoded()), with_colon);
    assert_eq!(members(&ipv_future_last_part()), with_colon);
    assert_eq!(accepted(is_reg_name_not_pct_encoded), reg_name);
    assert_eq!(accepted(is_user_info_not_pct_encoded), with_colon);
    assert_eq!(accepted(is_ipv_future_last_part), with_colon);
}

#[test]
fn character_set_by_hand() {
    let mut set = CharacterSet::new();
    assert!(!set.contains('a'));
    set.insert('q');
    set.insert('\u{1f600}');
    set.insert_range(0x30, 0x32);
    set.insert_range(0x39, 0x30);
    assert!(set.contains('q'));
    assert!(set.contains('\u{1f600}'));
    assert!(set.contains('0') && set.contains('1') && set.contains('2'));
    assert!(!set.contains('3') && !set.contains('9') && !set.contains('p'));
    assert!(!set.contains('\u{1f601}'));
}
