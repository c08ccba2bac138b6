use custom_theme::errors::ThemeErr;
use custom_theme::text::{
    chars_of, matches_at, push_chars, push_decimal, push_int, push_str, string_of,
};

fn cs(s: &str) -> Vec<char> {
    s.chars().collect()
}

#[test]
fn chars_and_strings_round_trip() {
    assert_eq!(chars_of("abc"), vec!['a', 'b', 'c']);
    assert_eq!(chars_of(""), Vec::<char>::new());
    assert_eq!(chars_of("é主"), vec!['é', '主']);
    assert_eq!(string_of(&vec!['x', 'y']), "xy");
    assert_eq!(string_of(&vec![]), "");
    assert_eq!(string_of(&chars_of("解析 ok")), "解析 ok");
}

#[test]
fn pushing_appends() {
    let mut out = cs("ab");
    push_chars(&mut out, &cs("cd"));
    assert_eq!(out, cs("abcd"));
    push_str(&mut out, "ef");
    assert_eq!(out, cs("abcdef"));
    push_str(&mut out, "");
    assert_eq!(out, cs("abcdef"));
}

#[test]
fn decimal_numerals() {
    let mut out = Vec::new();
    push_decimal(&mut out, 0);
    assert_eq!(out, cs("0"));
    let mut out = Vec::new();
    push_decimal(&mut out, 9);
    assert_eq!(out, cs("9"));
    let mut out = Vec::new();
    push_decimal(&mut out, 10);
    assert_eq!(out, cs("10"));
    let mut out = Vec::new();
    push_decimal(&mut out, 1234567890);
    assert_eq!(out, cs("1234567890"));
    let mut out = cs("n=");
    push_decimal(&mut out, u64::MAX as u128);
    assert_eq!(out, cs("n=18446744073709551615"));
}

#[test]
fn integer_numerals_carry_their_sign() {
    let mut out = Vec::new();
    push_int(&mut out, -7);
    assert_eq!(out, cs("-7"));
    let mut out = Vec::new();
    push_int(&mut out, 0);
    assert_eq!(out, cs("0"));
    let mut out = Vec::new();
    push_int(&mut out, i64::MIN as i128);
    assert_eq!(out, cs("-9223372036854775808"));
    let mut out = Vec::new();
    push_int(&mut out, i64::MAX as i128);
    assert_eq!(out, cs("9223372036854775807"));
}

#[test]
fn matching_at_a_position() {
    let s = cs("hello");
    assert!(matches_at(&s, 0, &cs("he")));
    assert!(matches_at(&s, 3, &cs("lo")));
    assert!(!matches_at(&s, 4, &cs("lo")));
    assert!(!matches_at(&s, 1, &cs("he")));
    assert!(matches_at(&s, 5, &cs("")));
    assert!(!matches_at(&s, 6, &cs("")));
    assert!(!matches_at(&s, 0, &cs("hello!")));
}

#[test]
fn error_messages() {
    assert_eq!(
        ThemeErr::Syntax("line 1".to_string()).message(),
        "解析失败，配置文件中存在语法错误，位置:line 1"
    );
    assert_eq!(
        ThemeErr::FieldMissing("id".to_string()).message(),
        "解析失败，必填字段缺失:id"
    );
    assert_eq!(
        ThemeErr::UnknownField("x".to_string()).message(),
        "解析失败，未知字段:x"
    );
    assert_eq!(
        ThemeErr::NonExistentNode("grid".to_string()).message(),
        "解析失败，不存在的节点类型:grid"
    );
    assert_eq!(
        ThemeErr::TypeConflict("Row".to_string(), "child_id:Some(1) layout overflow".to_string())
            .message(),
        "解析失败，存在类型冲突: type-Row,field-child_id:Some(1) layout overflow"
    );
    assert_eq!(
        ThemeErr::IdRepeat("7".to_string()).message(),
        "解析失败，存在重复的id: 7"
    );
    assert_eq!(
        ThemeErr::Io("gone".to_string()).message(),
        "IO操作时发生错误: gone"
    );
}
