//! The runtime's conversions between values and their text.

use kangc::runtime::{k_bool_str, k_i32_str, k_str_bool, k_str_i32, KBoolBool, KI32Bool};

#[test]
fn str_i32_positive() {
    assert_eq!(k_str_i32(42), "42");
}

#[test]
fn str_i32_negative() {
    assert_eq!(k_str_i32(-17), "-17");
}

#[test]
fn str_i32_zero() {
    assert_eq!(k_str_i32(0), "0");
}

#[test]
fn str_i32_min() {
    assert_eq!(k_str_i32(i32::MIN), "-2147483648");
}

#[test]
fn str_bool_true() {
    assert_eq!(k_str_bool(1), "true");
}

#[test]
fn str_bool_false() {
    assert_eq!(k_str_bool(0), "false");
}

#[test]
fn i32_str_valid() {
    let k = k_i32_str("123");
    assert_eq!(k.val, 123);
    assert_eq!(k.ok, 1);
}

#[test]
fn i32_str_negative() {
    let k = k_i32_str("-456");
    assert_eq!(k.val, -456);
    assert_eq!(k.ok, 1);
}

#[test]
fn i32_str_invalid() {
    let k = k_i32_str("not_a_number");
    assert_eq!(k.ok, 0);
}

#[test]
fn i32_str_trailing_garbage() {
    let k = k_i32_str("123abc");
    assert_eq!(k.ok, 0, "尾部非空白应失败");
}

#[test]
fn i32_str_overflow() {
    let k = k_i32_str("9999999999");
    assert_eq!(k.ok, 0, "超出 i32 范围应失败");
}

#[test]
fn bool_str_true() {
    let k = k_bool_str("true");
    assert_eq!(k.val, 1);
    assert_eq!(k.ok, 1);
}

#[test]
fn bool_str_false() {
    let k = k_bool_str("false");
    assert_eq!(k.val, 0);
    assert_eq!(k.ok, 1);
}

#[test]
fn bool_str_invalid() {
    let k = k_bool_str("maybe");
    assert_eq!(k.ok, 0);
}

#[test]
fn bool_str_case_sensitive() {
    let k = k_bool_str("True");
    assert_eq!(k.ok, 0, "大小写应与 C 的 true/false 严格一致");
}

#[test]
fn i32_text_bounds_and_blanks() {
    assert_eq!(k_i32_str("  \t-2147483648 \n"), KI32Bool { val: i32::MIN, ok: 1 });
    assert_eq!(k_i32_str("2147483647"), KI32Bool { val: i32::MAX, ok: 1 });
    assert_eq!(k_i32_str("2147483648"), KI32Bool { val: 0, ok: 0 });
    assert_eq!(k_i32_str("+7"), KI32Bool { val: 7, ok: 1 });
    assert_eq!(k_i32_str("-"), KI32Bool { val: 0, ok: 0 });
    assert_eq!(k_i32_str(""), KI32Bool { val: 0, ok: 0 });
    assert_eq!(k_i32_str("12\0junk"), KI32Bool { val: 12, ok: 1 });
    assert_eq!(k_i32_str("1 2"), KI32Bool { val: 0, ok: 0 });
}

#[test]
fn bool_text_stops_at_nul() {
    assert_eq!(k_bool_str("true\0x"), KBoolBool { val: 1, ok: 1 });
    assert_eq!(k_bool_str(" true"), KBoolBool { val: 0, ok: 0 });
    assert_eq!(k_str_bool(-3), "true");
}

#[test]
fn int_text_round_trip() {
    for n in [0, 7, -17, 2147483647, -2147483648, 1000000] {
        let s = kangc::runtime::k_str_i32(n);
        assert_eq!(kangc::runtime::k_i32_str(&s), kangc::runtime::KI32Bool { val: n, ok: 1 });
    }
}

#[test]
fn bool_text_round_trip() {
    for b in [0, 1, -5, 42] {
        let s = kangc::runtime::k_str_bool(b);
        let expected = if b != 0 { 1 } else { 0 };
        assert_eq!(kangc::runtime::k_bool_str(&s), kangc::runtime::KBoolBool { val: expected, ok: 1 });
    }
}
