use mini_lmk::render::{join, push_bool, push_i64, push_padded, push_u64};

#[test]
fn numbers_are_written_as_by_the_standard_library() {
    for n in [0u64, 1, 9, 10, 99, 100, 12345, u64::MAX - 1, u64::MAX] {
        let mut out = String::from("x");
        push_u64(&mut out, n);
        assert_eq!(out, format!("x{}", n));
    }
    for n in [0i64, -1, 1, -10, i64::MIN, i64::MAX] {
        let mut out = String::new();
        push_i64(&mut out, n);
        assert_eq!(out, format!("{}", n));
    }
}

#[test]
fn what_is_written_is_read_back() {
    for n in [0u64, 7, 10, 4_294_967_296, u64::MAX] {
        let mut out = String::new();
        push_u64(&mut out, n);
        assert_eq!(mini_lmk::text::parse_u64(&out), Some(n));
    }
    for n in [0i32, -1, i32::MIN, i32::MAX] {
        let mut out = String::new();
        push_i64(&mut out, n as i64);
        assert_eq!(mini_lmk::text::parse_i32(&out), Some(n));
    }
}

#[test]
fn columns_are_padded_by_characters() {
    for s in ["", "ab", "\u{e9}\u{1f600}", "longer than wide"] {
        let mut out = String::from("|");
        push_padded(&mut out, s, 6);
        assert_eq!(out, format!("|{:<6}", s));
    }
}

#[test]
fn small_pieces() {
    let mut out = String::new();
    push_bool(&mut out, true);
    push_bool(&mut out, false);
    assert_eq!(out, "truefalse");
    assert_eq!(join("a/", "b"), "a/b");
}
