use remote_logger::text::{push_decimal, push_padded, starts_with, utf8_bytes};

#[test]
fn numbers_are_written_in_decimal() {
    for n in [0, 7, 10, 99, 100, 50_033, u64::MAX] {
        let mut text = "n=".to_string();
        push_decimal(&mut text, n);
        assert_eq!(text, format!("n={}", n));
    }
}

#[test]
fn short_text_is_padded_and_long_text_is_not() {
    let mut text = "|".to_string();
    push_padded(&mut text, "WARN", 5);
    assert_eq!(text, "|WARN ");
    push_padded(&mut text, "ERROR", 5);
    assert_eq!(text, "|WARN ERROR");
    push_padded(&mut text, "longer", 5);
    assert_eq!(text, "|WARN ERRORlonger");
}

#[test]
fn padding_counts_characters() {
    let mut text = String::new();
    push_padded(&mut text, "äö", 4);
    assert_eq!(text, "äö  ");
}

#[test]
fn prefixes_are_found() {
    assert!(starts_with("app::net", "app"));
    assert!(starts_with("app", "app"));
    assert!(starts_with("app", ""));
    assert!(starts_with("", ""));
    assert!(!starts_with("app", "app::net"));
    assert!(!starts_with("app::net", "net"));
    assert!(!starts_with("", "a"));
    assert!(starts_with("äpp", "ä"));
    assert!(!starts_with("äpp", "ö"));
}

#[test]
fn text_is_sent_in_utf8() {
    assert_eq!(utf8_bytes("aä€"), vec![0x61, 0xc3, 0xa4, 0xe2, 0x82, 0xac]);
    assert_eq!(utf8_bytes(""), Vec::<u8>::new());
}
