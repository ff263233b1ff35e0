use cvdbench::order::{at_most, order_of};
use cvdbench::strmap::StrMap;
use cvdbench::text::{
    chars_of, decimal_of, digits_from, join_with, number_of, push_aligned, push_padded, signed_decimal_of,
    split_at_char, str_eq, string_of, strip_suffix, to_lower, trim, unsigned_of, white,
};

#[test]
fn white_space_is_that_of_unicode() {
    for n in 0..=0x10_ffffu32 {
        if let Some(c) = char::from_u32(n) {
            assert_eq!(white(c), c.is_whitespace(), "{n:x}");
        }
    }
}

#[test]
fn trimming_takes_off_both_ends() {
    for s in ["", " ", "\u{3000}a b\t", "x", "\n\nmany words \u{85}"] {
        assert_eq!(string_of(&trim(&chars_of(s))), s.trim(), "{s:?}");
    }
}

#[test]
fn only_ascii_letters_are_lowered() {
    for s in ["ABC", "aBc-É", "K\u{212a}"] {
        assert_eq!(to_lower(&chars_of(s)), s.to_ascii_lowercase());
    }
}

#[test]
fn numbers_are_read_and_written() {
    for n in [0u64, 9, 10, 12345, u64::MAX] {
        assert_eq!(decimal_of(n as u128), n.to_string());
        assert_eq!(number_of(&chars_of(&n.to_string())), Some(n));
    }
    for n in [0i64, -1, i64::MIN, i64::MAX] {
        assert_eq!(signed_decimal_of(n), n.to_string());
    }
    assert_eq!(number_of(&chars_of("18446744073709551616")), None);
    assert_eq!(unsigned_of(&chars_of("+7")), "+7".parse::<u64>().ok());
    assert_eq!(unsigned_of(&chars_of("")), None);
    assert_eq!(unsigned_of(&chars_of("1x")), None);
    assert_eq!(digits_from(&chars_of("a12b"), 1), 2);
}

#[test]
fn texts_are_split_and_joined() {
    assert_eq!(split_at_char("a,,b", ','), ["a", "", "b"]);
    assert_eq!(split_at_char("", ','), [""]);
    assert_eq!(join_with(&split_at_char("x/y/", '/'), "/"), "x/y/");
    assert_eq!(strip_suffix(&chars_of("10Ki"), "i"), Some(chars_of("10K")));
    assert_eq!(strip_suffix(&chars_of("10K"), "i"), None);
    assert!(str_eq("é", "é"));
    assert!(!str_eq("e", "é"));
}

#[test]
fn columns_are_padded_by_characters() {
    let mut s = String::new();
    push_padded(&mut s, "é", 3);
    push_aligned(&mut s, "7", 3);
    push_padded(&mut s, "long", 2);
    assert_eq!(s, "é    7long");
}

#[test]
fn keys_are_ordered_as_text() {
    let keys = ["b", "", "ab", "a", "\u{10000}", "\u{ffff}", "Z"];
    let mut m = StrMap::new();
    for k in keys {
        m.insert(k.to_owned(), ());
    }
    let ordered: Vec<&str> = order_of(&m).into_iter().map(|i| m.key_at(i).as_str()).collect();
    let mut sorted = keys.to_vec();
    sorted.sort();
    assert_eq!(ordered, sorted);
    for a in keys {
        for b in keys {
            assert_eq!(at_most(a, b), a <= b, "{a:?} {b:?}");
        }
    }
}
