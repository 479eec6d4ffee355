use maymun_lang::grammar::Precedence;
use maymun_lang::text::{bool_to_str, int_to_string, nat_to_string, str_eq};

#[test]
fn numbers_in_decimal() {
    assert_eq!("0", nat_to_string(0));
    assert_eq!("9", nat_to_string(9));
    assert_eq!("10", nat_to_string(10));
    assert_eq!("1234567890", nat_to_string(1234567890));
    assert_eq!("18446744073709551615", nat_to_string(u64::MAX));
    assert_eq!("0", int_to_string(0));
    assert_eq!("-1", int_to_string(-1));
    assert_eq!("934343", int_to_string(934343));
    assert_eq!("9223372036854775807", int_to_string(i64::MAX));
    assert_eq!("-9223372036854775808", int_to_string(i64::MIN));
    assert_eq!("-9223372036854775807", int_to_string(i64::MIN + 1));
}

#[test]
fn decimal_agrees_with_the_standard_library() {
    let samples: Vec<i64> = vec![0, 1, -1, 9, 10, 11, 99, 100, 101, -100, 4096, -65535, 1 << 40];
    for n in samples {
        assert_eq!(n.to_string(), int_to_string(n));
    }
}

#[test]
fn truth_values_as_words() {
    assert_eq!("true", bool_to_str(true));
    assert_eq!("false", bool_to_str(false));
}

#[test]
fn string_slices_compare_by_their_characters() {
    assert!(str_eq("", ""));
    assert!(str_eq("let", "let"));
    assert!(!str_eq("let", "le"));
    assert!(!str_eq("le", "let"));
    assert!(!str_eq("let", "lit"));
    assert!(str_eq("\u{e9}t\u{e9}", "\u{e9}t\u{e9}"));
    // Two characters in as many bytes as one three-byte character.
    assert!(!str_eq("\u{e9}a", "\u{20ac}"));
}

#[test]
fn precedences_rank_from_lowest_to_call() {
    let ranks: Vec<u8> = vec![
        Precedence::Lowest.level(),
        Precedence::Equals.level(),
        Precedence::LessGreater.level(),
        Precedence::Sum.level(),
        Precedence::Product.level(),
        Precedence::Prefix.level(),
        Precedence::Call.level(),
    ];
    assert_eq!(vec![0, 1, 2, 3, 4, 5, 6], ranks);
}
