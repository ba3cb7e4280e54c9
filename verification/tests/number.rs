use custom_rule::number::{decimal_text, digit_of, pad_with_zeros, parse_u64, value_of_digit};

fn chars(s: &str) -> Vec<char> {
    s.chars().collect()
}

fn text(v: &[char]) -> String {
    v.iter().collect()
}

#[test]
fn parse_plain_numbers() {
    assert_eq!(parse_u64(&chars("0")), Some(0));
    assert_eq!(parse_u64(&chars("7")), Some(7));
    assert_eq!(parse_u64(&chars("20")), Some(20));
    assert_eq!(parse_u64(&chars("1234567890")), Some(1_234_567_890));
}

#[test]
fn parse_keeps_leading_zeros_out_of_the_value() {
    assert_eq!(parse_u64(&chars("007")), Some(7));
    assert_eq!(parse_u64(&chars("0000")), Some(0));
    assert_eq!(parse_u64(&chars("000000000000000000000000000000012")), Some(12));
}

#[test]
fn parse_takes_one_leading_plus() {
    assert_eq!(parse_u64(&chars("+5")), Some(5));
    assert_eq!(parse_u64(&chars("+0")), Some(0));
    assert_eq!(parse_u64(&chars("++5")), None);
    assert_eq!(parse_u64(&chars("+")), None);
    assert_eq!(parse_u64(&chars("5+")), None);
}

#[test]
fn parse_refuses_what_is_no_number() {
    assert_eq!(parse_u64(&chars("")), None);
    assert_eq!(parse_u64(&chars("-1")), None);
    assert_eq!(parse_u64(&chars("-")), None);
    assert_eq!(parse_u64(&chars("1a")), None);
    assert_eq!(parse_u64(&chars("a1")), None);
    assert_eq!(parse_u64(&chars(" 1")), None);
    assert_eq!(parse_u64(&chars("1 ")), None);
    assert_eq!(parse_u64(&chars("1.0")), None);
    assert_eq!(parse_u64(&chars("1_000")), None);
    assert_eq!(parse_u64(&chars("\u{0663}")), None);
    assert_eq!(parse_u64(&chars("/")), None);
    assert_eq!(parse_u64(&chars(":")), None);
}

#[test]
fn parse_at_the_limit_of_64_bits() {
    assert_eq!(parse_u64(&chars("18446744073709551615")), Some(u64::MAX));
    assert_eq!(parse_u64(&chars("+18446744073709551615")), Some(u64::MAX));
    assert_eq!(parse_u64(&chars("018446744073709551615")), Some(u64::MAX));
    assert_eq!(parse_u64(&chars("18446744073709551616")), None);
    assert_eq!(parse_u64(&chars("18446744073709551620")), None);
    assert_eq!(parse_u64(&chars("99999999999999999999")), None);
    assert_eq!(parse_u64(&chars("100000000000000000000000")), None);
    assert_eq!(parse_u64(&chars("99999999999999999999999x")), None);
}

#[test]
fn parse_agrees_with_the_standard_parser() {
    let samples = [
        "", "0", "1", "+1", "-1", "+", "-", "++1", "+-1", "12", "0012", "1 2", "12a", "a12",
        "4294967295", "4294967296", "18446744073709551615", "18446744073709551616",
        "+18446744073709551615", "184467440737095516150", "9", "09", "+09", "1+", "\u{ff11}",
        "1e3", "0x10", ".", "1.", "\n1",
    ];
    for sample in samples.iter() {
        assert_eq!(parse_u64(&chars(sample)), sample.parse::<u64>().ok(), "on {:?}", sample);
    }
}

#[test]
fn decimal_text_of_some_numbers() {
    assert_eq!(text(&decimal_text(0)), "0");
    assert_eq!(text(&decimal_text(9)), "9");
    assert_eq!(text(&decimal_text(10)), "10");
    assert_eq!(text(&decimal_text(64)), "64");
    assert_eq!(text(&decimal_text(1_000_000)), "1000000");
    assert_eq!(text(&decimal_text(u64::MAX)), "18446744073709551615");
}

#[test]
fn decimal_text_agrees_with_the_standard_formatter() {
    let mut n: u64 = 0;
    for _ in 0..2000 {
        assert_eq!(text(&decimal_text(n)), n.to_string());
        n = n.wrapping_mul(6364136223846793005).wrapping_add(1442695040888963407);
    }
    for n in 0..1200u64 {
        assert_eq!(text(&decimal_text(n)), n.to_string());
    }
}

#[test]
fn reading_the_text_of_a_number_gives_it_back() {
    for n in [0u64, 1, 9, 10, 99, 100, 12345, u64::MAX - 1, u64::MAX] {
        assert_eq!(parse_u64(&decimal_text(n)), Some(n));
    }
}

#[test]
fn padding_fills_up_to_the_width() {
    assert_eq!(text(&pad_with_zeros(&chars("42"), 5)), "00042");
    assert_eq!(text(&pad_with_zeros(&chars("20"), 4)), "0020");
    assert_eq!(text(&pad_with_zeros(&chars("0"), 5)), "00000");
    assert_eq!(text(&pad_with_zeros(&chars(""), 2)), "00");
}

#[test]
fn padding_never_cuts() {
    assert_eq!(text(&pad_with_zeros(&chars("12345"), 3)), "12345");
    assert_eq!(text(&pad_with_zeros(&chars("12345"), 5)), "12345");
    assert_eq!(text(&pad_with_zeros(&chars("10"), 1)), "10");
    assert_eq!(text(&pad_with_zeros(&chars("7"), 0)), "7");
    assert_eq!(text(&pad_with_zeros(&chars(""), 0)), "");
}

#[test]
fn digits_and_their_values() {
    for d in 0..10u8 {
        let c = digit_of(d);
        assert_eq!(c, (b'0' + d) as char);
        assert_eq!(value_of_digit(c), Some(d));
    }
    assert_eq!(value_of_digit('/'), None);
    assert_eq!(value_of_digit(':'), None);
    assert_eq!(value_of_digit('a'), None);
    assert_eq!(value_of_digit('+'), None);
    assert_eq!(value_of_digit('\u{0663}'), None);
}
