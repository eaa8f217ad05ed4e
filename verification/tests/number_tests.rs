use guessing_game::number::{parse_integer, ParsedInteger};

#[test]
fn parse_reads_integers_that_fit() {
    assert_eq!(parse_integer("0"), ParsedInteger::Value(0));
    assert_eq!(parse_integer("7"), ParsedInteger::Value(7));
    assert_eq!(parse_integer("150"), ParsedInteger::Value(150));
    assert_eq!(parse_integer("4294967295"), ParsedInteger::Value(4294967295));
    assert_eq!(parse_integer("+4294967295"), ParsedInteger::Value(4294967295));
    assert_eq!(parse_integer("+12"), ParsedInteger::Value(12));
    assert_eq!(parse_integer("007"), ParsedInteger::Value(7));
    assert_eq!(parse_integer("00000000000000000000000000042"), ParsedInteger::Value(42));
    assert_eq!(parse_integer("-0"), ParsedInteger::Value(0));
    assert_eq!(parse_integer("-000"), ParsedInteger::Value(0));
    assert_eq!(parse_integer("+0"), ParsedInteger::Value(0));
}

#[test]
fn parse_refuses_what_is_not_written_as_an_integer() {
    for text in ["", "+", "-", "+-7", "-+7", "++7", "--7", "7+", "7-", " 7", "7 ", "7\n", "a",
        "7a", "a7", "-a", "1_000", "1,000", "1.0", "-1.0", "٣", "７", "½", "−7", "4294967296x",
        "99999999999999999999999999z", "-99999999999999999999999999 "]
    {
        assert_eq!(parse_integer(text), ParsedInteger::Malformed, "{:?}", text);
    }
}

#[test]
fn parse_tells_integers_that_do_not_fit_from_text_that_is_none() {
    for text in ["-1", "-7", "-4294967295", "-4294967296", "4294967296", "4294967300",
        "42949672950", "+4294967296", "99999999999999999999999999",
        "-99999999999999999999999999", "0000000000004294967296", "18446744073709551616",
        "340282366920938463463374607431768211456"]
    {
        assert_eq!(parse_integer(text), ParsedInteger::Unrepresentable, "{:?}", text);
    }
}

#[test]
fn parse_agrees_with_the_standard_reading_of_wide_integers() {
    let samples = ["", "0", "1", "+1", "-1", "+", "-", "00", "0010", "4294967295", "4294967296",
        "-4294967296", "18446744073709551616", " 1", "1 ", "1\t", "one", "1one", "٣", "+0", "-0",
        "+-1", "1+", "12345678901", "000000000000000000000004294967295", "3000000000",
        "5000000000", "-5", "-200", "--5"];
    for text in samples {
        let expected = match text.parse::<i128>() {
            Err(_) => ParsedInteger::Malformed,
            Ok(v) if 0 <= v && v <= u32::MAX as i128 => ParsedInteger::Value(v as u32),
            Ok(_) => ParsedInteger::Unrepresentable,
        };
        assert_eq!(parse_integer(text), expected, "{:?}", text);
    }
    for n in (0..=u32::MAX).step_by(9_999_991) {
        assert_eq!(parse_integer(&n.to_string()), ParsedInteger::Value(n));
        if n > 0 {
            assert_eq!(parse_integer(&format!("-{}", n)), ParsedInteger::Unrepresentable);
        }
    }
}
