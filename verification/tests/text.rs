use pba::text::{chars_of, is_space_char, line_ranges, push_int, push_nat, read_int, token_ranges, token_ranges_in};

fn written(v: i128) -> String {
    let mut out = String::from("x");
    push_int(&mut out, v);
    out
}

fn reads(text: &str, signed: bool, lo: i128, hi: i128) -> Option<i128> {
    let chars = chars_of(text);
    read_int(&chars, 0, chars.len(), signed, lo, hi)
}

#[test]
fn integers_are_written_in_decimal() {
    assert_eq!(written(0), "x0");
    assert_eq!(written(7), "x7");
    assert_eq!(written(-1), "x-1");
    assert_eq!(written(10), "x10");
    assert_eq!(written(-128), "x-128");
    assert_eq!(written(1_000_000_007), "x1000000007");
    assert_eq!(written(i64::MIN as i128), format!("x{}", i64::MIN));
    assert_eq!(written(i128::MAX), format!("x{}", i128::MAX));
    assert_eq!(written(i128::MIN), format!("x{}", i128::MIN));
    let mut out = String::new();
    push_nat(&mut out, u128::MAX);
    assert_eq!(out, format!("{}", u128::MAX));
}

#[test]
fn written_integers_read_back() {
    for v in -300i128..300 {
        let text = written(v);
        assert_eq!(reads(&text[1..], true, -300, 300), Some(v));
        assert_eq!(reads(&text[1..], true, i8::MIN as i128, i8::MAX as i128), if (-128..128).contains(&v) { Some(v) } else { None });
        assert_eq!(reads(&text[1..], false, 0, 300), if v >= 0 { Some(v) } else { None });
    }
}

#[test]
fn reading_agrees_with_the_standard_parser() {
    let samples = [
        "", "+", "-", "0", "-0", "+0", "00", "007", "+7", "-7", "--7", "+-7", "7-", "1 ", " 1", "1_0", "1.0", "127",
        "128", "-128", "-129", "255", "256", "0000000000000000000000000000000000000000127",
        "99999999999999999999999999999999999999999999", "-99999999999999999999999999999999999999999999", "١", "a",
        "4294967295", "4294967296",
    ];
    for text in samples {
        assert_eq!(reads(text, true, -128, 127), text.parse::<i8>().ok().map(|v| v as i128), "{:?}", text);
        assert_eq!(reads(text, false, 0, 255), text.parse::<u8>().ok().map(|v| v as i128), "{:?}", text);
        assert_eq!(
            reads(text, false, 0, u32::MAX as i128),
            text.parse::<u32>().ok().map(|v| v as i128),
            "{:?}",
            text
        );
    }
}

#[test]
fn reading_a_part_of_a_text() {
    let chars = chars_of("ab-12cd");
    assert_eq!(read_int(&chars, 2, 5, true, -100, 100), Some(-12));
    assert_eq!(read_int(&chars, 3, 5, true, -100, 100), Some(12));
    assert_eq!(read_int(&chars, 2, 6, true, -100, 100), None);
    assert_eq!(read_int(&chars, 3, 3, true, -100, 100), None);
}

#[test]
fn separators_are_the_white_space_characters() {
    for code in 0u32..0x11000 {
        if let Some(c) = char::from_u32(code) {
            assert_eq!(is_space_char(c), c.is_whitespace(), "U+{:04X}", code);
        }
    }
}

#[test]
fn tokens_are_the_runs_between_separators() {
    for text in ["", " ", "a", " a", "a ", "a b", "  ab \t\n cd\u{3000}e  ", "1 22 333", "\u{a0}x\u{85}"] {
        let chars = chars_of(text);
        let found: Vec<String> =
            token_ranges(&chars).iter().map(|(a, b)| chars[*a..*b].iter().collect()).collect();
        let expected: Vec<String> = text.split_whitespace().map(|t| t.to_string()).collect();
        assert_eq!(found, expected, "{:?}", text);
    }
    let chars = chars_of("ab cd ef");
    assert_eq!(token_ranges_in(&chars, 1, 7), vec![(1, 2), (3, 5), (6, 7)]);
}

#[test]
fn lines_are_the_pieces_between_line_feeds() {
    for text in ["", "\n", "a", "a\n", "\na", "a\nb", "a\n\nb\n", "one two\r\nthree\n"] {
        let chars = chars_of(text);
        let found: Vec<String> =
            line_ranges(&chars).iter().map(|(a, b)| chars[*a..*b].iter().collect()).collect();
        let expected: Vec<String> = text.split("\n").map(|t| t.to_string()).collect();
        assert_eq!(found, expected, "{:?}", text);
    }
}

#[test]
fn chars_of_keeps_every_character() {
    assert_eq!(chars_of("aé\u{2003}z"), vec!['a', 'é', '\u{2003}', 'z']);
    assert!(chars_of("").is_empty());
}
