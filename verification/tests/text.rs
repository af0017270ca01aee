use exch::text::{
    append_decimal, append_padded, join, parse_unsigned, same, separates, split_lines, split_words,
};

#[test]
fn the_separators_are_those_of_the_standard_library() {
    for code in 0..=0x10_ffffu32 {
        if let Some(c) = char::from_u32(code) {
            assert_eq!(separates(c), c.is_whitespace(), "{code:x}");
        }
    }
}

#[test]
fn words_are_those_of_the_standard_library() {
    for line in ["", "   ", "a", " a  b\tc ", "order 0 1\u{a0}buy", "\u{3000}x\u{2003}y\r\n", "ü ß"] {
        let expected: Vec<String> = line.split_whitespace().map(String::from).collect();
        assert_eq!(split_words(line), expected);
    }
}

#[test]
fn lines_end_with_line_feeds() {
    for source in ["", "a", "a\n", "a\nb", "a\r\nb\r\n", "\n\n", "a\r", "\r\n", "x\ty\nz\n"] {
        let expected: Vec<String> = std::io::BufRead::lines(source.as_bytes()).map(|line| line.unwrap()).collect();
        assert_eq!(split_lines(source), expected);
    }
}

#[test]
fn numbers_read_as_the_standard_library_reads_them() {
    for word in [
        "", "0", "7", "+7", "-7", "++7", "+", "007", "12a", "1 2", "18446744073709551615",
        "18446744073709551616", "99999999999999999999999", "4294967295", "4294967296", "\u{663}",
    ] {
        assert_eq!(parse_unsigned(word, u64::MAX), word.parse::<u64>().ok(), "{word}");
        assert_eq!(
            parse_unsigned(word, 0xffff_ffff),
            word.parse::<u32>().ok().map(u64::from),
            "{word}"
        );
    }
    assert_eq!(parse_unsigned("250", 255), Some(250));
    assert_eq!(parse_unsigned("256", 255), None);
}

#[test]
fn decimals_are_written_as_the_standard_library_writes_them() {
    for n in [0u128, 1, 9, 10, 99, 100, 12_345, u64::MAX as u128, u128::MAX] {
        let mut out = String::from("n=");
        append_decimal(&mut out, n);
        assert_eq!(out, format!("n={n}"));
        let mut padded = String::new();
        append_padded(&mut padded, n, 4);
        assert_eq!(padded, format!("{n:04}"));
    }
    let mut written = String::new();
    append_decimal(&mut written, 9_876_543_210);
    assert_eq!(parse_unsigned(&written, u64::MAX), Some(9_876_543_210));
}

#[test]
fn joining_puts_separators_between_parts_only() {
    let parts = |list: &[&str]| list.iter().map(|s| s.to_string()).collect::<Vec<String>>();
    assert_eq!(join(&parts(&[]), ","), "");
    assert_eq!(join(&parts(&["a"]), ","), "a");
    assert_eq!(join(&parts(&["a", "", "c"]), "|"), "a||c");
    assert!(same("abc", "abc"));
    assert!(!same("abc", "abd"));
}
