use legal_learn::text::{
    chars_of, contains_char, find_in, line_ranges, occurs, skip_leading, string_of, take_chars,
    trim_range, whitespace,
};

fn trimmed(s: &str) -> String {
    let chars = chars_of(s);
    let (lo, hi) = trim_range(&chars, 0, chars.len());
    string_of(&chars, lo, hi)
}

fn lines(s: &str) -> Vec<String> {
    let chars = chars_of(s);
    line_ranges(&chars, 0, chars.len()).iter().map(|r| string_of(&chars, r.0, r.1)).collect()
}

#[test]
fn whitespace_is_that_of_std() {
    for code in 0..=0x10ffff_u32 {
        if let Some(c) = char::from_u32(code) {
            assert_eq!(whitespace(c), c.is_whitespace(), "{code:x}");
        }
    }
}

#[test]
fn trimming_is_that_of_std() {
    for s in ["", " ", "a", "  판결 요지\t\n", "\u{3000}조\u{a0}", "a b", "\r\n\r\n", "x\u{200b}"] {
        assert_eq!(trimmed(s), s.trim());
    }
}

#[test]
fn lines_are_those_of_std() {
    let samples = [
        "", "\n", "\n\n", "a", "a\n", "a\nb", "a\r\nb\r\n", "a\r", "a\rb\n", "\r\n", "a\n\r\n\nb",
        "제목: 민법\n부칙", "a\r\r\nb",
    ];
    for s in samples {
        let expected: Vec<String> = s.lines().map(|l| l.to_string()).collect();
        assert_eq!(lines(s), expected, "{s:?}");
    }
}

#[test]
fn finding_is_that_of_std() {
    let samples =
        [("", ""), ("abc", ""), ("aab", "ab"), ("가나가나다", "가나다"), ("abc", "d"), ("a", "aa")];
    for (s, pat) in samples {
        let chars = chars_of(s);
        let at = find_in(&chars, &chars_of(pat), 0, chars.len());
        let expected = s.find(pat).map(|b| s[..b].chars().count());
        assert_eq!(at, expected, "{s:?} {pat:?}");
    }
}

#[test]
fn finding_stays_in_the_range() {
    let chars = chars_of("abcabc");
    let pat = chars_of("abc");
    assert_eq!(find_in(&chars, &pat, 1, 6), Some(3));
    assert_eq!(find_in(&chars, &pat, 1, 5), None);
    assert!(occurs(&chars, &pat, 0, 6, 3));
    assert!(!occurs(&chars, &pat, 0, 5, 3));
}

#[test]
fn leading_characters_are_skipped() {
    let chars = chars_of("::: a:");
    assert_eq!(skip_leading(&chars, ':', 0, 6), 3);
    assert_eq!(skip_leading(&chars, ':', 0, 2), 2);
    assert_eq!(skip_leading(&chars, 'x', 0, 6), 0);
    assert!(contains_char(&chars, 'a', 0, 6));
    assert!(!contains_char(&chars, 'a', 0, 4));
}

#[test]
fn characters_are_counted_not_bytes() {
    assert_eq!(take_chars("대한민국", 2), "대한");
    assert_eq!(take_chars("대한", 2), "대한");
    assert_eq!(take_chars("대한", 5), "대한");
    assert_eq!(take_chars("대한", 0), "");
}
