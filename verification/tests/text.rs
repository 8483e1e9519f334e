use coffer::text::{
    chars_of, decimal_string, find, has_prefix, is_text, is_white, lines_of, parse_number, same, split_at_each,
    string_of, trim, trim_end, trim_start,
};

fn chars(s: &str) -> Vec<char> {
    s.chars().collect()
}

#[test]
fn white_space_is_that_of_unicode() {
    for n in 0..=0x10ffffu32 {
        if let Some(c) = char::from_u32(n) {
            assert_eq!(is_white(c), c.is_whitespace(), "{n:x}");
        }
    }
}

#[test]
fn trimming_agrees_with_the_standard_library() {
    for s in ["", " ", "a", " a ", "\t a\u{3000}b \r\n", "\u{85}x\u{a0}", "\u{200b}x "] {
        let c = chars(s);
        assert_eq!(string_of(trim(&c)), s.trim());
        assert_eq!(string_of(trim_start(&c)), s.trim_start());
        assert_eq!(string_of(trim_end(&c)), s.trim_end());
    }
}

#[test]
fn lines_agree_with_the_standard_library() {
    for s in ["", "\n", "a", "a\n", "a\n\n", "a\r\nb", "a\r", "a\r\r\n", "\r\n", "\n\r\n\n", "ä\nö\r\nü"] {
        let c = chars(s);
        let mine: Vec<String> = lines_of(&c).iter().map(|l| string_of(l)).collect();
        let theirs: Vec<String> = s.lines().map(String::from).collect();
        assert_eq!(mine, theirs, "{s:?}");
    }
}

#[test]
fn splitting_agrees_with_the_standard_library() {
    for s in ["", ":", "a", "a:b", ":a::b:"] {
        let c = chars(s);
        let mine: Vec<String> = split_at_each(&c, ':').iter().map(|l| string_of(l)).collect();
        let theirs: Vec<String> = s.split(':').map(String::from).collect();
        assert_eq!(mine, theirs, "{s:?}");
    }
}

#[test]
fn numbers_agree_with_the_standard_library() {
    let samples = [
        "", "+", "-1", "0", "007", "+5", "12a", "4294967295", "4294967296", "18446744073709551615",
        "18446744073709551616", "99999999999999999999", " 1", "1 ", "١",
    ];
    for s in samples {
        let c = chars(s);
        assert_eq!(parse_number(&c, u64::MAX), s.parse::<u64>().ok(), "{s:?}");
        assert_eq!(parse_number(&c, u32::MAX as u64), s.parse::<u32>().ok().map(|n| n as u64), "{s:?}");
    }
}

#[test]
fn numbers_are_written_in_decimal() {
    for n in [0u64, 7, 10, 99, 100, 131072, u64::MAX] {
        assert_eq!(decimal_string(n), n.to_string());
        assert_eq!(parse_number(&chars(&decimal_string(n)), u64::MAX), Some(n));
    }
}

#[test]
fn comparing_and_finding() {
    let c = chars("a=b=c");
    assert_eq!(chars_of("a=b=c"), c);
    assert_eq!(find(&c, '=', 0), 1);
    assert_eq!(find(&c, '=', 2), 3);
    assert_eq!(find(&c, 'x', 0), 5);
    assert!(same(&c, &c));
    assert!(!same(&c, &c[1..]));
    assert!(!same(&c, &chars("a=b=d")));
    assert!(is_text(&c, "a=b=c"));
    assert!(has_prefix(&c, &chars("a=")));
    assert!(!has_prefix(&chars("a"), &c));
}
