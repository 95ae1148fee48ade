use orbit::text::{
    chars_of, copy_range, find_from, has_prefix_at, push_chars, push_text, same_text,
    scan_outside, split_lines, split_words, string_of, trim_range, trimmed, without, CharClass,
};

fn strings(parts: Vec<Vec<char>>) -> Vec<String> {
    parts.iter().map(|p| p.iter().collect()).collect()
}

fn lines_of(text: &str) -> Vec<String> {
    strings(split_lines(&chars_of(text)))
}

fn words_of(text: &str) -> Vec<String> {
    strings(split_words(&chars_of(text)))
}

#[test]
fn chars_and_strings_round_trip() {
    let chars = chars_of("a(é) \u{3000}z");
    assert_eq!(chars, vec!['a', '(', 'é', ')', ' ', '\u{3000}', 'z']);
    assert_eq!(string_of(&chars), "a(é) \u{3000}z");
    assert_eq!(string_of(&[]), "");
}

#[test]
fn whitespace_class_is_the_unicode_property() {
    for c in ['\t', '\n', '\u{b}', '\u{c}', '\r', ' ', '\u{85}', '\u{a0}', '\u{1680}', '\u{2000}',
        '\u{2005}', '\u{200a}', '\u{2028}', '\u{2029}', '\u{202f}', '\u{205f}', '\u{3000}']
    {
        assert!(CharClass::Whitespace.contains(c), "{:?}", c);
        assert!(c.is_whitespace());
    }
    for c in ['a', '0', '(', '\u{8}', '\u{e}', '\u{84}', '\u{86}', '\u{200b}', '\u{1f}', '\u{2027}',
        '\u{3001}', '\u{feff}']
    {
        assert!(!CharClass::Whitespace.contains(c), "{:?}", c);
        assert!(!c.is_whitespace());
    }
}

#[test]
fn whitespace_class_agrees_with_std_on_every_char() {
    let mut code: u32 = 0;
    while code <= 0x10ffff {
        if let Some(c) = char::from_u32(code) {
            assert_eq!(CharClass::Whitespace.contains(c), c.is_whitespace(), "{:#x}", code);
        }
        code += 1;
    }
}

#[test]
fn paren_and_newline_classes() {
    assert!(CharClass::Paren.contains('('));
    assert!(CharClass::Paren.contains(')'));
    assert!(!CharClass::Paren.contains('['));
    assert!(CharClass::Newline.contains('\n'));
    assert!(!CharClass::Newline.contains('\r'));
}

#[test]
fn lines_split_at_line_feeds() {
    assert_eq!(lines_of("a\nb\nc"), vec!["a", "b", "c"]);
    assert_eq!(lines_of("a\nb\n"), vec!["a", "b"]);
    assert_eq!(lines_of("a\n\nb"), vec!["a", "", "b"]);
    assert_eq!(lines_of("\n"), vec![""]);
    assert_eq!(lines_of("\n\n"), vec!["", ""]);
    assert!(lines_of("").is_empty());
    assert_eq!(lines_of("single"), vec!["single"]);
}

#[test]
fn lines_drop_a_carriage_return_before_the_feed_only() {
    assert_eq!(lines_of("a\r\nb\r\n"), vec!["a", "b"]);
    assert_eq!(lines_of("a\r"), vec!["a\r"]);
    assert_eq!(lines_of("a\rb\nc"), vec!["a\rb", "c"]);
    assert_eq!(lines_of("a\r\r\nb"), vec!["a\r", "b"]);
    assert_eq!(lines_of("\r\n"), vec![""]);
}

#[test]
fn lines_agree_with_std() {
    for text in ["", "\n", "a", "a\n", "a\r\n", "a\r", "\r", "\r\n\r\n", "x\n\ny\r\n\r\nz\r",
        "one two\nthree\r\nfour", "\n\r\n\n"]
    {
        let expected: Vec<String> = text.lines().map(|l| l.to_string()).collect();
        assert_eq!(lines_of(text), expected, "{:?}", text);
    }
}

#[test]
fn words_are_runs_without_white_space() {
    assert_eq!(words_of("  serial\tdevice  model:X \n"), vec!["serial", "device", "model:X"]);
    assert!(words_of("").is_empty());
    assert!(words_of(" \t\u{a0}\r\n").is_empty());
    assert_eq!(words_of("one"), vec!["one"]);
    assert_eq!(words_of("a\u{3000}b"), vec!["a", "b"]);
}

#[test]
fn words_agree_with_std() {
    for text in ["", " ", "a", " a", "a ", "a b", "  a   bc  d ", "\ta\u{2003}b\u{85}c", "x(y) at z"] {
        let expected: Vec<String> = text.split_whitespace().map(|w| w.to_string()).collect();
        assert_eq!(words_of(text), expected, "{:?}", text);
    }
}

#[test]
fn trimming_takes_the_class_off_both_ends() {
    assert_eq!(string_of(&trimmed(&chars_of("  a b \t"), CharClass::Whitespace)), "a b");
    assert_eq!(string_of(&trimmed(&chars_of("((10.0.0.2))"), CharClass::Paren)), "10.0.0.2");
    assert_eq!(string_of(&trimmed(&chars_of("(a)(b)"), CharClass::Paren)), "a)(b");
    assert_eq!(string_of(&trimmed(&chars_of("()"), CharClass::Paren)), "");
    assert_eq!(string_of(&trimmed(&chars_of("   "), CharClass::Whitespace)), "");
    assert_eq!(string_of(&trimmed(&chars_of(""), CharClass::Whitespace)), "");
    assert_eq!(string_of(&trimmed(&chars_of("abc"), CharClass::Paren)), "abc");
    assert_eq!(trim_range(&chars_of("  ab "), CharClass::Whitespace), (2, 4));
}

#[test]
fn trimming_agrees_with_std() {
    for text in ["", " ", "a", " a ", "\u{a0}a b\u{3000}", "( x )", "((", "(a", "a)"] {
        assert_eq!(string_of(&trimmed(&chars_of(text), CharClass::Whitespace)), text.trim());
        assert_eq!(
            string_of(&trimmed(&chars_of(text), CharClass::Paren)),
            text.trim_matches(|c| c == '(' || c == ')')
        );
    }
}

#[test]
fn scanning_stops_at_the_class() {
    let chars = chars_of("abc def");
    assert_eq!(scan_outside(&chars, 0, CharClass::Whitespace), 3);
    assert_eq!(scan_outside(&chars, 3, CharClass::Whitespace), 3);
    assert_eq!(scan_outside(&chars, 4, CharClass::Whitespace), 7);
    assert_eq!(scan_outside(&chars, 7, CharClass::Whitespace), 7);
    assert_eq!(copy_range(&chars, 4, 7), vec!['d', 'e', 'f']);
    assert_eq!(copy_range(&chars, 2, 2), Vec::<char>::new());
}

#[test]
fn prefixes_and_equality() {
    let text = chars_of("model:Pixel");
    assert!(has_prefix_at(&text, 0, &chars_of("model:")));
    assert!(has_prefix_at(&text, 6, &chars_of("Pixel")));
    assert!(has_prefix_at(&text, 11, &chars_of("")));
    assert!(!has_prefix_at(&text, 0, &chars_of("Model:")));
    assert!(!has_prefix_at(&text, 7, &chars_of("ixels")));
    assert!(!has_prefix_at(&text, 0, &chars_of("model:Pixel7")));
    assert!(same_text(&chars_of("at"), &chars_of("at")));
    assert!(!same_text(&chars_of("at"), &chars_of("att")));
    assert!(!same_text(&chars_of("at"), &chars_of("ta")));
    assert!(same_text(&[], &[]));
}

#[test]
fn finding_gives_the_first_occurrence() {
    let text = chars_of("xx MAC Address: a MAC Address: b");
    let pat = chars_of("MAC Address:");
    assert_eq!(find_from(&text, 0, &pat), Some(3));
    assert_eq!(find_from(&text, 3, &pat), Some(3));
    assert_eq!(find_from(&text, 4, &pat), Some(18));
    assert_eq!(find_from(&text, 19, &pat), None);
    assert_eq!(find_from(&text, 5, &chars_of("")), Some(5));
    assert_eq!(find_from(&text, text.len(), &chars_of("")), Some(text.len()));
    assert_eq!(find_from(&chars_of("aab"), 0, &chars_of("ab")), Some(1));
    assert_eq!(find_from(&chars_of(""), 0, &chars_of("a")), None);
}

#[test]
fn removing_takes_out_occurrences_from_the_left() {
    assert_eq!(string_of(&without(&chars_of("AA:BB (AA:BB)"), &chars_of("AA:BB"))), " ()");
    assert_eq!(string_of(&without(&chars_of("aaa"), &chars_of("aa"))), "a");
    assert_eq!(string_of(&without(&chars_of("abab"), &chars_of("ba"))), "ab");
    assert_eq!(string_of(&without(&chars_of("abc"), &chars_of(""))), "abc");
    assert_eq!(string_of(&without(&chars_of(""), &chars_of("x"))), "");
    assert_eq!(string_of(&without(&chars_of("xyz"), &chars_of("xyz"))), "");
    for (text, pat) in [("a.b.c", "."), ("aaaa", "aa"), ("abcabc", "bc"), ("héllo", "l")] {
        assert_eq!(string_of(&without(&chars_of(text), &chars_of(pat))), text.replace(pat, ""));
    }
}

#[test]
fn pushing_appends() {
    let mut out = vec!['a'];
    push_text(&mut out, "bc");
    push_chars(&mut out, &['d']);
    push_text(&mut out, "");
    assert_eq!(string_of(&out), "abcd");
}
