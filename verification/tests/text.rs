use rustwtxt::text::{
    chars_of, clone_strs, find_char, find_in, find_space, is_space, join_strs, less, lines,
    split_chars, split_str, starts_at, string_of, trim_start_chars,
};

fn chars(s: &str) -> Vec<char> {
    s.chars().collect()
}

#[test]
fn strings_and_characters() {
    assert_eq!(chars_of("aé\u{1f600}"), vec!['a', 'é', '\u{1f600}']);
    assert!(chars_of("").is_empty());
    assert_eq!(string_of(&['a', 'é', '\u{1f600}']), "aé\u{1f600}");
    assert_eq!(string_of(&[]), "");
    assert_eq!(clone_strs(&vec![String::from("a"), String::new()]), vec!["a", ""]);
}

#[test]
fn white_space_is_the_unicode_property() {
    for c in (0..=0x10ffffu32).filter_map(char::from_u32) {
        assert_eq!(is_space(c), c.is_whitespace(), "{:?}", c);
    }
}

#[test]
fn first_character_and_first_space() {
    assert_eq!(find_char(&chars("a\tb\tc"), '\t'), 1);
    assert_eq!(find_char(&chars("abc"), '\t'), 3);
    assert_eq!(find_char(&chars(""), '\t'), 0);
    assert_eq!(find_space(&chars("ab\u{2003}c d")), 2);
    assert_eq!(find_space(&chars("abc")), 3);
    assert_eq!(find_space(&chars("")), 0);
}

#[test]
fn first_occurrence_of_a_text() {
    assert_eq!(find_in(&chars("abcabc"), &chars("bc")), Some(1));
    assert_eq!(find_in(&chars("abcabc"), &chars("abcabc")), Some(0));
    assert_eq!(find_in(&chars("abcabc"), &chars("cb")), None);
    assert_eq!(find_in(&chars("abc"), &chars("abcd")), None);
    assert_eq!(find_in(&chars("abc"), &chars("")), Some(0));
    assert_eq!(find_in(&chars(""), &chars("")), Some(0));
    assert_eq!(find_in(&chars("aab"), &chars("ab")), Some(1));
    assert!(starts_at(&chars("abc"), 1, &chars("bc")));
    assert!(starts_at(&chars("abc"), 3, &chars("")));
    assert!(!starts_at(&chars("abc"), 2, &chars("bc")));
    assert!(!starts_at(&chars("abc"), 4, &chars("")));
}

#[test]
fn order_of_strings() {
    let words = ["", "a", "ab", "b", "é", "\u{ffff}", "\u{10000}"];
    for a in words {
        for b in words {
            assert_eq!(less(&chars(a), &chars(b)), a < b, "{:?} {:?}", a, b);
        }
    }
}

#[test]
fn pieces_between_separators() {
    assert_eq!(split_str("a\nb\n\nc", '\n'), vec!["a", "b", "", "c"]);
    assert_eq!(split_str("", '\n'), vec![""]);
    assert_eq!(split_str("\n", '\n'), vec!["", ""]);
    assert_eq!(split_str("abc", '\n'), vec!["abc"]);
    assert_eq!(split_chars(&chars("a b"), ' '), vec!["a", "b"]);
    for text in ["", "a", "\n", "a\nb", "\n\na\n", "é\nü"] {
        let expected: Vec<&str> = text.split('\n').collect();
        assert_eq!(split_str(text, '\n'), expected);
    }
}

#[test]
fn lines_of_a_text() {
    for text in ["", "a", "\n", "a\nb", "\n\na\n", "a\r\nb\r", "\r\n", "a\r\r\n", "a\n\r"] {
        let expected: Vec<&str> = text.lines().collect();
        assert_eq!(lines(text), expected, "{:?}", text);
    }
}

#[test]
fn trimming() {
    assert_eq!(trim_start_chars(&chars("  a ")), &chars("a ")[..]);
    assert_eq!(trim_start_chars(&chars("\u{a0}\t\n")), &chars("")[..]);
    assert_eq!(trim_start_chars(&chars("a")), &chars("a")[..]);
    assert_eq!(trim_start_chars(&chars("")), &chars("")[..]);
}

#[test]
fn joining() {
    let parts = vec![String::from("a"), String::new(), String::from("c")];
    assert_eq!(join_strs(&parts, ", "), "a, , c");
    assert_eq!(join_strs(&parts[..1].to_vec(), ", "), "a");
    assert_eq!(join_strs(&Vec::new(), ", "), "");
}
