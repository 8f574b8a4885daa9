use fa_tool::text::{
    append_chars, chars_of, copy_range, digit_char, find_char, has_prefix, has_substring,
    has_suffix, matches_at, push_decimal, remove_char, replace_chars, same_chars, split_chars,
    string_of, strings_of, without_leading,
};

fn chars(s: &str) -> Vec<char> {
    s.chars().collect()
}

fn text(v: Vec<char>) -> String {
    v.into_iter().collect()
}

fn rows(v: Vec<Vec<char>>) -> Vec<String> {
    v.into_iter().map(text).collect()
}

#[test]
fn characters_and_back() {
    assert_eq!(chars_of("aé漢🙂"), vec!['a', 'é', '漢', '🙂']);
    assert!(chars_of("").is_empty());
    assert_eq!(string_of(&chars("aé漢🙂")), "aé漢🙂");
    assert_eq!(strings_of(&vec![chars("a"), chars(""), chars("bc")]), vec!["a", "", "bc"]);
    assert_eq!(text(copy_range(&chars("abcdef"), 2, 4)), "cd");
    assert_eq!(text(copy_range(&chars("abcdef"), 3, 3)), "");
}

#[test]
fn finding_a_character() {
    let v = chars("a,b,c");
    assert_eq!(find_char(&v, 0, ','), 1);
    assert_eq!(find_char(&v, 1, ','), 1);
    assert_eq!(find_char(&v, 2, ','), 3);
    assert_eq!(find_char(&v, 4, ','), 5);
    assert_eq!(find_char(&v, 5, ','), 5);
    assert_eq!(find_char(&chars(""), 0, ','), 0);
}

#[test]
fn splitting_keeps_empty_pieces() {
    assert_eq!(rows(split_chars(&chars("a,b,c"), ',')), vec!["a", "b", "c"]);
    assert_eq!(rows(split_chars(&chars(""), ',')), vec![""]);
    assert_eq!(rows(split_chars(&chars(","), ',')), vec!["", ""]);
    assert_eq!(rows(split_chars(&chars(",a,,b,"), ',')), vec!["", "a", "", "b", ""]);
    assert_eq!(rows(split_chars(&chars("abc"), ',')), vec!["abc"]);
    for s in ["", ",", "a,b", ",,x,", "no comma"] {
        let expected: Vec<String> = s.split(',').map(|p| p.to_string()).collect();
        assert_eq!(rows(split_chars(&chars(s), ',')), expected);
    }
}

#[test]
fn patterns_in_a_text() {
    let v = chars("[V4+ Styles]");
    assert!(matches_at(&v, 5, &chars("Styles")));
    assert!(!matches_at(&v, 4, &chars("Styles")));
    assert!(!matches_at(&v, 7, &chars("Styles")));
    assert!(!matches_at(&v, 100, &chars("S")));
    assert!(matches_at(&v, 12, &chars("")));
    assert!(!matches_at(&v, 13, &chars("")));
    assert!(has_substring(&v, &chars("Styles")));
    assert!(has_substring(&v, &chars("")));
    assert!(has_substring(&v, &chars("[V4+ Styles]")));
    assert!(!has_substring(&v, &chars("[V4+ Styles] ")));
    assert!(!has_substring(&v, &chars("styles")));
    assert!(has_substring(&chars(""), &chars("")));
    assert!(!has_substring(&chars(""), &chars("a")));
    assert!(has_prefix(&v, &chars("[V4")));
    assert!(has_prefix(&v, &chars("")));
    assert!(!has_prefix(&v, &chars("V4")));
    assert!(!has_prefix(&chars("ab"), &chars("abc")));
    assert!(has_suffix(&v, &chars("Styles]")));
    assert!(has_suffix(&v, &chars("")));
    assert!(!has_suffix(&v, &chars("Styles")));
    assert!(!has_suffix(&chars("tf"), &chars(".ttf")));
}

#[test]
fn leading_repetitions_are_removed() {
    assert_eq!(text(without_leading(&chars("Style: A"), &chars("Style: "))), "A");
    assert_eq!(text(without_leading(&chars("Style: Style: A"), &chars("Style: "))), "A");
    assert_eq!(text(without_leading(&chars("A Style: "), &chars("Style: "))), "A Style: ");
    assert_eq!(text(without_leading(&chars("aaa"), &chars("a"))), "");
    assert_eq!(text(without_leading(&chars("abc"), &chars(""))), "abc");
    assert_eq!(text(without_leading(&chars(""), &chars("x"))), "");
    for (s, p) in [("xxay", "x"), ("ababab!", "ab"), ("none", "zz"), ("\\fn\\fnA", "\\fn")] {
        assert_eq!(text(without_leading(&chars(s), &chars(p))), s.trim_start_matches(p));
    }
}

#[test]
fn removing_and_replacing() {
    assert_eq!(text(remove_char(&chars("\"a b\""), '"')), "a b");
    assert_eq!(text(remove_char(&chars("\"\"\""), '"')), "");
    assert_eq!(text(remove_char(&chars("abc"), '"')), "abc");
    assert_eq!(text(replace_chars(&chars("a/b/c"), &chars("/"), &chars("\\"))), "a\\b\\c");
    assert_eq!(text(replace_chars(&chars("a\\ b\\  c\\"), &chars("\\ "), &chars(" "))), "a b  c\\");
    assert_eq!(text(replace_chars(&chars("aaa"), &chars("aa"), &chars("b"))), "ba");
    assert_eq!(text(replace_chars(&chars("abc"), &chars(""), &chars("x"))), "abc");
    assert_eq!(text(replace_chars(&chars(""), &chars("a"), &chars("x"))), "");
    assert_eq!(text(replace_chars(&chars("abab"), &chars("ab"), &chars(""))), "");
    for (s, f, t) in [("x--y---z", "--", "+"), ("hello", "l", "LL"), ("aaaa", "aa", "a")] {
        assert_eq!(text(replace_chars(&chars(s), &chars(f), &chars(t))), s.replace(f, t));
    }
}

#[test]
fn appending() {
    let mut v = chars("ab");
    append_chars(&mut v, &chars("cd"));
    append_chars(&mut v, &chars(""));
    assert_eq!(text(v), "abcd");
}

#[test]
fn decimal_numbers() {
    for d in 0..10usize {
        assert_eq!(digit_char(d).to_string(), d.to_string());
    }
    for n in [0usize, 1, 9, 10, 11, 99, 100, 101, 1234567890, usize::MAX] {
        let mut v = chars("n=");
        push_decimal(&mut v, n);
        assert_eq!(text(v), format!("n={}", n));
    }
}

#[test]
fn same_characters() {
    assert!(same_chars(&chars("/a.ttf"), &chars("/a.ttf")));
    assert!(same_chars(&chars(""), &chars("")));
    assert!(!same_chars(&chars("/x/a.ttf"), &chars("/a.ttf")));
    assert!(!same_chars(&chars("/a.ttf"), &chars("/x/a.ttf")));
    assert!(!same_chars(&chars("abc"), &chars("abd")));
    assert!(!same_chars(&chars(""), &chars("a")));
}
