use follow_friday::handles::{has_at_sign, split_segments, strip_forbidden};
use follow_friday::order::{less_than, Sorted};
use follow_friday::text::{contains_chars, from_chars, matches_at, to_chars};
use follow_friday::tokens::{is_delimiter_char, split_tokens};

fn strings(items: &Vec<Vec<char>>) -> Vec<String> {
    items.iter().map(from_chars).collect()
}

fn samples() -> Vec<&'static str> {
    vec![
        "",
        " ",
        "a",
        "a b",
        " a",
        "a ",
        "  a  b  ",
        "[a]",
        "[[a]]",
        "a\nb",
        "a\n\nb\n",
        "a[ ]b",
        "] [",
        "Great page [@foo_bar]",
        "check https://www.instagram.com/baz.qux/ out",
        "@ zzz_top nice",
        "tab\tis\tno\tdelimiter",
        "carriage\r\nreturn",
        "émoji 😀 [日本 語]\n",
        "\\(*)\\",
        "////",
        "a/b//c/",
    ]
}

#[test]
fn chars_and_strings_convert_both_ways() {
    for s in samples() {
        let chars = to_chars(s);
        assert_eq!(chars, s.chars().collect::<Vec<char>>());
        assert_eq!(from_chars(&chars), s);
    }
    assert_eq!(from_chars(&vec!['a', 'é', '😀']), "aé😀");
    assert_eq!(from_chars(&Vec::new()), "");
}

#[test]
fn tokens_of_simple_bodies() {
    assert_eq!(strings(&split_tokens(&to_chars(""))), vec![""]);
    assert_eq!(strings(&split_tokens(&to_chars("a"))), vec!["a"]);
    assert_eq!(strings(&split_tokens(&to_chars("a b"))), vec!["a", "b"]);
    assert_eq!(strings(&split_tokens(&to_chars("a  \n[b"))), vec!["a", "b"]);
    assert_eq!(strings(&split_tokens(&to_chars(" a"))), vec!["", "a"]);
    assert_eq!(strings(&split_tokens(&to_chars("a "))), vec!["a", ""]);
    assert_eq!(strings(&split_tokens(&to_chars("  "))), vec!["", ""]);
    assert_eq!(
        strings(&split_tokens(&to_chars("Great page [@foo_bar]"))),
        vec!["Great", "page", "@foo_bar", ""]
    );
}

#[test]
fn tokens_are_what_the_delimiter_pattern_splits() {
    let pattern = regex::Regex::new(r"([\[\]\n ]+)").unwrap();
    for s in samples() {
        let expected: Vec<String> = pattern.split(s).map(|p| p.to_string()).collect();
        assert_eq!(strings(&split_tokens(&to_chars(s))), expected, "body {:?}", s);
    }
}

#[test]
fn delimiters_are_the_four() {
    for c in ['[', ']', '\n', ' '] {
        assert!(is_delimiter_char(c));
    }
    for c in ['\t', '\r', '(', ')', 'a', '@', '/', '\\', '*', '{', '\u{a0}'] {
        assert!(!is_delimiter_char(c));
    }
}

#[test]
fn stripping_removes_the_four_forbidden_characters() {
    assert_eq!(from_chars(&strip_forbidden(&to_chars("a\\b(c)d*e"))), "abcde");
    assert_eq!(from_chars(&strip_forbidden(&to_chars("\\()*"))), "");
    assert_eq!(from_chars(&strip_forbidden(&to_chars("[keep] {these} /too/"))), "[keep] {these} /too/");
    assert_eq!(from_chars(&strip_forbidden(&to_chars(""))), "");
}

#[test]
fn stripping_is_what_the_forbidden_pattern_replaces() {
    let pattern = regex::Regex::new(r"[\\()*]").unwrap();
    for s in samples() {
        let expected = pattern.replace_all(s, "").to_string();
        assert_eq!(from_chars(&strip_forbidden(&to_chars(s))), expected, "token {:?}", s);
    }
}

#[test]
fn segments_are_what_splitting_at_slashes_gives() {
    for s in samples() {
        let expected: Vec<String> = s.split("/").map(|p| p.to_string()).collect();
        assert_eq!(strings(&split_segments(&to_chars(s))), expected, "token {:?}", s);
    }
    assert_eq!(
        strings(&split_segments(&to_chars("https://www.instagram.com/baz.qux/"))),
        vec!["https:", "", "www.instagram.com", "baz.qux", ""]
    );
}

#[test]
fn at_sign_is_found_anywhere() {
    assert!(has_at_sign(&to_chars("@")));
    assert!(has_at_sign(&to_chars("a@b")));
    assert!(has_at_sign(&to_chars("end@")));
    assert!(!has_at_sign(&to_chars("")));
    assert!(!has_at_sign(&to_chars("no sign")));
}

#[test]
fn occurrence_is_that_of_the_standard_search() {
    let needles = ["", "a", "Follow Friday", "https://www.instagram.com", "//", "b  ", "😀", "]"];
    for hay in samples() {
        for needle in needles {
            assert_eq!(
                contains_chars(&to_chars(hay), &to_chars(needle)),
                hay.contains(needle),
                "{:?} in {:?}",
                needle,
                hay
            );
        }
    }
    assert!(contains_chars(&to_chars("abc"), &to_chars("abc")));
    assert!(contains_chars(&to_chars("abc"), &to_chars("bc")));
    assert!(!contains_chars(&to_chars("abc"), &to_chars("abcd")));
    assert!(!contains_chars(&to_chars("abc"), &to_chars("ac")));
}

#[test]
fn occurrence_at_a_position() {
    let hay = to_chars("abcabc");
    assert!(matches_at(&hay, &to_chars("abc"), 0));
    assert!(matches_at(&hay, &to_chars("abc"), 3));
    assert!(!matches_at(&hay, &to_chars("abc"), 1));
    assert!(!matches_at(&hay, &to_chars("abc"), 4));
    assert!(matches_at(&hay, &to_chars(""), 6));
    assert!(!matches_at(&hay, &to_chars(""), 7));
    assert!(!matches_at(&hay, &to_chars("abcabca"), 0));
}

#[test]
fn order_is_that_of_strings() {
    let words = [
        "", "@", "@a", "@A", "@ab", "@b", "a", "é", "z", "日本", "😀", "\u{7f}", "\u{80}",
        "\u{7ff}", "\u{800}", "\u{ffff}", "\u{10000}", "@a.b", "@a_b",
    ];
    for a in words {
        for b in words {
            assert_eq!(less_than(&to_chars(a), &to_chars(b)), a < b, "{:?} < {:?}", a, b);
        }
    }
}

#[test]
fn insertion_keeps_the_list_sorted_and_free_of_repeats() {
    let mut sorted = Sorted::new();
    assert!(sorted.items().is_empty());
    for word in ["m", "c", "x", "c", "a", "m", "zz", "", "a"] {
        sorted.insert(to_chars(word));
    }
    assert_eq!(strings(sorted.items()), vec!["", "a", "c", "m", "x", "zz"]);
    sorted.insert(to_chars("b"));
    sorted.insert(to_chars("zzz"));
    sorted.insert(to_chars("zz"));
    assert_eq!(strings(sorted.items()), vec!["", "a", "b", "c", "m", "x", "zz", "zzz"]);
}

#[test]
fn insertion_agrees_with_sorting_and_deduplicating() {
    let mut words: Vec<String> = Vec::new();
    for i in 0..200u32 {
        words.push(format!("w{}", (i * 37) % 53));
    }
    let mut sorted = Sorted::new();
    for word in &words {
        sorted.insert(to_chars(word));
    }
    words.sort();
    words.dedup();
    assert_eq!(strings(sorted.items()), words);
}
