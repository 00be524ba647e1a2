use follow_friday::extract::{get_instagrams, CustomError};

fn comments(bodies: &[&str]) -> Vec<String> {
    bodies.iter().map(|b| b.to_string()).collect()
}

fn handles(bodies: &[&str]) -> Vec<String> {
    match get_instagrams(comments(bodies)) {
        Ok(found) => found,
        Err(e) => panic!("extraction failed: {}", e.message()),
    }
}

fn fragment(bodies: &[&str]) -> String {
    match get_instagrams(comments(bodies)) {
        Ok(found) => panic!("extraction gave {:?}", found),
        Err(CustomError::ParseError(part)) => part,
    }
}

#[test]
fn three_comments_three_kinds_of_cue() {
    let found = handles(&[
        "Great page [@foo_bar]",
        "check https://www.instagram.com/baz.qux/ out",
        "@ zzz_top nice",
    ]);
    assert_eq!(found, vec!["@baz.qux", "@foo_bar", "@zzz_top"]);
}

#[test]
fn same_handle_twice_is_listed_once() {
    let found = handles(&["follow @sameuser please", "@sameuser is me"]);
    assert_eq!(found, vec!["@sameuser"]);
}

#[test]
fn same_handle_by_mention_and_by_link_is_listed_once() {
    let found = handles(&["@sameuser", "https://www.instagram.com/sameuser"]);
    assert_eq!(found, vec!["@sameuser"]);
}

#[test]
fn handles_that_differ_in_case_stay_apart() {
    let found = handles(&["@Foo", "@foo", "@FOO"]);
    assert_eq!(found, vec!["@FOO", "@Foo", "@foo"]);
}

#[test]
fn no_comments_no_handles() {
    assert_eq!(handles(&[]), Vec::<String>::new());
}

#[test]
fn comments_without_a_cue_give_nothing() {
    assert_eq!(handles(&["", "hello there", "[  ]\n", "instagram.com/foo"]), Vec::<String>::new());
}

#[test]
fn mention_keeps_the_token_without_forbidden_characters() {
    assert_eq!(handles(&["I am (@foo*bar) here"]), vec!["@foobar"]);
    assert_eq!(handles(&["\\@under\\_score"]), vec!["@under_score"]);
    assert_eq!(handles(&["**@bold**"]), vec!["@bold"]);
}

#[test]
fn mention_need_not_begin_with_the_sign() {
    assert_eq!(handles(&["write to foo@bar.com today"]), vec!["foo@bar.com"]);
    assert_eq!(handles(&["ig:@name"]), vec!["ig:@name"]);
}

#[test]
fn brackets_and_newlines_end_a_mention() {
    assert_eq!(handles(&["[@linked](https://example.com)"]), vec!["@linked"]);
    assert_eq!(handles(&["first line\n@second\nthird"]), vec!["@second"]);
}

#[test]
fn lone_sign_takes_the_next_token() {
    assert_eq!(handles(&["@ zzz_top nice"]), vec!["@zzz_top"]);
    assert_eq!(handles(&["mine is @   (spaced*out) ok"]), vec!["@spacedout"]);
    assert_eq!(handles(&["@\nnext_line"]), vec!["@next_line"]);
}

#[test]
fn lone_sign_before_a_trailing_delimiter_gives_the_bare_sign() {
    assert_eq!(handles(&["mine is @ "]), vec!["@"]);
}

#[test]
fn lone_sign_as_last_token_gives_nothing() {
    assert_eq!(handles(&["mine is @"]), Vec::<String>::new());
    assert_eq!(handles(&["@"]), Vec::<String>::new());
    assert_eq!(handles(&["@", "@after"]), vec!["@after"]);
}

#[test]
fn profile_link_gives_the_user_segment() {
    assert_eq!(handles(&["https://www.instagram.com/baz.qux/"]), vec!["@baz.qux"]);
    assert_eq!(handles(&["https://www.instagram.com/plain"]), vec!["@plain"]);
    assert_eq!(handles(&["see https://www.instagram.com/user/p/abc123/ now"]), vec!["@user"]);
    assert_eq!(handles(&["(https://www.instagram.com/wrapped)"]), vec!["@wrapped"]);
    assert_eq!(handles(&["https://www.instagram.com/star*red/"]), vec!["@starred"]);
}

#[test]
fn profile_link_with_empty_user_segment_gives_the_bare_sign() {
    assert_eq!(handles(&["https://www.instagram.com/"]), vec!["@"]);
}

#[test]
fn segment_is_counted_from_the_start_of_the_token() {
    assert_eq!(handles(&["a/b/https://www.instagram.com/name"]), vec!["@"]);
    assert_eq!(handles(&["x/https://www.instagram.com/name"]), vec!["@www.instagram.com"]);
}

#[test]
fn only_the_first_cue_of_a_comment_counts() {
    assert_eq!(handles(&["@first and @second"]), vec!["@first"]);
    assert_eq!(handles(&["@first https://www.instagram.com/second"]), vec!["@first"]);
    assert_eq!(handles(&["https://www.instagram.com/first @second"]), vec!["@first"]);
    assert_eq!(handles(&["https://www.instagram.com/@inside"]), vec!["https://www.instagram.com/@inside"]);
}

#[test]
fn profile_link_without_user_segment_fails_with_the_token() {
    assert_eq!(fragment(&["https://www.instagram.com"]), "https://www.instagram.com");
    assert_eq!(fragment(&["look: (https://www.instagram.com) ok"]), "(https://www.instagram.com)");
}

#[test]
fn first_broken_comment_decides_the_fragment() {
    let part = fragment(&[
        "@fine",
        "xhttps://www.instagram.com",
        "https://www.instagram.com",
    ]);
    assert_eq!(part, "xhttps://www.instagram.com");
}

#[test]
fn one_broken_comment_fails_the_whole_extraction() {
    assert!(get_instagrams(comments(&["@a", "@b", "https://www.instagram.com", "@c"])).is_err());
}

#[test]
fn broken_link_behind_an_earlier_cue_does_not_fail() {
    assert_eq!(handles(&["@ok https://www.instagram.com"]), vec!["@ok"]);
}

#[test]
fn error_message_quotes_the_fragment() {
    let e = CustomError::ParseError("https://www.instagram.com".to_string());
    assert_eq!(
        e.message(),
        "ParseError: could not parse comment: \"https://www.instagram.com\""
    );
    let empty = CustomError::ParseError(String::new());
    assert_eq!(empty.message(), "ParseError: could not parse comment: \"\"");
}

#[test]
fn extraction_twice_gives_the_same_list() {
    let bodies = [
        "b @beta",
        "a @alpha",
        "@ gamma",
        "https://www.instagram.com/delta/",
        "@alpha again",
    ];
    let first = handles(&bodies);
    let second = handles(&bodies);
    assert_eq!(first, second);
    assert_eq!(first, vec!["@alpha", "@beta", "@delta", "@gamma"]);
}

#[test]
fn extraction_of_its_own_output_gives_it_back() {
    let first = handles(&["@b", "@a", "@ c", "https://www.instagram.com/d"]);
    let again = match get_instagrams(first.clone()) {
        Ok(found) => found,
        Err(e) => panic!("extraction failed: {}", e.message()),
    };
    assert_eq!(first, again);
}

#[test]
fn order_of_comments_does_not_show() {
    let one = handles(&["@c", "@a", "@b"]);
    let other = handles(&["@b", "@c", "@a"]);
    assert_eq!(one, other);
    assert_eq!(one, vec!["@a", "@b", "@c"]);
}

#[test]
fn list_is_in_the_order_of_the_standard_sort() {
    let bodies = [
        "@zebra", "@Zebra", "@apple", "@a", "@ab", "@éclair", "@日本", "@_under", "@9lives",
        "@a.b", "@a-b", "@a_b", "@😀smile", "@ab", "@",
    ];
    let found = handles(&bodies);
    let mut expected: Vec<String> = bodies.iter().map(|b| b.to_string()).filter(|b| b != "@").collect();
    expected.sort();
    expected.dedup();
    assert_eq!(found, expected);
}

#[test]
fn many_comments_are_sorted_and_deduplicated() {
    let mut bodies: Vec<String> = Vec::new();
    for i in 0..300u32 {
        let n = (i * 7919) % 101;
        bodies.push(format!("hello [@user{}] nice", n));
    }
    let found = match get_instagrams(bodies.clone()) {
        Ok(found) => found,
        Err(e) => panic!("extraction failed: {}", e.message()),
    };
    let mut expected: Vec<String> =
        (0..300u32).map(|i| format!("@user{}", (i * 7919) % 101)).collect();
    expected.sort();
    expected.dedup();
    assert_eq!(found.len(), 101);
    assert_eq!(found, expected);
}

#[test]
fn no_handle_holds_a_delimiter_or_a_forbidden_character() {
    let found = handles(&[
        "[@a(b)]",
        "@ \\c*d\\",
        "https://www.instagram.com/e(f)/g",
        "x@y*",
    ]);
    for handle in &found {
        assert!(handle.contains('@'));
        for c in handle.chars() {
            assert!(!matches!(c, '[' | ']' | '\n' | ' ' | '\\' | '(' | ')' | '*'));
        }
    }
    assert_eq!(found, vec!["@ab", "@cd", "@ef", "x@y"]);
}
