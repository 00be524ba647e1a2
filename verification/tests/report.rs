use follow_friday::extract::get_instagrams;
use follow_friday::report::{append_event, log_event, output_line, output_text, summary_line};

fn strings(items: &[&str]) -> Vec<String> {
    items.iter().map(|s| s.to_string()).collect()
}

#[test]
fn each_handle_stands_on_a_line_of_its_own() {
    assert_eq!(output_text(&strings(&["@a", "@b", "@c"])), "@a\n@b\n@c\n");
    assert_eq!(output_text(&strings(&["@only"])), "@only\n");
    assert_eq!(output_text(&Vec::new()), "");
}

#[test]
fn line_of_a_handle_ends_with_a_newline() {
    assert_eq!(output_line("@a"), "@a\n");
    assert_eq!(output_line(""), "\n");
}

#[test]
fn handle_file_is_the_lines_of_its_handles() {
    let handles = strings(&["@a", "@b", "@c"]);
    let lines: String = handles.iter().map(|h| output_line(h)).collect();
    assert_eq!(output_text(&handles), lines);
}

#[test]
fn handle_file_read_back_gives_the_handle_list() {
    let comments = strings(&[
        "Great page [@foo_bar]",
        "check https://www.instagram.com/baz.qux/ out",
        "@ zzz_top nice",
        "@foo_bar once more",
    ]);
    let handles = match get_instagrams(comments) {
        Ok(found) => found,
        Err(e) => panic!("extraction failed: {}", e.message()),
    };
    let text = output_text(&handles);
    let lines: Vec<String> = text.lines().map(|l| l.to_string()).collect();
    assert_eq!(lines.len(), 3);
    assert_eq!(lines, handles);
    assert_eq!(lines, vec!["@baz.qux", "@foo_bar", "@zzz_top"]);
    assert!(text.ends_with('\n'));
}

#[test]
fn summary_names_the_count_and_the_path() {
    assert_eq!(summary_line(3, "output.txt"), "3 results saved to output.txt");
    assert_eq!(summary_line(0, "output.txt"), "0 results saved to output.txt");
    assert_eq!(summary_line(10, "a"), "10 results saved to a");
    assert_eq!(summary_line(1205, ""), "1205 results saved to ");
    assert_eq!(
        summary_line(usize::MAX, "x"),
        format!("{} results saved to x", usize::MAX)
    );
}

#[test]
fn summary_writes_every_count_as_the_standard_formatting_does() {
    for count in [0usize, 1, 9, 10, 11, 99, 100, 101, 999, 1000, 4096, 65535, 1_000_000] {
        assert_eq!(summary_line(count, "p"), format!("{} results saved to p", count));
    }
}

#[test]
fn event_becomes_the_last_line_of_the_log() {
    assert_eq!(append_event("first", "second"), "first\nsecond");
    assert_eq!(append_event("first\nsecond", "third"), "first\nsecond\nthird");
    assert_eq!(append_event("", "alone"), "alone");
    assert_eq!(append_event("kept", ""), "kept\n");
}

#[test]
fn missing_log_is_made_with_its_first_entry() {
    assert_eq!(log_event(None, "Failed to find post url"), "Log file created\nFailed to find post url");
}

#[test]
fn existing_log_keeps_what_it_holds() {
    assert_eq!(log_event(Some("Log file created"), "boom"), "Log file created\nboom");
    assert_eq!(log_event(Some(""), "boom"), "boom");
    let once = log_event(None, "one");
    let twice = log_event(Some(once.as_str()), "two");
    assert_eq!(twice, "Log file created\none\ntwo");
    assert!(twice.starts_with(once.as_str()));
}
