//! The texts that a run leaves behind: the handle file, the summary line and the log.

use vstd::prelude::*;
use vstd::string::StringExecFns;
use crate::extract::{extraction, yields};
use crate::text::bodies;
use crate::handles::{handle_of, lemma_handle_shape};

verus! {

/// Every line of `lines` followed by a newline, one after the other.
pub open spec fn joined(lines: Seq<Seq<char>>) -> Seq<char>
    decreases lines.len(),
{
    if lines.len() == 0 {
        Seq::<char>::empty()
    } else {
        joined(lines.drop_last()) + lines.last() + seq!['\n']
    }
}

/// The decimal digit for `d`, which is below ten.
pub open spec fn digit(d: int) -> char {
    if d == 0 {
        '0'
    } else if d == 1 {
        '1'
    } else if d == 2 {
        '2'
    } else if d == 3 {
        '3'
    } else if d == 4 {
        '4'
    } else if d == 5 {
        '5'
    } else if d == 6 {
        '6'
    } else if d == 7 {
        '7'
    } else if d == 8 {
        '8'
    } else {
        '9'
    }
}

/// `n` written in decimal, without leading zeros.
pub open spec fn decimal(n: nat) -> Seq<char>
    decreases n,
{
    if n < 10 {
        seq![digit(n as int)]
    } else {
        decimal(n / 10).push(digit((n % 10) as int))
    }
}

/// The line that closes a run: how many handles were saved, and where.
pub open spec fn summary(count: nat, path: Seq<char>) -> Seq<char> {
    decimal(count) + " results saved to "@ + path
}

/// The first entry of a log that had to be made.
pub const LOG_CREATED: &'static str = "Log file created";

/// `log` with `event` as one more line; an empty log becomes the event alone.
pub open spec fn with_event(log: Seq<char>, event: Seq<char>) -> Seq<char> {
    if log.len() == 0 {
        event
    } else {
        log + seq!['\n'] + event
    }
}

/// The log after `event`: a log that did not exist is made with its first entry before
/// the event is added.
pub open spec fn log_after(existing: Option<Seq<char>>, event: Seq<char>) -> Seq<char> {
    match existing {
        Some(log) => with_event(log, event),
        None => with_event(LOG_CREATED@, event),
    }
}

/// One line of the handle file: the handle, then a newline.
pub fn output_line(handle: &str) -> (line: String)
    ensures
        line@ == handle@ + seq!['\n'],
{
    let mut line = String::from_str(handle);
    line.push('\n');
    line
}

/// The text of the handle file: the line of each handle, in the order given.
pub fn output_text(handles: &Vec<String>) -> (text: String)
    ensures
        text@ == joined(bodies(handles@)),
{
    let mut text = String::new();
    let mut i: usize = 0;
    while i < handles.len()
        invariant
            i <= handles.len(),
            text@ == joined(bodies(handles@).take(i as int)),
        decreases handles.len() - i,
    {
        let ghost lines = bodies(handles@);
        assert(lines.take(i + 1).drop_last() =~= lines.take(i as int));
        let line = output_line(handles[i].as_str());
        text.append(line.as_str());
        i += 1;
    }
    assert(bodies(handles@).take(handles.len() as int) =~= bodies(handles@));
    text
}

/// The digit for `d` as a character.
fn digit_char(d: usize) -> (c: char)
    requires
        d < 10,
    ensures
        c == digit(d as int),
{
    if d == 0 {
        '0'
    } else if d == 1 {
        '1'
    } else if d == 2 {
        '2'
    } else if d == 3 {
        '3'
    } else if d == 4 {
        '4'
    } else if d == 5 {
        '5'
    } else if d == 6 {
        '6'
    } else if d == 7 {
        '7'
    } else if d == 8 {
        '8'
    } else {
        '9'
    }
}

/// Writes `n` in decimal behind what `text` holds.
fn push_decimal(text: &mut String, n: usize)
    ensures
        final(text)@ == old(text)@ + decimal(n as nat),
    decreases n,
{
    if n >= 10 {
        push_decimal(text, n / 10);
    }
    text.push(digit_char(n % 10));
}

/// The summary line for `count` handles saved to `path`.
pub fn summary_line(count: usize, path: &str) -> (line: String)
    ensures
        line@ == summary(count as nat, path@),
{
    let mut line = String::new();
    push_decimal(&mut line, count);
    line.append(" results saved to ");
    line.append(path);
    line
}

/// `log` with `event` added as its last line. A log that holds something keeps it all.
pub fn append_event(log: &str, event: &str) -> (text: String)
    ensures
        text@ == with_event(log@, event@),
        log@.len() > 0 ==> log@.is_prefix_of(text@),
{
    if log.is_empty() {
        String::from_str(event)
    } else {
        let mut text = String::from_str(log);
        text.push('\n');
        text.append(event);
        text
    }
}

/// The whole text of the log once `event` is recorded. `existing` is what the log holds,
/// or `None` where there is no log yet.
pub fn log_event(existing: Option<&str>, event: &str) -> (text: String)
    ensures
        text@ == log_after(
            match existing {
                Some(log) => Some(log@),
                None => None,
            },
            event@,
        ),
{
    match existing {
        Some(log) => append_event(log, event),
        None => {
            append_event(LOG_CREATED, event)
        },
    }
}

/// What stands in `text` behind its last newline: the line that is not closed yet.
pub open spec fn open_line(text: Seq<char>) -> Seq<char>
    decreases text.len(),
{
    if text.len() == 0 || text.last() == '\n' {
        Seq::<char>::empty()
    } else {
        open_line(text.drop_last()).push(text.last())
    }
}

/// The lines of `text` that a newline closes, in order and without their newlines.
pub open spec fn closed_lines(text: Seq<char>) -> Seq<Seq<char>>
    decreases text.len(),
{
    if text.len() == 0 {
        Seq::<Seq<char>>::empty()
    } else if text.last() == '\n' {
        closed_lines(text.drop_last()).push(open_line(text.drop_last()))
    } else {
        closed_lines(text.drop_last())
    }
}

/// Characters without a newline among them go to the open line and close no line.
pub proof fn lemma_line_grows(text: Seq<char>, more: Seq<char>)
    requires
        !more.contains('\n'),
    ensures
        open_line(text + more) == open_line(text) + more,
        closed_lines(text + more) == closed_lines(text),
    decreases more.len(),
{
    if more.len() > 0 {
        let front = more.drop_last();
        lemma_line_grows(text, front);
        assert((text + more).drop_last() =~= text + front);
    }
}

/// Round trip. Of lines that hold no newline, the text written for the handle file gives
/// every line back, in order, and leaves nothing open behind the last one.
pub proof fn lemma_lines_round_trip(lines: Seq<Seq<char>>)
    requires
        forall|i: int| 0 <= i < lines.len() ==> !(#[trigger] lines[i]).contains('\n'),
    ensures
        closed_lines(joined(lines)) == lines,
        open_line(joined(lines)) == Seq::<char>::empty(),
    decreases lines.len(),
{
    if lines.len() > 0 {
        let front = lines.drop_last();
        let last = lines.last();
        lemma_lines_round_trip(front);
        lemma_line_grows(joined(front), last);
        let text = joined(lines);
        assert(text.drop_last() =~= joined(front) + last);
    }
}

/// The handle file gives back the handle list that was written to it: no handle holds a
/// newline, so each stands on one line.
pub proof fn lemma_handle_file_round_trip(comments: Seq<Seq<char>>, handles: Seq<Seq<char>>)
    requires
        extraction(comments, Ok(handles)),
    ensures
        closed_lines(joined(handles)) == handles,
        open_line(joined(handles)) == Seq::<char>::empty(),
{
    assert forall|i: int| 0 <= i < handles.len() implies !(#[trigger] handles[i]).contains(
        '\n',
    ) by {
        let h = handles[i];
        assert(yields(comments, h));
        let k = choose|k: int|
            0 <= k < comments.len() && #[trigger] handle_of(comments[k]) == Ok::<
                Option<Seq<char>>,
                Seq<char>,
            >(Some(h));
        lemma_handle_shape(comments[k], h);
    }
    lemma_lines_round_trip(handles);
}

} // verus!
