//! From the comments of a thread to the sorted list of the handles they name.

use vstd::prelude::*;
use vstd::string::StringExecFns;
use crate::handles::{handle_of, read_comment};
use crate::order::{lemma_sorted_no_repeats, lemma_sorted_unique, strictly_sorted, Sorted};
use crate::text::{bodies, from_chars, to_chars, views};

verus! {

/// Why no handle list could be made.
#[derive(Debug)]
pub enum CustomError {
    /// A token holds the address of a profile link but too few segments for a user name.
    /// The token is carried as it stood in the comment.
    ParseError(String),
}

impl View for CustomError {
    type V = Seq<char>;

    /// The fragment that could not be read.
    open spec fn view(&self) -> Seq<char> {
        match self {
            CustomError::ParseError(fragment) => fragment@,
        }
    }
}

/// What is said of a fragment that could not be read.
pub open spec fn parse_error_text(fragment: Seq<char>) -> Seq<char> {
    "ParseError: could not parse comment: \""@ + fragment + "\""@
}

impl CustomError {
    /// The error in words, with the fragment between double quotes.
    pub fn message(&self) -> (text: String)
        ensures
            text@ == parse_error_text(self@),
    {
        match self {
            CustomError::ParseError(fragment) => {
                let mut text = String::from_str("ParseError: could not parse comment: \"");
                text.append(fragment.as_str());
                text.append("\"");
                text
            },
        }
    }
}

/// Some comment among `comments` gives the handle `handle`.
pub open spec fn yields(comments: Seq<Seq<char>>, handle: Seq<char>) -> bool {
    exists|i: int|
        0 <= i < comments.len() && #[trigger] handle_of(comments[i]) == Ok::<
            Option<Seq<char>>,
            Seq<char>,
        >(Some(handle))
}

/// The comment at index `at` holds a broken profile link, and none before it does.
pub open spec fn first_broken(comments: Seq<Seq<char>>, at: int) -> bool {
    &&& 0 <= at < comments.len()
    &&& handle_of(comments[at]) is Err
    &&& forall|j: int| 0 <= j < at ==> (#[trigger] handle_of(comments[j])) is Ok
}

/// What extraction owes for `comments`.
///
/// With a broken profile link among them it fails with the fragment of the first such
/// comment. Otherwise it gives the handles that the comments yield, each once, in
/// dictionary order.
pub open spec fn extraction(
    comments: Seq<Seq<char>>,
    result: Result<Seq<Seq<char>>, Seq<char>>,
) -> bool {
    match result {
        Ok(handles) => {
            &&& forall|i: int| 0 <= i < comments.len() ==> (#[trigger] handle_of(comments[i])) is Ok
            &&& strictly_sorted(handles)
            &&& forall|h: Seq<char>| handles.contains(h) <==> yields(comments, h)
        },
        Err(fragment) => exists|at: int|
            first_broken(comments, at) && #[trigger] handle_of(comments[at]) == Err::<
                Option<Seq<char>>,
                Seq<char>,
            >(fragment),
    }
}

/// The view of what extraction returned.
pub open spec fn extraction_view(r: Result<Vec<String>, CustomError>) -> Result<
    Seq<Seq<char>>,
    Seq<char>,
> {
    match r {
        Ok(handles) => Ok(bodies(handles@)),
        Err(e) => Err(e@),
    }
}

/// The strings that hold the character vectors of `items`, in the same order.
pub fn to_strings(items: &Vec<Vec<char>>) -> (strings: Vec<String>)
    ensures
        bodies(strings@) == views(items@),
{
    let mut strings: Vec<String> = Vec::new();
    let mut i: usize = 0;
    while i < items.len()
        invariant
            i <= items.len(),
            bodies(strings@) == views(items@).take(i as int),
        decreases items.len() - i,
    {
        let s = from_chars(&items[i]);
        strings.push(s);
        i += 1;
        assert(views(items@).take(i as int) =~= views(items@).take(i - 1).push(items@[i - 1]@));
    }
    strings
}

/// Reads every comment and returns the handles found, sorted and each once.
///
/// A comment gives at most one handle. A comment with a broken profile link fails the
/// whole extraction, and the first such comment decides which fragment is reported.
pub fn get_instagrams(comments: Vec<String>) -> (r: Result<Vec<String>, CustomError>)
    ensures
        extraction(bodies(comments@), extraction_view(r)),
{
    let ghost all = bodies(comments@);
    let mut found = Sorted::new();
    let mut i: usize = 0;
    while i < comments.len()
        invariant
            i <= comments.len(),
            all == bodies(comments@),
            forall|j: int| 0 <= j < i ==> (#[trigger] handle_of(all[j])) is Ok,
            forall|h: Seq<char>| found@.contains(h) <==> yields(all.take(i as int), h),
        decreases comments.len() - i,
    {
        let ghost before = found@;
        let ghost next = all.take(i + 1);
        let body = to_chars(comments[i].as_str());
        match read_comment(&body) {
            Ok(Some(handle)) => {
                let ghost h0 = handle@;
                found.insert(handle);
                proof {
                    let after = found@;
                    assert forall|h: Seq<char>| after.contains(h) <==> yields(next, h) by {
                        assert(after.to_set().contains(h) <==> before.to_set().insert(
                            h0,
                        ).contains(h));
                        if h == h0 {
                            assert(handle_of(next[i as int]) == Ok::<Option<Seq<char>>, Seq<char>>(
                                Some(h),
                            ));
                        }
                    }
                }
            },
            Ok(None) => {},
            Err(fragment) => {
                let e = CustomError::ParseError(from_chars(&fragment));
                return Err(e);
            },
        }
        i += 1;
    }
    assert(all.take(comments.len() as int) =~= all);
    Ok(to_strings(found.items()))
}

/// Extraction is a function of the comments: whatever two runs over the same comments
/// return, they return the same, whether that is a list of handles or a failure.
pub proof fn lemma_extraction_unique(
    comments: Seq<Seq<char>>,
    first: Result<Seq<Seq<char>>, Seq<char>>,
    second: Result<Seq<Seq<char>>, Seq<char>>,
)
    requires
        extraction(comments, first),
        extraction(comments, second),
    ensures
        first == second,
{
    // Two failures name the same first broken comment; a failure and a list cannot both be
    // owed; two lists hold the same handles and are sorted.
    if let (Ok(a), Ok(b)) = (first, second) {
        assert(a.to_set() =~= b.to_set());
        lemma_sorted_unique(a, b);
    }
}

/// The handle list names no handle twice, however many comments give it.
pub proof fn lemma_each_handle_once(comments: Seq<Seq<char>>, handles: Seq<Seq<char>>)
    requires
        extraction(comments, Ok(handles)),
    ensures
        handles.no_duplicates(),
{
    lemma_sorted_no_repeats(handles);
}

/// The order of the comments does not show in the handle list: the same comments in
/// another order, none of them broken, give the same list.
pub proof fn lemma_order_of_comments(
    comments: Seq<Seq<char>>,
    shuffled: Seq<Seq<char>>,
    handles: Seq<Seq<char>>,
    other: Seq<Seq<char>>,
)
    requires
        comments.to_multiset() == shuffled.to_multiset(),
        extraction(comments, Ok(handles)),
        extraction(shuffled, Ok(other)),
    ensures
        handles == other,
{
    broadcast use vstd::seq_lib::group_to_multiset_ensures;

    assert forall|h: Seq<char>| handles.to_set().contains(h) <==> other.to_set().contains(h) by {
        if yields(comments, h) {
            let i = choose|i: int|
                0 <= i < comments.len() && #[trigger] handle_of(comments[i]) == Ok::<
                    Option<Seq<char>>,
                    Seq<char>,
                >(Some(h));
            assert(shuffled.to_multiset().count(comments[i]) > 0);
        }
        if yields(shuffled, h) {
            let i = choose|i: int|
                0 <= i < shuffled.len() && #[trigger] handle_of(shuffled[i]) == Ok::<
                    Option<Seq<char>>,
                    Seq<char>,
                >(Some(h));
            assert(comments.to_multiset().count(shuffled[i]) > 0);
        }
    }
    assert(handles.to_set() =~= other.to_set());
    lemma_sorted_unique(handles, other);
}

} // verus!
