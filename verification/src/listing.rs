//! The forum's listing of submissions, and the lookup of the weekly thread in it.

use vstd::prelude::*;
use vstd::string::StringExecFns;
use crate::text::{contains_chars, occurs_in, to_chars};

verus! {

/// A listing as the forum sends it. Every level may be absent.
#[derive(Debug)]
pub struct SubResponse {
    pub data: Option<SubRData>,
}

/// The body of a listing.
#[derive(Debug)]
pub struct SubRData {
    pub children: Option<Vec<SubChild>>,
}

/// One entry of a listing.
#[derive(Debug)]
pub struct SubChild {
    pub data: Option<SubCData>,
}

/// What the lookup reads of a submission.
#[derive(Debug)]
pub struct SubCData {
    pub title: Option<String>,
    pub stickied: Option<bool>,
    pub url: Option<String>,
}

/// A submission as the lookup sees it: an absent title is empty and an absent pin flag is
/// off, so that missing data can only fail to match.
pub struct Submission {
    pub title: Seq<char>,
    pub stickied: bool,
    pub url: Option<Seq<char>>,
}

/// The submission that matches nothing: what an entry without data stands for.
pub open spec fn inert() -> Submission {
    Submission { title: Seq::<char>::empty(), stickied: false, url: None }
}

impl View for SubCData {
    type V = Submission;

    open spec fn view(&self) -> Submission {
        Submission {
            title: match self.title {
                Some(title) => title@,
                None => Seq::<char>::empty(),
            },
            stickied: match self.stickied {
                Some(stickied) => stickied,
                None => false,
            },
            url: match self.url {
                Some(url) => Some(url@),
                None => None,
            },
        }
    }
}

impl View for SubChild {
    type V = Submission;

    open spec fn view(&self) -> Submission {
        match self.data {
            Some(data) => data@,
            None => inert(),
        }
    }
}

impl View for SubRData {
    type V = Seq<Submission>;

    /// The entries in listing order; an absent list has none.
    open spec fn view(&self) -> Seq<Submission> {
        match self.children {
            Some(children) => children@.map_values(|child: SubChild| child@),
            None => Seq::<Submission>::empty(),
        }
    }
}

impl View for SubResponse {
    type V = Seq<Submission>;

    /// The entries in listing order; an absent body has none.
    open spec fn view(&self) -> Seq<Submission> {
        match self.data {
            Some(data) => data@,
            None => Seq::<Submission>::empty(),
        }
    }
}

/// The words by which the weekly thread is known. Case counts.
pub const KEY_WORD: &'static str = "Follow Friday";

/// What is put behind a submission's address to ask for its whole comment tree.
pub const POST_APPEND: &'static str = ".json?limit=10000";

/// The submission is pinned and its title holds the keyword.
pub open spec fn is_announcement(entry: Submission) -> bool {
    entry.stickied && occurs_in(entry.title, KEY_WORD@)
}

/// The entry at index `at` is an announcement and none before it is.
pub open spec fn first_announcement(entries: Seq<Submission>, at: int) -> bool {
    &&& 0 <= at < entries.len()
    &&& is_announcement(entries[at])
    &&& forall|j: int| 0 <= j < at ==> !is_announcement(#[trigger] entries[j])
}

/// The character sequence of an address, where there is one.
pub open spec fn address_view(found: Option<String>) -> Option<Seq<char>> {
    match found {
        Some(url) => Some(url@),
        None => None,
    }
}

/// Whether a submission is an announcement.
fn check_announcement(entry: &SubCData, word: &Vec<char>) -> (b: bool)
    requires
        word@ == KEY_WORD@,
    ensures
        b == is_announcement(entry@),
{
    let stickied = match entry.stickied {
        Some(stickied) => stickied,
        None => false,
    };
    if !stickied {
        return false;
    }
    match &entry.title {
        Some(title) => {
            let title = to_chars(title.as_str());
            contains_chars(&title, word)
        },
        None => {
            proof {
                reveal_strlit("Follow Friday");
            }
            false
        },
    }
}

/// The address of the weekly thread: that of the first announcement in the listing.
/// The first announcement decides alone: where it has no address there is none, whatever
/// follows it, and a listing without an announcement has none either.
pub fn get_friday_url(resp: SubResponse) -> (found: Option<String>)
    ensures
        (forall|at: int| 0 <= at < resp@.len() ==> !is_announcement(#[trigger] resp@[at]))
            ==> found is None,
        forall|at: int| #[trigger]
            first_announcement(resp@, at) ==> address_view(found) == resp@[at].url,
        found is Some ==> exists|at: int| first_announcement(resp@, at),
{
    let word = to_chars(KEY_WORD);
    if let Some(body) = &resp.data {
        if let Some(children) = &body.children {
            let mut i: usize = 0;
            while i < children.len()
                invariant
                    i <= children.len(),
                    word@ == KEY_WORD@,
                    resp@ == children@.map_values(|child: SubChild| child@),
                    forall|j: int| 0 <= j < i ==> !is_announcement(#[trigger] resp@[j]),
                decreases children.len() - i,
            {
                if let Some(entry) = &children[i].data {
                    if check_announcement(entry, &word) {
                        assert(first_announcement(resp@, i as int));
                        return match &entry.url {
                            Some(url) => Some(url.clone()),
                            None => None,
                        };
                    }
                }
                i += 1;
            }
        }
    }
    None
}

/// The address under which the whole comment tree of the submission at `post_url` is had.
pub fn thread_url(post_url: &str) -> (url: String)
    ensures
        url@ == post_url@ + POST_APPEND@,
{
    let mut url = String::from_str(post_url);
    url.append(POST_APPEND);
    url
}

} // verus!
