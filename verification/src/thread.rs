//! A thread as the forum sends it, and the comment bodies in it.

use vstd::prelude::*;
use crate::text::bodies;

verus! {

/// One listing of a thread. A thread is a sequence of them: the submission first, then
/// its comments.
#[derive(Debug)]
pub struct PostResponse {
    pub data: Option<PostData>,
}

/// The body of a listing of a thread.
#[derive(Debug)]
pub struct PostData {
    pub children: Option<Vec<PostChildren>>,
}

/// One entry of a listing of a thread.
#[derive(Debug)]
pub struct PostChildren {
    pub data: Option<PostCommentData>,
}

/// What is read of a comment.
#[derive(Debug)]
pub struct PostCommentData {
    pub body: Option<String>,
}

impl View for PostCommentData {
    type V = Option<Seq<char>>;

    /// The text of the comment, where it has one.
    open spec fn view(&self) -> Option<Seq<char>> {
        match self.body {
            Some(body) => Some(body@),
            None => None,
        }
    }
}

impl View for PostChildren {
    type V = Option<Seq<char>>;

    /// The text of the entry's comment; an entry without data has none.
    open spec fn view(&self) -> Option<Seq<char>> {
        match self.data {
            Some(data) => data@,
            None => None,
        }
    }
}

impl View for PostData {
    type V = Seq<Option<Seq<char>>>;

    /// The texts of the entries in listing order; an absent list has none.
    open spec fn view(&self) -> Seq<Option<Seq<char>>> {
        match self.children {
            Some(children) => children@.map_values(|child: PostChildren| child@),
            None => Seq::<Option<Seq<char>>>::empty(),
        }
    }
}

impl View for PostResponse {
    type V = Seq<Option<Seq<char>>>;

    /// The texts of the entries in listing order; an absent body has none.
    open spec fn view(&self) -> Seq<Option<Seq<char>>> {
        match self.data {
            Some(data) => data@,
            None => Seq::<Option<Seq<char>>>::empty(),
        }
    }
}

/// Where in a thread the listing of its comments stands: behind the submission itself.
pub const COMMENTS_INDEX: usize = 1;

/// An entry counts as a comment when it has a text and the text is not empty.
pub open spec fn has_text(entry: Option<Seq<char>>) -> bool {
    entry matches Some(body) && body.len() > 0
}

/// The texts of the entries that have one, in the order of the entries.
pub open spec fn texts(entries: Seq<Option<Seq<char>>>) -> Seq<Seq<char>> {
    entries.filter(|entry: Option<Seq<char>>| has_text(entry)).map_values(
        |entry: Option<Seq<char>>| entry->0,
    )
}

/// The comment bodies of a thread: the texts of its second listing, and none where the
/// thread has no second listing.
pub open spec fn comment_bodies(thread: Seq<PostResponse>) -> Seq<Seq<char>> {
    if COMMENTS_INDEX < thread.len() {
        texts(thread[COMMENTS_INDEX as int]@)
    } else {
        Seq::<Seq<char>>::empty()
    }
}

/// The bodies of the comments of a thread, in the order of the thread. Entries without a
/// body, or with an empty one, are passed over.
pub fn get_comments(post: Vec<PostResponse>) -> (comments: Vec<String>)
    ensures
        bodies(comments@) == comment_bodies(post@),
{
    let mut comments: Vec<String> = Vec::new();
    if post.len() > COMMENTS_INDEX {
        if let Some(listing) = &post[COMMENTS_INDEX].data {
            if let Some(children) = &listing.children {
                let ghost entries = post@[COMMENTS_INDEX as int]@;
                let mut i: usize = 0;
                while i < children.len()
                    invariant
                        i <= children.len(),
                        entries == children@.map_values(|child: PostChildren| child@),
                        bodies(comments@) == texts(entries.take(i as int)),
                    decreases children.len() - i,
                {
                    let ghost entry = entries[i as int];
                    proof {
                        assert(entries.take(i + 1) =~= entries.take(i as int).push(entry));
                        entries.take(i as int).lemma_filter_push(
                            entry,
                            |entry: Option<Seq<char>>| has_text(entry),
                        );
                    }
                    if let Some(comment) = &children[i].data {
                        if let Some(body) = &comment.body {
                            if !body.as_str().is_empty() {
                                comments.push(body.clone());
                                assert(texts(entries.take(i + 1)) =~= texts(
                                    entries.take(i as int),
                                ).push(body@));
                            }
                        }
                    }
                    i += 1;
                }
                assert(entries.take(children.len() as int) =~= entries);
            }
        }
    }
    comments
}

} // verus!
