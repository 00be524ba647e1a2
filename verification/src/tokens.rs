//! Splitting a comment into tokens at runs of delimiter characters.

use vstd::prelude::*;
use crate::text::{occurs_at, occurs_in, views};

verus! {

/// The characters that separate tokens: `[`, `]`, newline and space.
pub open spec fn is_delimiter(c: char) -> bool {
    c == '[' || c == ']' || c == '\n' || c == ' '
}

/// The tokens of `body`: the pieces that lie between its maximal runs of delimiters, which
/// is what a split at the pattern `[\[\]\n ]+` gives.
///
/// A body with `n` such runs has `n + 1` tokens, so a body that begins or ends with a
/// delimiter has an empty first or last token, and the empty body has one empty token.
/// Reading the body from the left, a character that is no delimiter extends the last token,
/// the first delimiter of a run opens a new, empty token, and the other delimiters of the
/// run change nothing.
pub open spec fn tokens(body: Seq<char>) -> Seq<Seq<char>>
    decreases body.len(),
{
    if body.len() == 0 {
        seq![Seq::<char>::empty()]
    } else {
        let before = tokens(body.drop_last());
        if !is_delimiter(body.last()) {
            before.drop_last().push(before.last().push(body.last()))
        } else if body.len() >= 2 && is_delimiter(body[body.len() - 2]) {
            before
        } else {
            before.push(Seq::<char>::empty())
        }
    }
}

/// Whether `c` separates tokens.
pub fn is_delimiter_char(c: char) -> (b: bool)
    ensures
        b == is_delimiter(c),
{
    c == '[' || c == ']' || c == '\n' || c == ' '
}

/// Splits `body` into its tokens.
pub fn split_tokens(body: &Vec<char>) -> (parts: Vec<Vec<char>>)
    ensures
        views(parts@) == tokens(body@),
{
    let mut parts: Vec<Vec<char>> = Vec::new();
    let mut current: Vec<char> = Vec::new();
    let mut i: usize = 0;
    while i < body.len()
        invariant
            i <= body.len(),
            views(parts@).push(current@) == tokens(body@.take(i as int)),
        decreases body.len() - i,
    {
        assert(body@.take(i + 1).drop_last() =~= body@.take(i as int));
        let c = body[i];
        if !is_delimiter_char(c) {
            current.push(c);
        } else if i == 0 || !is_delimiter_char(body[i - 1]) {
            parts.push(current);
            current = Vec::new();
        }
        i += 1;
    }
    assert(body@.take(body.len() as int) == body@);
    parts.push(current);
    parts
}

/// No character of `s` is a delimiter.
pub open spec fn is_word(s: Seq<char>) -> bool {
    forall|k: int| 0 <= k < s.len() ==> !is_delimiter(#[trigger] s[k])
}

/// The shape of a token list. There is always a token; no token holds a delimiter; only
/// the first and the last token can be empty, the first where the body begins with a
/// delimiter and the last where it ends with one; and a body without delimiters is its
/// own and only token.
pub proof fn lemma_tokens(body: Seq<char>)
    ensures
        tokens(body).len() >= 1,
        forall|i: int| 0 <= i < tokens(body).len() ==> is_word(#[trigger] tokens(body)[i]),
        forall|i: int| 0 < i < tokens(body).len() - 1 ==> (#[trigger] tokens(body)[i]).len() > 0,
        tokens(body).last().len() == 0 <==> body.len() == 0 || is_delimiter(body.last()),
        tokens(body).first().len() == 0 <==> body.len() == 0 || is_delimiter(body[0]),
        is_word(body) <==> tokens(body).len() == 1,
        is_word(body) ==> tokens(body) == seq![body],
    decreases body.len(),
{
    if body.len() == 0 {
        assert(body =~= Seq::<char>::empty());
    } else {
        lemma_tokens(body.drop_last());
        assert(body.drop_last().push(body.last()) =~= body);
    }
}

/// Behind a text that ends with a delimiter the tokens start afresh: where `b` does not
/// begin with a delimiter, the tokens of `a + b` are those of `a` without its empty last
/// one, then those of `b`.
pub proof fn lemma_tokens_after_delimiter(a: Seq<char>, b: Seq<char>)
    requires
        a.len() > 0,
        is_delimiter(a.last()),
        b.len() == 0 || !is_delimiter(b[0]),
    ensures
        tokens(a + b) == tokens(a).drop_last() + tokens(b),
    decreases b.len(),
{
    lemma_tokens(a);
    if b.len() == 0 {
        assert(tokens(a).last() =~= Seq::<char>::empty());
    } else {
        let front = b.drop_last();
        lemma_tokens_after_delimiter(a, front);
        lemma_tokens(front);
        assert((a + b).drop_last() =~= a + front);
    }
}

/// Before a text that begins with a delimiter the tokens are complete: where `a` does not
/// end with a delimiter, the tokens of `a + b` are those of `a`, then those of `b` without
/// its empty first one.
pub proof fn lemma_tokens_before_delimiter(a: Seq<char>, b: Seq<char>)
    requires
        b.len() > 0,
        is_delimiter(b[0]),
        a.len() == 0 || !is_delimiter(a.last()),
    ensures
        tokens(a + b) == tokens(a) + tokens(b).drop_first(),
    decreases b.len(),
{
    let front = b.drop_last();
    lemma_tokens(front);
    assert((a + b).drop_last() =~= a + front);
    if front.len() > 0 {
        lemma_tokens_before_delimiter(a, front);
    }
}

/// Every token is a piece of the body it was cut from.
pub proof fn lemma_token_occurs(body: Seq<char>, i: int)
    requires
        0 <= i < tokens(body).len(),
    ensures
        occurs_in(body, tokens(body)[i]),
        i == tokens(body).len() - 1 ==> occurs_at(
            body,
            tokens(body)[i],
            body.len() - tokens(body)[i].len(),
        ),
    decreases body.len(),
{
    let token = tokens(body)[i];
    if body.len() == 0 {
        assert(body.subrange(0, 0) =~= token);
        assert(occurs_at(body, token, 0));
    } else {
        let front = body.drop_last();
        let before = tokens(front);
        lemma_tokens(front);
        if i < before.len() && before[i] == token && i < tokens(body).len() - 1 {
            lemma_token_occurs(front, i);
            let at = choose|at: int| occurs_at(front, token, at);
            assert(body.subrange(at, at + token.len()) =~= front.subrange(at, at + token.len()));
            assert(occurs_at(body, token, at));
        } else if !is_delimiter(body.last()) {
            lemma_token_occurs(front, i);
            let at = front.len() - before[i].len();
            assert(body.subrange(at, at + token.len()) =~= token);
            assert(occurs_at(body, token, at));
        } else {
            assert(body.subrange(body.len() as int, body.len() as int) =~= token);
            assert(occurs_at(body, token, body.len() as int));
        }
    }
}

/// A run of delimiters has two tokens, both empty: what is before it and what is behind.
pub proof fn lemma_tokens_of_gap(gap: Seq<char>)
    requires
        gap.len() > 0,
        forall|k: int| 0 <= k < gap.len() ==> is_delimiter(#[trigger] gap[k]),
    ensures
        tokens(gap) == seq![Seq::<char>::empty(), Seq::<char>::empty()],
    decreases gap.len(),
{
    let front = gap.drop_last();
    if front.len() == 0 {
        assert(tokens(front) =~= seq![Seq::<char>::empty()]);
    } else {
        lemma_tokens_of_gap(front);
    }
}

/// A word between delimiters is a token. Where `lead` is empty or ends with a delimiter,
/// `word` is not empty and holds none, and `trail` is empty or begins with one, the tokens
/// of `lead + word + trail` are those of `lead` without its empty last one, then `word`,
/// then those of `trail` without its empty first one.
pub proof fn lemma_tokens_around_word(lead: Seq<char>, word: Seq<char>, trail: Seq<char>)
    requires
        lead.len() == 0 || is_delimiter(lead.last()),
        is_word(word),
        word.len() > 0,
        trail.len() == 0 || is_delimiter(trail[0]),
    ensures
        tokens(lead + word + trail) == tokens(lead).drop_last() + seq![word] + tokens(
            trail,
        ).drop_first(),
{
    lemma_tokens(word);
    if trail.len() > 0 {
        lemma_tokens_before_delimiter(word, trail);
    }
    if lead.len() > 0 {
        lemma_tokens_after_delimiter(lead, word + trail);
        assert(lead + word + trail =~= lead + (word + trail));
    }
}

} // verus!
