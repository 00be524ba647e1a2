//! Reading one handle out of a comment.

use vstd::prelude::*;
use crate::text::{
    contains_chars, copy_chars, lemma_contains_in_piece, lemma_occurs_in_piece, occurs_at,
    occurs_in, to_chars, views,
};
use crate::tokens::{
    is_delimiter, is_word, lemma_token_occurs, lemma_tokens, lemma_tokens_around_word,
    lemma_tokens_of_gap, split_tokens, tokens,
};

verus! {

/// The characters that never belong to a handle: `\`, `(`, `)` and `*`.
pub open spec fn is_forbidden(c: char) -> bool {
    c == '\\' || c == '(' || c == ')' || c == '*'
}

/// `s` without its forbidden characters; the others keep their order. This is what
/// replacing every match of the pattern `[\\()*]` by nothing leaves.
pub open spec fn strip(s: Seq<char>) -> Seq<char> {
    s.filter(|c: char| !is_forbidden(c))
}

/// The pieces of `s` between its `/` characters: one more piece than `s` has slashes, and
/// an empty piece wherever two slashes meet or `s` begins or ends with one.
pub open spec fn segments(s: Seq<char>) -> Seq<Seq<char>>
    decreases s.len(),
{
    if s.len() == 0 {
        seq![Seq::<char>::empty()]
    } else {
        let before = segments(s.drop_last());
        if s.last() == '/' {
            before.push(Seq::<char>::empty())
        } else {
            before.drop_last().push(before.last().push(s.last()))
        }
    }
}

/// The address that every profile link holds.
pub const PROFILE_LINK: &'static str = "https://www.instagram.com";

/// Where in a token of a profile link the user name stands, counted in segments from 0.
pub const USER_SEGMENT: usize = 3;

/// Removes the forbidden characters from `token`.
pub fn strip_forbidden(token: &Vec<char>) -> (clean: Vec<char>)
    ensures
        clean@ == strip(token@),
{
    let mut clean: Vec<char> = Vec::new();
    let mut i: usize = 0;
    while i < token.len()
        invariant
            i <= token.len(),
            clean@ == strip(token@.take(i as int)),
        decreases token.len() - i,
    {
        let c = token[i];
        proof {
            token@.take(i as int).lemma_filter_push(c, |c: char| !is_forbidden(c));
            assert(token@.take(i as int).push(c) =~= token@.take(i + 1));
        }
        if !(c == '\\' || c == '(' || c == ')' || c == '*') {
            clean.push(c);
        }
        i += 1;
    }
    assert(token@.take(token.len() as int) == token@);
    clean
}

/// Splits `token` at every `/`.
pub fn split_segments(token: &Vec<char>) -> (parts: Vec<Vec<char>>)
    ensures
        views(parts@) == segments(token@),
{
    let mut parts: Vec<Vec<char>> = Vec::new();
    let mut current: Vec<char> = Vec::new();
    let mut i: usize = 0;
    while i < token.len()
        invariant
            i <= token.len(),
            views(parts@).push(current@) == segments(token@.take(i as int)),
        decreases token.len() - i,
    {
        let ghost next = token@.take(i + 1);
        assert(next.drop_last() =~= token@.take(i as int));
        let c = token[i];
        if c == '/' {
            parts.push(current);
            current = Vec::new();
        } else {
            current.push(c);
        }
        i += 1;
    }
    assert(token@.take(token.len() as int) == token@);
    parts.push(current);
    parts
}

/// Whether `token` holds the character `@`.
pub fn has_at_sign(token: &Vec<char>) -> (found: bool)
    ensures
        found == token@.contains('@'),
{
    let mut i: usize = 0;
    while i < token.len()
        invariant
            i <= token.len(),
            forall|j: int| 0 <= j < i ==> token@[j] != '@',
        decreases token.len() - i,
    {
        if token[i] == '@' {
            return true;
        }
        i += 1;
    }
    false
}

/// A token is a cue when it holds an `@` or the address of a profile link.
pub open spec fn is_cue(token: Seq<char>) -> bool {
    token.contains('@') || occurs_in(token, PROFILE_LINK@)
}

/// The index of the first cue among `parts` at or after `from`, or `parts.len()` where
/// there is none.
pub open spec fn first_cue(parts: Seq<Seq<char>>, from: int) -> int
    decreases parts.len() - from,
{
    if from < 0 || from >= parts.len() || is_cue(parts[from]) {
        from
    } else {
        first_cue(parts, from + 1)
    }
}

/// What the cue at index `at` of `parts` gives.
///
/// A token with an `@` is a mention. It is the handle itself once stripped, unless it is
/// the lone `@`: then the user name is the next token, and where no token follows there is
/// no handle. Any other cue is a profile link, whose user name is the segment at
/// `USER_SEGMENT`; a link with too few segments is broken and is handed back as it is.
pub open spec fn read_cue(parts: Seq<Seq<char>>, at: int) -> Result<Option<Seq<char>>, Seq<char>> {
    let token = parts[at];
    if token.contains('@') {
        if token.len() != 1 {
            Ok(Some(strip(token)))
        } else if at + 1 < parts.len() {
            Ok(Some(seq!['@'] + strip(parts[at + 1])))
        } else {
            Ok(None)
        }
    } else if segments(token).len() > USER_SEGMENT as int {
        Ok(Some(seq!['@'] + strip(segments(token)[USER_SEGMENT as int])))
    } else {
        Err(token)
    }
}

/// The handle that a tokenized comment gives: that of its first cue, and none without one.
pub open spec fn handle_of_tokens(parts: Seq<Seq<char>>) -> Result<Option<Seq<char>>, Seq<char>> {
    let at = first_cue(parts, 0);
    if at < parts.len() {
        read_cue(parts, at)
    } else {
        Ok(None)
    }
}

/// The handle that a comment gives. Only its first cue counts.
pub open spec fn handle_of(body: Seq<char>) -> Result<Option<Seq<char>>, Seq<char>> {
    handle_of_tokens(tokens(body))
}

/// The view of what reading one comment returned.
pub open spec fn reading_view(r: Result<Option<Vec<char>>, Vec<char>>) -> Result<
    Option<Seq<char>>,
    Seq<char>,
> {
    match r {
        Ok(Some(handle)) => Ok(Some(handle@)),
        Ok(None) => Ok(None),
        Err(fragment) => Err(fragment@),
    }
}

/// `@` followed by the stripped `name`.
pub fn handle_from_name(name: &Vec<char>) -> (handle: Vec<char>)
    ensures
        handle@ == seq!['@'] + strip(name@),
{
    let mut handle: Vec<char> = Vec::new();
    handle.push('@');
    let mut clean = strip_forbidden(name);
    handle.append(&mut clean);
    handle
}

/// Reads the handle of a comment off its tokens.
pub fn read_tokens(parts: &Vec<Vec<char>>) -> (r: Result<Option<Vec<char>>, Vec<char>>)
    ensures
        reading_view(r) == handle_of_tokens(views(parts@)),
{
    let link = to_chars(PROFILE_LINK);
    let mut i: usize = 0;
    while i < parts.len()
        invariant
            i <= parts.len(),
            link@ == PROFILE_LINK@,
            first_cue(views(parts@), 0) == first_cue(views(parts@), i as int),
        decreases parts.len() - i,
    {
        let token = &parts[i];
        if has_at_sign(token) {
            if token.len() != 1 {
                return Ok(Some(strip_forbidden(token)));
            } else if i + 1 < parts.len() {
                return Ok(Some(handle_from_name(&parts[i + 1])));
            } else {
                return Ok(None);
            }
        } else if contains_chars(token, &link) {
            let pieces = split_segments(token);
            if pieces.len() > USER_SEGMENT {
                return Ok(Some(handle_from_name(&pieces[USER_SEGMENT])));
            } else {
                return Err(copy_chars(token));
            }
        }
        i += 1;
    }
    Ok(None)
}

/// Reads the handle of a comment.
pub fn read_comment(body: &Vec<char>) -> (r: Result<Option<Vec<char>>, Vec<char>>)
    ensures
        reading_view(r) == handle_of(body@),
{
    let parts = split_tokens(body);
    read_tokens(&parts)
}

/// The token at index `at` is a cue and none before it is.
pub open spec fn is_first_cue(parts: Seq<Seq<char>>, at: int) -> bool {
    &&& 0 <= at < parts.len()
    &&& is_cue(parts[at])
    &&& forall|j: int| 0 <= j < at ==> !is_cue(#[trigger] parts[j])
}

/// `first_cue` finds the first cue at or after `from`: nothing between `from` and its
/// result is a cue, and its result is one unless it is the end of `parts`.
pub proof fn lemma_first_cue(parts: Seq<Seq<char>>, from: int)
    requires
        0 <= from <= parts.len(),
    ensures
        from <= first_cue(parts, from) <= parts.len(),
        first_cue(parts, from) < parts.len() ==> is_cue(parts[first_cue(parts, from)]),
        forall|j: int| from <= j < first_cue(parts, from) ==> !is_cue(#[trigger] parts[j]),
    decreases parts.len() - from,
{
    if from < parts.len() && !is_cue(parts[from]) {
        lemma_first_cue(parts, from + 1);
    }
}

/// A comment is read at its first cue, and a comment without a cue gives no handle.
pub proof fn lemma_read_at_first_cue(body: Seq<char>)
    ensures
        forall|at: int| #[trigger]
            is_first_cue(tokens(body), at) ==> handle_of(body) == read_cue(tokens(body), at),
        (forall|at: int| 0 <= at < tokens(body).len() ==> !is_cue(#[trigger] tokens(body)[at]))
            ==> handle_of(body) == Ok::<Option<Seq<char>>, Seq<char>>(None),
{
    lemma_first_cue(tokens(body), 0);
}

/// Stripping leaves no forbidden character, keeps every other one, and adds none.
pub proof fn lemma_strip(s: Seq<char>)
    ensures
        forall|i: int| 0 <= i < strip(s).len() ==> !is_forbidden(#[trigger] strip(s)[i]),
        forall|i: int| 0 <= i < strip(s).len() ==> s.contains(#[trigger] strip(s)[i]),
        forall|i: int|
            0 <= i < s.len() && !is_forbidden(s[i]) ==> strip(s).contains(#[trigger] s[i]),
        strip(s).len() <= s.len(),
    decreases s.len(),
{
    reveal(Seq::filter);
    if s.len() > 0 {
        let front = s.drop_last();
        lemma_strip(front);
    }
}

/// A sequence without forbidden characters is its own stripped form.
pub proof fn lemma_strip_clean(s: Seq<char>)
    requires
        forall|i: int| 0 <= i < s.len() ==> !is_forbidden(#[trigger] s[i]),
    ensures
        strip(s) == s,
    decreases s.len(),
{
    reveal(Seq::filter);
    if s.len() > 0 {
        let front = s.drop_last();
        lemma_strip_clean(front);
    }
}

/// Stripping goes through concatenation.
pub proof fn lemma_strip_add(a: Seq<char>, b: Seq<char>)
    ensures
        strip(a + b) == strip(a) + strip(b),
{
    Seq::filter_distributes_over_add(a, b, |c: char| !is_forbidden(c));
}

/// There is always a first segment, and no segment holds a `/`.
pub proof fn lemma_segments(s: Seq<char>)
    ensures
        segments(s).len() >= 1,
        forall|i: int, j: int|
            0 <= i < segments(s).len() && 0 <= j < segments(s)[i].len() ==> (
            #[trigger] segments(s)[i][j]) != '/',
    decreases s.len(),
{
    if s.len() > 0 {
        lemma_segments(s.drop_last());
    }
}

/// A sequence without a `/` is its own and only segment.
pub proof fn lemma_segments_single(s: Seq<char>)
    requires
        !s.contains('/'),
    ensures
        segments(s) == seq![s],
    decreases s.len(),
{
    if s.len() > 0 {
        let front = s.drop_last();
        lemma_segments_single(front);
        assert(front.push(s.last()) =~= s);
    } else {
        assert(s =~= Seq::<char>::empty());
    }
}

/// The segments of two sequences joined by a `/` are those of the first, then those of
/// the second.
pub proof fn lemma_segments_joined(a: Seq<char>, b: Seq<char>)
    ensures
        segments(a + seq!['/'] + b) == segments(a) + segments(b),
    decreases b.len(),
{
    let whole = a + seq!['/'] + b;
    if b.len() == 0 {
        assert(whole.drop_last() =~= a);
    } else {
        let front = b.drop_last();
        lemma_segments_joined(a, front);
        assert(whole.drop_last() =~= a + seq!['/'] + front);
    }
}

/// In a token that holds the address of a profile link, then a `/`, a user name and
/// perhaps a further path, the user name is the segment that is read. The token may begin
/// with other characters, as long as there is no `/` among them.
pub proof fn lemma_link_user(front: Seq<char>, user: Seq<char>, rest: Seq<char>)
    requires
        !front.contains('/'),
        !user.contains('/'),
        rest.len() == 0 || rest[0] == '/',
    ensures
        segments(front + PROFILE_LINK@ + seq!['/'] + user + rest).len() > USER_SEGMENT as int,
        segments(front + PROFILE_LINK@ + seq!['/'] + user + rest)[USER_SEGMENT as int] == user,
{
    reveal_strlit("https://www.instagram.com");
    reveal_strlit("https:");
    reveal_strlit("www.instagram.com");
    let scheme = front + "https:"@;
    let host = "www.instagram.com"@;
    let none = Seq::<char>::empty();
    let tail = user + rest;
    let token = front + PROFILE_LINK@ + seq!['/'] + user + rest;
    assert(token =~= scheme + seq!['/'] + (none + seq!['/'] + (host + seq!['/'] + tail)));
    lemma_segments_single(scheme);
    lemma_segments_single(host);
    lemma_segments_single(user);
    lemma_segments_joined(scheme, none + seq!['/'] + (host + seq!['/'] + tail));
    lemma_segments_joined(none, host + seq!['/'] + tail);
    lemma_segments_joined(host, tail);
    if rest.len() > 0 {
        assert(tail =~= user + seq!['/'] + rest.skip(1));
        lemma_segments_joined(user, rest.skip(1));
    }
}

/// Mention. Where the first cue of a comment is a token with an `@` that is more than the
/// `@` alone, the handle is that token without its forbidden characters. For a token
/// `@name` this is `@`, then the name without them.
pub proof fn lemma_mention(body: Seq<char>, at: int)
    requires
        is_first_cue(tokens(body), at),
        tokens(body)[at].contains('@'),
        tokens(body)[at].len() != 1,
    ensures
        handle_of(body) == Ok::<Option<Seq<char>>, Seq<char>>(Some(strip(tokens(body)[at]))),
        tokens(body)[at][0] == '@' ==> strip(tokens(body)[at]) == seq!['@'] + strip(
            tokens(body)[at].skip(1),
        ),
{
    lemma_read_at_first_cue(body);
    let token = tokens(body)[at];
    if token[0] == '@' {
        assert(token =~= seq!['@'] + token.skip(1));
        lemma_strip_add(seq!['@'], token.skip(1));
        lemma_strip_clean(seq!['@']);
    }
}

/// Lone `@`. Where the first cue of a comment is the token `@` and a token follows it,
/// the handle is `@`, then that next token without its forbidden characters.
pub proof fn lemma_lone_at(body: Seq<char>, at: int)
    requires
        is_first_cue(tokens(body), at),
        tokens(body)[at] == seq!['@'],
        at + 1 < tokens(body).len(),
    ensures
        handle_of(body) == Ok::<Option<Seq<char>>, Seq<char>>(
            Some(seq!['@'] + strip(tokens(body)[at + 1])),
        ),
{
    lemma_read_at_first_cue(body);
}

/// Lone `@` at the end. Where the first cue of a comment is the token `@` and it is the
/// last token, the comment gives no handle, and no error either.
pub proof fn lemma_lone_at_last(body: Seq<char>, at: int)
    requires
        is_first_cue(tokens(body), at),
        tokens(body)[at] == seq!['@'],
        at + 1 == tokens(body).len(),
    ensures
        handle_of(body) == Ok::<Option<Seq<char>>, Seq<char>>(None),
{
    lemma_read_at_first_cue(body);
}

/// Profile link. Where the first cue of a comment is a token without an `@`, it holds the
/// address of a profile link. With a segment at `USER_SEGMENT` the handle is `@`, then
/// that segment without its forbidden characters; without one the comment fails, and the
/// error carries the token.
pub proof fn lemma_profile_link(body: Seq<char>, at: int)
    requires
        is_first_cue(tokens(body), at),
        !tokens(body)[at].contains('@'),
    ensures
        occurs_in(tokens(body)[at], PROFILE_LINK@),
        segments(tokens(body)[at]).len() > USER_SEGMENT as int ==> handle_of(body) == Ok::<
            Option<Seq<char>>,
            Seq<char>,
        >(Some(seq!['@'] + strip(segments(tokens(body)[at])[USER_SEGMENT as int]))),
        segments(tokens(body)[at]).len() <= USER_SEGMENT as int ==> handle_of(body) == Err::<
            Option<Seq<char>>,
            Seq<char>,
        >(tokens(body)[at]),
{
    lemma_read_at_first_cue(body);
}

/// A text without an `@` and without the address of a profile link has no cue among its
/// tokens.
pub proof fn lemma_no_cue(text: Seq<char>)
    requires
        !text.contains('@'),
        !occurs_in(text, PROFILE_LINK@),
    ensures
        forall|i: int| 0 <= i < tokens(text).len() ==> !is_cue(#[trigger] tokens(text)[i]),
{
    assert forall|i: int| 0 <= i < tokens(text).len() implies !is_cue(
        #[trigger] tokens(text)[i],
    ) by {
        let token = tokens(text)[i];
        lemma_token_occurs(text, i);
        if token.contains('@') {
            lemma_contains_in_piece(text, token, '@');
        }
        if occurs_in(token, PROFILE_LINK@) {
            lemma_occurs_in_piece(text, token, PROFILE_LINK@);
        }
    }
}

/// A cue that stands as a word of its own, behind a text without cues, is the first cue
/// of the comment, and the tokens behind it are those of what follows it.
pub proof fn lemma_cue_in_text(lead: Seq<char>, word: Seq<char>, trail: Seq<char>)
    requires
        lead.len() == 0 || is_delimiter(lead.last()),
        !lead.contains('@'),
        !occurs_in(lead, PROFILE_LINK@),
        is_word(word),
        word.len() > 0,
        is_cue(word),
        trail.len() == 0 || is_delimiter(trail[0]),
    ensures
        is_first_cue(tokens(lead + word + trail), tokens(lead).len() - 1),
        tokens(lead + word + trail)[tokens(lead).len() - 1] == word,
        tokens(lead + word + trail).skip(tokens(lead).len() as int) == tokens(trail).drop_first(),
{
    lemma_tokens(lead);
    lemma_tokens_around_word(lead, word, trail);
    lemma_no_cue(lead);
}

/// Mention in a comment. A word `@name`, the name not empty, that stands behind a text
/// without cues gives the handle `@`, then the name without its forbidden characters.
pub proof fn lemma_mention_in_text(lead: Seq<char>, name: Seq<char>, trail: Seq<char>)
    requires
        lead.len() == 0 || is_delimiter(lead.last()),
        !lead.contains('@'),
        !occurs_in(lead, PROFILE_LINK@),
        is_word(name),
        name.len() > 0,
        trail.len() == 0 || is_delimiter(trail[0]),
    ensures
        handle_of(lead + (seq!['@'] + name) + trail) == Ok::<Option<Seq<char>>, Seq<char>>(
            Some(seq!['@'] + strip(name)),
        ),
{
    let word = seq!['@'] + name;
    let body = lead + word + trail;
    assert(word[0] == '@');
    lemma_cue_in_text(lead, word, trail);
    let at = tokens(lead).len() - 1;
    lemma_mention(body, at);
    assert(word.skip(1) =~= name);
}

/// Lone `@` in a comment. An `@` that stands alone behind a text without cues, then
/// delimiters, then a word, gives the handle `@`, then that word without its forbidden
/// characters.
pub proof fn lemma_lone_at_in_text(
    lead: Seq<char>,
    gap: Seq<char>,
    name: Seq<char>,
    trail: Seq<char>,
)
    requires
        lead.len() == 0 || is_delimiter(lead.last()),
        !lead.contains('@'),
        !occurs_in(lead, PROFILE_LINK@),
        gap.len() > 0,
        forall|k: int| 0 <= k < gap.len() ==> is_delimiter(#[trigger] gap[k]),
        is_word(name),
        name.len() > 0,
        trail.len() == 0 || is_delimiter(trail[0]),
    ensures
        handle_of(lead + seq!['@'] + (gap + name + trail)) == Ok::<Option<Seq<char>>, Seq<char>>(
            Some(seq!['@'] + strip(name)),
        ),
{
    let word = seq!['@'];
    let rest = gap + name + trail;
    let body = lead + word + rest;
    assert(word[0] == '@');
    lemma_cue_in_text(lead, word, rest);
    lemma_tokens_around_word(gap, name, trail);
    lemma_tokens_of_gap(gap);
    let at = tokens(lead).len() - 1;
    let parts = tokens(body);
    assert(parts.skip(at + 1).len() == parts.len() - (at + 1));
    assert(parts.skip(at + 1)[0] == tokens(rest).drop_first()[0]);
    lemma_lone_at(body, at);
}

/// Profile link in a comment. A word made of the address of a profile link, a `/`, a user
/// name and perhaps a further path, that stands behind a text without cues, gives the
/// handle `@`, then the user name without its forbidden characters. The word may begin
/// with other characters before the address, as long as there is no `/` among them.
pub proof fn lemma_link_in_text(
    lead: Seq<char>,
    front: Seq<char>,
    user: Seq<char>,
    rest: Seq<char>,
    trail: Seq<char>,
)
    requires
        lead.len() == 0 || is_delimiter(lead.last()),
        !lead.contains('@'),
        !occurs_in(lead, PROFILE_LINK@),
        is_word(front + PROFILE_LINK@ + seq!['/'] + user + rest),
        !(front + PROFILE_LINK@ + seq!['/'] + user + rest).contains('@'),
        !front.contains('/'),
        !user.contains('/'),
        rest.len() == 0 || rest[0] == '/',
        trail.len() == 0 || is_delimiter(trail[0]),
    ensures
        handle_of(lead + (front + PROFILE_LINK@ + seq!['/'] + user + rest) + trail) == Ok::<
            Option<Seq<char>>,
            Seq<char>,
        >(Some(seq!['@'] + strip(user))),
{
    let word = front + PROFILE_LINK@ + seq!['/'] + user + rest;
    let body = lead + word + trail;
    let start = front.len() as int;
    assert(word.subrange(start, start + PROFILE_LINK@.len()) =~= PROFILE_LINK@);
    assert(occurs_at(word, PROFILE_LINK@, start));
    lemma_cue_in_text(lead, word, trail);
    let at = tokens(lead).len() - 1;
    lemma_profile_link(body, at);
    lemma_link_user(front, user, rest);
}

/// Broken profile link in a comment. A word that holds the address of a profile link, no
/// `@`, and too few segments for a user name, standing behind a text without cues, fails
/// the comment, and the error carries the word.
pub proof fn lemma_broken_link_in_text(lead: Seq<char>, word: Seq<char>, trail: Seq<char>)
    requires
        lead.len() == 0 || is_delimiter(lead.last()),
        !lead.contains('@'),
        !occurs_in(lead, PROFILE_LINK@),
        is_word(word),
        !word.contains('@'),
        occurs_in(word, PROFILE_LINK@),
        segments(word).len() <= USER_SEGMENT as int,
        trail.len() == 0 || is_delimiter(trail[0]),
    ensures
        handle_of(lead + word + trail) == Err::<Option<Seq<char>>, Seq<char>>(word),
{
    assert(word.len() > 0) by {
        reveal_strlit("https://www.instagram.com");
    }
    lemma_cue_in_text(lead, word, trail);
    lemma_profile_link(lead + word + trail, tokens(lead).len() - 1);
}

/// Every character of a segment is a character of what was split.
pub proof fn lemma_segment_chars(s: Seq<char>)
    ensures
        forall|i: int, j: int|
            0 <= i < segments(s).len() && 0 <= j < segments(s)[i].len() ==> s.contains(
                #[trigger] segments(s)[i][j],
            ),
    decreases s.len(),
{
    if s.len() > 0 {
        let front = s.drop_last();
        let before = segments(front);
        lemma_segment_chars(front);
        lemma_segments(front);
        assert forall|i: int, j: int|
            0 <= i < segments(s).len() && 0 <= j < segments(s)[i].len() implies s.contains(
            #[trigger] segments(s)[i][j],
        ) by {
            let c = segments(s)[i][j];
            if i < before.len() && j < before[i].len() && before[i][j] == c {
                assert(front.contains(before[i][j]));
                let k = choose|k: int| 0 <= k < front.len() && front[k] == c;
                assert(s[k] == c);
            } else {
                assert(c == s.last());
                assert(s[s.len() - 1] == c);
            }
        }
    }
}

/// What a handle looks like. A handle is not empty, holds an `@`, and holds no delimiter
/// and no forbidden character. It begins with `@` unless it was read off a mention that
/// does not begin with one.
pub proof fn lemma_handle_shape(body: Seq<char>, handle: Seq<char>)
    requires
        handle_of(body) == Ok::<Option<Seq<char>>, Seq<char>>(Some(handle)),
    ensures
        handle.contains('@'),
        forall|k: int| 0 <= k < handle.len() ==> !is_delimiter(#[trigger] handle[k]),
        forall|k: int| 0 <= k < handle.len() ==> !is_forbidden(#[trigger] handle[k]),
        ({
            let cue = tokens(body)[first_cue(tokens(body), 0)];
            cue[0] == '@' || !cue.contains('@') ==> handle[0] == '@'
        }),
{
    let parts = tokens(body);
    let at = first_cue(parts, 0);
    lemma_first_cue(parts, 0);
    lemma_tokens(body);
    let cue = parts[at];
    // What the handle is made of: a token or a segment of one, stripped.
    let source = if cue.contains('@') {
        if cue.len() != 1 {
            cue
        } else {
            parts[at + 1]
        }
    } else {
        segments(cue)[USER_SEGMENT as int]
    };
    assert(is_word(source)) by {
        if !cue.contains('@') {
            lemma_segment_chars(cue);
        }
    }
    lemma_strip(source);
    if cue.contains('@') && cue.len() != 1 {
        lemma_mention(body, at);
    } else {
        assert(handle[0] == '@');
    }
}

} // verus!
