//! Patterns and dates that emails and symbols are searched by.

use vstd::prelude::*;
use vstd::string::*;

use crate::text::{join, joined, texts, to_chars};
use crate::types::text_or_none;

verus! {

/// What is wrong with a regular expression, where it cannot be compiled on a machine
/// whose words have `word_bits`.
pub uninterp spec fn regex_fault(
    pattern: Seq<char>,
    ignore_case: bool,
    word_bits: u32,
) -> Option<Seq<char>>;

/// Whether a regular expression that can be compiled is found anywhere in a text.
pub uninterp spec fn regex_found(
    pattern: Seq<char>,
    ignore_case: bool,
    text: Seq<char>,
) -> bool;

/// The moment that a date in the format of RFC 2822 stands for: seconds since the
/// start of 1970 in UTC, and nanoseconds.
pub uninterp spec fn rfc2822_moment(text: Seq<char>) -> Option<(i64, u32)>;

/// Whether Unicode counts a character among letters and numbers.
pub uninterp spec fn is_word_character(c: char) -> bool;

/// `regex::RegexBuilder::build`: compiles a pattern, and hands out the text of the
/// error where that fails. Whether it does, and with what text, depends on the pattern,
/// the flag and the size of a word alone; nothing more is claimed of it. (The limit on the
/// size of a compiled pattern is in bytes, so a pattern close to it can pass on a machine
/// of one word size and fail on one of another.)
#[verifier::external_body]
fn compile_fault(pattern: &str, ignore_case: bool) -> (fault: Option<String>)
    ensures
        text_or_none(fault) == regex_fault(pattern@, ignore_case, usize::BITS),
{
    match regex::RegexBuilder::new(pattern).case_insensitive(ignore_case).build() {
        Ok(_) => None,
        Err(error) => Some(error.to_string()),
    }
}

/// `regex::Regex::is_match`: whether a compiled pattern is found anywhere in the
/// text. That depends on the pattern, the flag and the text alone; nothing more is
/// claimed of it.
#[verifier::external_body]
fn is_match(pattern: &str, ignore_case: bool, text: &str) -> (found: bool)
    requires
        regex_fault(pattern@, ignore_case, usize::BITS) is None,
    ensures
        found == regex_found(pattern@, ignore_case, text@),
{
    match regex::RegexBuilder::new(pattern).case_insensitive(ignore_case).build() {
        Ok(regex) => regex.is_match(text),
        Err(_) => false,
    }
}

/// `chrono::DateTime::parse_from_rfc2822`: the moment that a date stands for, or
/// none where the text is no such date. That depends on the text alone; nothing
/// more is claimed of it.
#[verifier::external_body]
pub(crate) fn parse_moment(text: &str) -> (moment: Option<(i64, u32)>)
    ensures
        moment == rfc2822_moment(text@),
{
    match chrono::DateTime::parse_from_rfc2822(text) {
        Ok(date) => Some((date.timestamp(), date.timestamp_subsec_nanos())),
        Err(_) => None,
    }
}

/// [`char::is_alphanumeric`]: whether Unicode counts a character among letters and
/// numbers. That depends on the character alone; nothing more is claimed of it.
#[verifier::external_body]
fn is_alphanumeric(c: char) -> (yes: bool)
    ensures
        yes == is_word_character(c),
{
    c.is_alphanumeric()
}

/// What is wrong with a pattern that takes upper and lower case as the same, where it
/// cannot be compiled.
pub open spec fn refusal(pattern: Seq<char>) -> Option<Seq<char>> {
    regex_fault(pattern, true, usize::BITS)
}

/// Whether a pattern can be compiled and is found in a text, upper and lower case
/// taken as the same.
pub open spec fn matches_ignoring_case(pattern: Seq<char>, text: Seq<char>) -> bool {
    refusal(pattern) is None && regex_found(pattern, true, text)
}

/// Whether a pattern can be compiled and is found in a text, upper and lower case
/// taken as the same.
pub fn find_ignoring_case(pattern: &str, text: &str) -> (found: bool)
    ensures
        found == matches_ignoring_case(pattern@, text@),
{
    match compile_fault(pattern, true) {
        Some(_) => false,
        None => is_match(pattern, true, text),
    }
}

/// What is wrong with a pattern, where it cannot be compiled.
pub fn pattern_fault(pattern: &str) -> (fault: Option<String>)
    ensures
        text_or_none(fault) == refusal(pattern@),
{
    compile_fault(pattern, true)
}

/// Whether one moment comes before another.
pub open spec fn earlier(a: (i64, u32), b: (i64, u32)) -> bool {
    a.0 < b.0 || (a.0 == b.0 && a.1 < b.1)
}

/// Whether one moment comes before another.
pub fn is_earlier(a: (i64, u32), b: (i64, u32)) -> (yes: bool)
    ensures
        yes == earlier(a, b),
{
    a.0 < b.0 || (a.0 == b.0 && a.1 < b.1)
}

/// The moment of a date that may be absent; none too where it is no date.
pub open spec fn bound_moment(date: Option<Seq<char>>) -> Option<(i64, u32)> {
    match date {
        Some(text) => rfc2822_moment(text),
        None => None,
    }
}

/// Whether a date lies within the bounds that are given. Where there is a bound, a
/// text that is no date does not.
pub open spec fn within(
    moment: Option<(i64, u32)>,
    since: Option<(i64, u32)>,
    until: Option<(i64, u32)>,
) -> bool {
    if since is None && until is None {
        true
    } else {
        match moment {
            Some(m) => !(since matches Some(s) && earlier(m, s)) && !(until matches Some(u)
                && earlier(u, m)),
            None => false,
        }
    }
}

/// Whether a moment lies within the bounds that are given.
pub fn is_within(
    moment: Option<(i64, u32)>,
    since: Option<(i64, u32)>,
    until: Option<(i64, u32)>,
) -> (yes: bool)
    ensures
        yes == within(moment, since, until),
{
    if since.is_none() && until.is_none() {
        return true;
    }
    match moment {
        Some(m) => {
            let early = match since {
                Some(s) => is_earlier(m, s),
                None => false,
            };
            let late = match until {
                Some(u) => is_earlier(u, m),
                None => false,
            };
            !early && !late
        },
        None => false,
    }
}

/// Whether a character separates the words that full-text search looks for.
pub open spec fn separates(c: char) -> bool {
    !is_word_character(c) && c != ' '
}

/// The pieces of a text between separators, without the empty ones.
pub open spec fn search_words(text: Seq<char>) -> Seq<Seq<char>>
    decreases text.len(),
{
    let end = piece_end(text);
    if text.len() == 0 {
        seq![]
    } else if 0 < end <= text.len() {
        seq![text.take(end)] + search_words(text.skip(end))
    } else {
        search_words(text.skip(1))
    }
}

/// Where the first separator is, or the length where there is none.
pub open spec fn piece_end(text: Seq<char>) -> int
    decreases text.len(),
{
    if text.len() == 0 || separates(text[0]) {
        0
    } else {
        1 + piece_end(text.skip(1))
    }
}

/// A pattern as full-text search takes it: the pieces between separators, with one
/// space between them.
pub open spec fn full_text_words(pattern: Seq<char>) -> Seq<char> {
    joined(search_words(pattern), " "@)
}

proof fn lemma_piece_end(text: Seq<char>, end: int)
    requires
        0 <= end <= text.len(),
        end < text.len() ==> separates(text[end]),
        forall|i: int| 0 <= i < end ==> !separates(#[trigger] text[i]),
    ensures
        piece_end(text) == end,
    decreases text.len(),
{
    if end > 0 {
        let rest = text.skip(1);
        assert(!separates(text[0]));
        assert forall|i: int| 0 <= i < end - 1 implies !separates(#[trigger] rest[i]) by {
            assert(rest[i] == text[i + 1]);
        }
        lemma_piece_end(rest, end - 1);
    }
}

/// A pattern as full-text search takes it.
pub fn normalize_for_search(pattern: &str) -> (words: String)
    ensures
        words@ == full_text_words(pattern@),
{
    let chars = to_chars(pattern);
    let mut list: Vec<String> = Vec::new();
    let mut from: usize = 0;
    assert(pattern@.skip(0) =~= pattern@);
    assert(texts(list@) + search_words(pattern@) =~= search_words(pattern@));
    while from < chars.len()
        invariant
            from <= chars@.len(),
            chars@ == pattern@,
            texts(list@) + search_words(pattern@.skip(from as int)) == search_words(pattern@),
        decreases chars@.len() - from,
    {
        let ghost rest = pattern@.skip(from as int);
        let ghost before = texts(list@);
        let mut to: usize = from;
        while to < chars.len() && (is_alphanumeric(chars[to]) || chars[to] == ' ')
            invariant
                from <= to <= chars@.len(),
                chars@ == pattern@,
                forall|i: int| from <= i < to ==> !separates(#[trigger] chars@[i]),
            decreases chars@.len() - to,
        {
            to = to + 1;
        }
        proof {
            assert forall|i: int| 0 <= i < to - from implies !separates(#[trigger] rest[i]) by {
                assert(rest[i] == chars@[from + i]);
            }
            lemma_piece_end(rest, to - from);
        }
        if to == from {
            assert(rest.skip(1) =~= pattern@.skip(from + 1));
            from = from + 1;
        } else {
            let word = crate::text::text_of(&chars, from, to);
            assert(word@ =~= rest.take(to - from));
            list.push(word);
            assert(rest.skip(to - from) =~= pattern@.skip(to as int));
            assert(texts(list@) =~= before.push(rest.take(to - from)));
            from = to;
            assert(texts(list@) + search_words(pattern@.skip(from as int)) =~= before
                + search_words(rest));
        }
    }
    assert(texts(list@) + search_words(pattern@.skip(from as int)) =~= texts(list@));
    join(&list, " ")
}

} // verus!
