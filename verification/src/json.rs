//! JSON texts that the database keeps in its columns.

use vstd::prelude::*;

use crate::text::texts;
use crate::types::{tags_view, text_or_none};

verus! {

/// The list of texts that a JSON text stands for, or what is wrong with it.
pub uninterp spec fn json_text_list(text: Seq<char>) -> Result<Seq<Seq<char>>, Seq<char>>;

/// The lists of texts by name that a JSON text stands for, in the order of the
/// names, or what is wrong with it.
pub uninterp spec fn json_text_lists(text: Seq<char>) -> Result<
    Seq<(Seq<char>, Seq<Seq<char>>)>,
    Seq<char>,
>;

/// The contents of a list of texts, or of a message.
pub open spec fn list_result(result: Result<Vec<String>, String>) -> Result<
    Seq<Seq<char>>,
    Seq<char>,
> {
    match result {
        Ok(list) => Ok(texts(list@)),
        Err(message) => Err(message@),
    }
}

/// The contents of lists of texts by name, or of a message.
pub open spec fn lists_result(result: Result<Vec<(String, Vec<String>)>, String>) -> Result<
    Seq<(Seq<char>, Seq<Seq<char>>)>,
    Seq<char>,
> {
    match result {
        Ok(lists) => Ok(tags_view(lists@)),
        Err(message) => Err(message@),
    }
}

/// `serde_json::from_str`, asked for a list of strings: the list, or the text of
/// the error. Which it is, and what it holds, depends on the text alone; nothing
/// more is claimed of it.
#[verifier::external_body]
pub(crate) fn parse_text_list(text: &str) -> (result: Result<Vec<String>, String>)
    ensures
        list_result(result) == json_text_list(text@),
{
    serde_json::from_str::<Vec<String>>(text).map_err(|error| error.to_string())
}

/// `serde_json::from_str`, asked for lists of strings by name: the lists in the
/// order of their names, or the text of the error. Which it is, and what it holds,
/// depends on the text alone; nothing more is claimed of it.
#[verifier::external_body]
pub(crate) fn parse_text_lists(text: &str) -> (result: Result<Vec<(String, Vec<String>)>, String>)
    ensures
        lists_result(result) == json_text_lists(text@),
{
    match serde_json::from_str::<std::collections::BTreeMap<String, Vec<String>>>(text) {
        Ok(lists) => Ok(lists.into_iter().collect()),
        Err(error) => Err(error.to_string()),
    }
}

/// A hexadecimal digit.
pub open spec fn hex_digit(n: int) -> char {
    "0123456789abcdef"@[n]
}

/// A character as it stands in a JSON string.
pub open spec fn json_escape(c: char) -> Seq<char> {
    if c == '"' {
        seq!['\\', '"']
    } else if c == '\\' {
        seq!['\\', '\\']
    } else if c == '\u{8}' {
        seq!['\\', 'b']
    } else if c == '\t' {
        seq!['\\', 't']
    } else if c == '\n' {
        seq!['\\', 'n']
    } else if c == '\u{c}' {
        seq!['\\', 'f']
    } else if c == '\r' {
        seq!['\\', 'r']
    } else if (c as int) < 32 {
        seq!['\\', 'u', '0', '0', hex_digit(c as int / 16), hex_digit(c as int % 16)]
    } else {
        seq![c]
    }
}

/// The characters of a text as they stand in a JSON string.
pub open spec fn json_escaped(text: Seq<char>) -> Seq<char>
    decreases text.len(),
{
    if text.len() == 0 {
        seq![]
    } else {
        json_escaped(text.drop_last()) + json_escape(text.last())
    }
}

/// A text as a JSON string.
pub open spec fn json_quoted(text: Seq<char>) -> Seq<char> {
    seq!['"'] + json_escaped(text) + seq!['"']
}

/// The JSON text of a member of the object that a JSON text stands for: none where
/// the text is not JSON, and none in it where there is no such member.
pub uninterp spec fn json_member(text: Seq<char>, name: Seq<char>) -> Option<Option<Seq<char>>>;

/// The unsigned number that a JSON text stands for, where it is one.
pub uninterp spec fn json_unsigned(text: Seq<char>) -> Option<u64>;

/// The contents of a text that may be absent twice over.
pub open spec fn member_view(member: Option<Option<String>>) -> Option<Option<Seq<char>>> {
    match member {
        Some(text) => Some(text_or_none(text)),
        None => None,
    }
}

/// `serde_json::Value::to_string` on a string: the text in quotes, with a backslash
/// before quotes and backslashes, the short escapes for backspace, tab, line feed, form
/// feed and carriage return, and the code for other characters below the space.
#[verifier::external_body]
pub(crate) fn quote_json(text: &str) -> (json: String)
    ensures
        json@ == json_quoted(text@),
{
    serde_json::Value::from(text).to_string()
}

/// `serde_json::Value::get` on the value that `serde_json::from_str` reads from a
/// text: the JSON text of the member. What that is depends on the two texts alone;
/// nothing more is claimed of it.
#[verifier::external_body]
pub(crate) fn find_member(text: &str, name: &str) -> (member: Option<Option<String>>)
    ensures
        member_view(member) == json_member(text@, name@),
{
    match serde_json::from_str::<serde_json::Value>(text) {
        Ok(value) => Some(value.get(name).map(|member| member.to_string())),
        Err(_) => None,
    }
}

/// `serde_json::Value::as_u64` on the value that `serde_json::from_str` reads from a
/// text: the number, where it is an unsigned one. What that is depends on the text
/// alone; nothing more is claimed of it.
#[verifier::external_body]
pub(crate) fn read_unsigned(text: &str) -> (number: Option<u64>)
    ensures
        number == json_unsigned(text@),
{
    match serde_json::from_str::<serde_json::Value>(text) {
        Ok(value) => value.as_u64(),
        Err(_) => None,
    }
}

} // verus!
