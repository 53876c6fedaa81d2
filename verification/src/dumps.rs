//! Dumps of tables: what is shown before and after, and the rows of calls.

use vstd::prelude::*;
use vstd::string::*;

use crate::style::{cyan, green, in_cyan, in_green, in_yellow, yellow};
use crate::text::{decimal, number};
use crate::types::text_or_none;

verus! {

/// A dump of a table to a file.
#[derive(Debug)]
pub struct Dump {
    noun: String,
    entries: String,
    file: String,
}

#[verifier::ext_equal]
pub struct DumpView {
    /// What is dumped.
    pub noun: Seq<char>,
    /// What is counted.
    pub entries: Seq<char>,
    pub file: Seq<char>,
}

impl View for Dump {
    type V = DumpView;

    closed spec fn view(&self) -> DumpView {
        DumpView { noun: self.noun@, entries: self.entries@, file: self.file@ }
    }
}

impl Dump {
    fn of(noun: &str, entries: &str, file: &str) -> (dump: Dump)
        ensures
            dump@ == (DumpView { noun: noun@, entries: entries@, file: file@ }),
    {
        Dump { noun: noun.to_string(), entries: entries.to_string(), file: file.to_string() }
    }

    /// What is shown before the dump.
    pub fn start(&self) -> (text: String)
        ensures
            text@ == "Dumping all "@ + self@.noun + " to "@ + in_cyan(self@.file) + "...\n"@,
    {
        String::from_str("Dumping all ").concat(self.noun.as_str()).concat(" to ").concat(
            cyan(self.file.as_str()).as_str(),
        ).concat("...\n")
    }

    /// What is shown after the dump of `count` entries.
    pub fn done(&self, count: usize) -> (text: String)
        ensures
            text@ == in_green("Success:"@) + " Dumped "@ + decimal(count as nat) + " "@
                + self@.entries + " to "@ + in_cyan(self@.file) + "\n"@,
    {
        green("Success:").concat(" Dumped ").concat(number(count).as_str()).concat(" ").concat(
            self.entries.as_str(),
        ).concat(" to ").concat(cyan(self.file.as_str()).as_str()).concat("\n")
    }
}

/// A dump of functions.
pub fn dump_functions(output_file: &str) -> (dump: Dump)
    ensures
        dump@ == (DumpView {
            noun: "functions"@,
            entries: "functions"@,
            file: output_file@,
        }),
{
    Dump::of("functions", "functions", output_file)
}

/// A dump of types.
pub fn dump_types(output_file: &str) -> (dump: Dump)
    ensures
        dump@ == (DumpView {
            noun: "types"@,
            entries: "types"@,
            file: output_file@,
        }),
{
    Dump::of("types", "types", output_file)
}

/// A dump of type definitions.
pub fn dump_typedefs(output_file: &str) -> (dump: Dump)
    ensures
        dump@ == (DumpView {
            noun: "typedefs"@,
            entries: "typedefs"@,
            file: output_file@,
        }),
{
    Dump::of("typedefs", "typedefs", output_file)
}

/// A dump of call relationships.
pub fn dump_calls(output_file: &str) -> (dump: Dump)
    ensures
        dump@ == (DumpView {
            noun: "call relationships"@,
            entries: "call relationships"@,
            file: output_file@,
        }),
{
    Dump::of("call relationships", "call relationships", output_file)
}

/// A dump of processed files.
pub fn dump_processed_files(output_file: &str) -> (dump: Dump)
    ensures
        dump@ == (DumpView {
            noun: "processed files"@,
            entries: "processed files"@,
            file: output_file@,
        }),
{
    Dump::of("processed files", "processed files", output_file)
}

/// A dump of contents.
pub fn dump_content(output_file: &str) -> (dump: Dump)
    ensures
        dump@ == (DumpView {
            noun: "content"@,
            entries: "content entries"@,
            file: output_file@,
        }),
{
    Dump::of("content", "content entries", output_file)
}

/// A dump of symbols with their files.
pub fn dump_symbol_filename(output_file: &str) -> (dump: Dump)
    ensures
        dump@ == (DumpView {
            noun: "symbol-filename pairs"@,
            entries: "symbol-filename pairs"@,
            file: output_file@,
        }),
{
    Dump::of("symbol-filename pairs", "symbol-filename pairs", output_file)
}

/// A dump of commits.
pub fn dump_git_commits(output_file: &str) -> (dump: Dump)
    ensures
        dump@ == (DumpView {
            noun: "git commits"@,
            entries: "git commits"@,
            file: output_file@,
        }),
{
    Dump::of("git commits", "git commits", output_file)
}

/// A dump of emails.
pub fn dump_lore(output_file: &str) -> (dump: Dump)
    ensures
        dump@ == (DumpView {
            noun: "lore emails"@,
            entries: "lore emails"@,
            file: output_file@,
        }),
{
    Dump::of("lore emails", "lore emails", output_file)
}

/// What is shown in place of a dump of macros, which are functions now.
pub fn dump_macros() -> (text: String)
    ensures
        text@ == in_yellow("Note:"@) + " dump-macros command is deprecated\n"@
            + "Macros are now stored as functions in the functions table.\n"@
            + "Use dump-functions instead to export all functions.\n"@,
{
    yellow("Note:").concat(" dump-macros command is deprecated\n").concat(
        "Macros are now stored as functions in the functions table.\n",
    ).concat("Use dump-functions instead to export all functions.\n")
}

/// A hexadecimal digit below sixteen, in lower case.
pub open spec fn hex_digit(n: int) -> char {
    if n < 10 {
        ('0' as u32 + n) as char
    } else {
        ('a' as u32 + n - 10) as char
    }
}

/// Bytes in hexadecimal: for each byte its high and its low digit.
pub open spec fn hex_text(bytes: Seq<u8>) -> Seq<char>
    decreases bytes.len(),
{
    if bytes.len() == 0 {
        seq![]
    } else {
        hex_text(bytes.drop_last()).push(hex_digit(bytes.last() as int / 16)).push(
            hex_digit(bytes.last() as int % 16),
        )
    }
}

/// `hex::encode`: writes two hexadecimal digits in lower case for each byte, the high
/// one first.
#[verifier::external_body]
fn encode_hex(bytes: &Vec<u8>) -> (text: String)
    ensures
        text@ == hex_text(bytes@),
{
    hex::encode(bytes)
}

/// A call, with the versions of the files of both ends.
#[derive(Debug)]
pub struct CallRelationship {
    pub caller: String,
    pub callee: String,
    pub caller_git_file_hash: Vec<u8>,
    pub callee_git_file_hash: Option<Vec<u8>>,
}

/// A call as it is dumped, with the versions in hexadecimal.
#[derive(Debug)]
pub struct CallRelationshipJson {
    pub caller: String,
    pub callee: String,
    pub caller_git_file_hash: String,
    pub callee_git_file_hash: Option<String>,
}

#[verifier::ext_equal]
pub struct CallRelationshipJsonView {
    pub caller: Seq<char>,
    pub callee: Seq<char>,
    pub caller_git_file_hash: Seq<char>,
    pub callee_git_file_hash: Option<Seq<char>>,
}

impl View for CallRelationshipJson {
    type V = CallRelationshipJsonView;

    open spec fn view(&self) -> CallRelationshipJsonView {
        CallRelationshipJsonView {
            caller: self.caller@,
            callee: self.callee@,
            caller_git_file_hash: self.caller_git_file_hash@,
            callee_git_file_hash: text_or_none(self.callee_git_file_hash),
        }
    }
}

/// A call as it is dumped.
pub open spec fn dumped_call(call: CallRelationship) -> CallRelationshipJsonView {
    CallRelationshipJsonView {
        caller: call.caller@,
        callee: call.callee@,
        caller_git_file_hash: hex_text(call.caller_git_file_hash@),
        callee_git_file_hash: match call.callee_git_file_hash {
            Some(hash) => Some(hex_text(hash@)),
            None => None,
        },
    }
}

/// Calls as they are dumped.
pub fn dump_call_rows(calls: &Vec<CallRelationship>) -> (rows: Vec<CallRelationshipJson>)
    ensures
        rows@.map_values(|row: CallRelationshipJson| row@) == calls@.map_values(
            |call: CallRelationship| dumped_call(call),
        ),
{
    let mut rows: Vec<CallRelationshipJson> = Vec::new();
    let mut i: usize = 0;
    while i < calls.len()
        invariant
            i <= calls@.len(),
            rows@.len() == i,
            forall|k: int| 0 <= k < i ==> (#[trigger] rows@[k])@ == dumped_call(calls@[k]),
        decreases calls@.len() - i,
    {
        let call = &calls[i];
        rows.push(
            CallRelationshipJson {
                caller: call.caller.clone(),
                callee: call.callee.clone(),
                caller_git_file_hash: encode_hex(&call.caller_git_file_hash),
                callee_git_file_hash: match &call.callee_git_file_hash {
                    Some(hash) => Some(encode_hex(hash)),
                    None => None,
                },
            },
        );
        i = i + 1;
    }
    assert(rows@.map_values(|row: CallRelationshipJson| row@) =~= calls@.map_values(
        |call: CallRelationship| dumped_call(call),
    ));
    rows
}

} // verus!
