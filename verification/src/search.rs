//! What is shown of functions, types and tables.

use vstd::prelude::*;
use vstd::string::*;

use crate::style::{
    bold, bright_black, cyan, green, in_bold, in_bright_black, in_cyan, in_green, in_magenta,
    in_red, in_yellow, magenta, red, yellow,
};
use crate::text::{
    contains_char, decimal, ends_with, has_suffix, join, joined, lines, lines_of, number,
    put_together, texts, to_chars, together, trim, trimmed,
};
use crate::types::{
    FunctionInfo, FunctionInfoView, TypeInfo, TypeInfoView, TypedefInfo, TypedefInfoView,
};

verus! {

/// Options for showing call relationships.
#[derive(Debug, Clone, Copy, PartialEq, Eq, Structural)]
pub struct DisplayCallOptions {
    pub truncate: bool,
    pub verbose: bool,
    pub show_calls: bool,
    pub show_callers: bool,
}

/// How many calls or callers are shown where a list is cut short.
pub const TRUNCATE_LIMIT: usize = 25;

/// Whether a text ends with a semicolon.
pub open spec fn ends_statement(text: Seq<char>) -> bool {
    text.len() > 0 && text.last() == ';'
}

/// Whether a text has both braces.
pub open spec fn has_braces(text: Seq<char>) -> bool {
    text.contains('{') && text.contains('}')
}

/// Whether a file is a header.
pub open spec fn is_header(path: Seq<char>) -> bool {
    has_suffix(path, ".h"@) || has_suffix(path, ".hpp"@)
}

/// Whether a function is defined, not only declared. A macro is always defined. A
/// body with braces defines. Without them a header declares, and elsewhere what ends
/// with a semicolon does.
pub open spec fn is_definition(function: FunctionInfoView) -> bool {
    let body = trimmed(function.body);
    if function.body.len() == 0 {
        false
    } else if function.return_type.len() == 0 {
        true
    } else if has_braces(body) {
        true
    } else if is_header(function.file_path) {
        false
    } else {
        !ends_statement(body)
    }
}

/// Whether a text is empty.
fn is_empty(text: &str) -> (yes: bool)
    ensures
        yes == (text@.len() == 0),
{
    let chars = to_chars(text);
    chars.len() == 0
}

/// Checks whether a function is a definition and not just a declaration.
pub fn is_function_definition(func: &FunctionInfo) -> (yes: bool)
    ensures
        yes == is_definition(func@),
{
    if is_empty(func.body.as_str()) {
        return false;
    }
    if is_empty(func.return_type.as_str()) {
        return true;
    }
    let body = trim(func.body.as_str());
    let opens = contains_char(body.as_str(), '{');
    let closes = contains_char(body.as_str(), '}');
    if opens && closes {
        return true;
    }
    if ends_with(func.file_path.as_str(), ".h") || ends_with(func.file_path.as_str(), ".hpp") {
        return false;
    }
    let chars = to_chars(body.as_str());
    chars.len() == 0 || chars[chars.len() - 1] != ';'
}

/// The functions of a list that are definitions.
pub open spec fn definitions_of(functions: Seq<FunctionInfoView>) -> Seq<FunctionInfoView>
    decreases functions.len(),
{
    if functions.len() == 0 {
        seq![]
    } else {
        let before = definitions_of(functions.drop_last());
        if is_definition(functions.last()) {
            before.push(functions.last())
        } else {
            before
        }
    }
}

/// Whether a list of calls or callers is cut short.
pub open spec fn is_cut(options: DisplayCallOptions, count: nat) -> bool {
    options.truncate && !options.verbose && count > TRUNCATE_LIMIT
}

/// Calls or callers with a heading, cut short where that is asked for.
pub open spec fn relation_section(
    heading: Seq<char>,
    arrow: Seq<char>,
    noun: Seq<char>,
    names: Seq<Seq<char>>,
    options: DisplayCallOptions,
) -> Seq<char> {
    let cut = is_cut(options, names.len());
    let shown = if cut {
        names.take(TRUNCATE_LIMIT as int)
    } else {
        names
    };
    "\n"@ + heading + ": "@ + decimal(names.len()) + "\n"@ + together(
        shown.map_values(|name: Seq<char>| "  "@ + arrow + " "@ + in_cyan(name) + "\n"@),
    ) + (if cut {
        "  "@ + in_bright_black("..."@) + " ... ("@ + decimal(
            (names.len() - TRUNCATE_LIMIT) as nat,
        ) + " more "@ + noun + ", use -v to show all)\n"@
    } else {
        ""@
    })
}

/// What is shown of the call relationships of a function.
pub open spec fn relations_text(
    calls: Seq<Seq<char>>,
    called_by: Seq<Seq<char>>,
    options: DisplayCallOptions,
) -> Seq<char> {
    (if options.show_calls && calls.len() > 0 {
        relation_section("Calls"@, "→"@, "calls"@, calls, options)
    } else {
        ""@
    }) + (if options.show_callers && called_by.len() > 0 {
        relation_section("Called By"@, "←"@, "callers"@, called_by, options)
    } else {
        ""@
    })
}

fn write_relation_section(
    heading: &str,
    arrow: &str,
    noun: &str,
    names: &[String],
    options: &DisplayCallOptions,
) -> (text: String)
    ensures
        text@ == relation_section(heading@, arrow@, noun@, texts(names@), *options),
{
    let ghost all = texts(names@);
    let cut = options.truncate && !options.verbose && names.len() > TRUNCATE_LIMIT;
    let count: usize = if cut {
        TRUNCATE_LIMIT
    } else {
        names.len()
    };
    let ghost shown = all.take(count as int);
    let ghost expected = shown.map_values(
        |name: Seq<char>| "  "@ + arrow@ + " "@ + in_cyan(name) + "\n"@,
    );
    let mut rows: Vec<String> = Vec::new();
    let mut i: usize = 0;
    while i < count
        invariant
            i <= count <= names@.len(),
            all == texts(names@),
            shown == all.take(count as int),
            expected == shown.map_values(
                |name: Seq<char>| "  "@ + arrow@ + " "@ + in_cyan(name) + "\n"@,
            ),
            texts(rows@) == expected.take(i as int),
        decreases count - i,
    {
        let ghost before = texts(rows@);
        let row = String::from_str("  ").concat(arrow).concat(" ").concat(
            cyan(names[i].as_str()).as_str(),
        ).concat("\n");
        assert(row@ == expected[i as int]);
        rows.push(row);
        assert(texts(rows@) =~= before.push(expected[i as int]));
        assert(expected.take(i + 1) =~= before.push(expected[i as int]));
        i = i + 1;
    }
    assert(expected.take(i as int) =~= expected);
    assert(!cut ==> shown =~= all);
    let start = String::from_str("\n").concat(heading).concat(": ").concat(
        number(names.len()).as_str(),
    ).concat("\n").concat(put_together(&rows).as_str());
    let end = if cut {
        String::from_str("  ").concat(bright_black("...").as_str()).concat(" ... (").concat(
            number(names.len() - TRUNCATE_LIMIT).as_str(),
        ).concat(" more ").concat(noun).concat(", use -v to show all)\n")
    } else {
        String::from_str("")
    };
    start.concat(end.as_str())
}

/// What is shown of the call relationships of a function.
pub fn display_call_relationships_with_options(
    _function_name: &str,
    calls: &[String],
    called_by: &[String],
    options: &DisplayCallOptions,
) -> (text: String)
    ensures
        text@ == relations_text(texts(calls@), texts(called_by@), *options),
{
    assert(texts(calls@).len() == calls@.len());
    assert(texts(called_by@).len() == called_by@.len());
    let first = if options.show_calls && calls.len() > 0 {
        write_relation_section("Calls", "→", "calls", calls, options)
    } else {
        String::from_str("")
    };
    let second = if options.show_callers && called_by.len() > 0 {
        write_relation_section("Called By", "←", "callers", called_by, options)
    } else {
        String::from_str("")
    };
    first.concat(second.as_str())
}

/// The contents of a list of functions.
pub open spec fn functions_view(functions: Seq<FunctionInfo>) -> Seq<FunctionInfoView> {
    functions.map_values(|function: FunctionInfo| function@)
}

/// The contents of a list of types.
pub open spec fn types_view(types: Seq<TypeInfo>) -> Seq<TypeInfoView> {
    types.map_values(|type_info: TypeInfo| type_info@)
}

/// The contents of a list of type definitions.
pub open spec fn typedefs_view(typedefs: Seq<TypedefInfo>) -> Seq<TypedefInfoView> {
    typedefs.map_values(|typedef: TypedefInfo| typedef@)
}

/// A heading in bold green on a line of its own.
pub open spec fn heading_line(heading: Seq<char>) -> Seq<char> {
    "\n"@ + in_green(in_bold(heading)) + "\n"@
}

pub(crate) fn write_heading(heading: &str) -> (text: String)
    ensures
        text@ == heading_line(heading@),
{
    String::from_str("\n").concat(green(bold(heading).as_str()).as_str()).concat("\n")
}

/// The line that tells that nothing was found.
pub open spec fn no_matches(pattern: Seq<char>, git_sha: Seq<char>) -> Seq<char> {
    in_yellow("Info:"@) + " No matches found for pattern '"@ + pattern + "' at git SHA "@
        + in_yellow(git_sha) + "\n"@
}

fn write_no_matches(pattern: &str, git_sha: &str) -> (text: String)
    ensures
        text@ == no_matches(pattern@, git_sha@),
{
    yellow("Info:").concat(" No matches found for pattern '").concat(pattern).concat(
        "' at git SHA ",
    ).concat(yellow(git_sha).as_str()).concat("\n")
}

/// What is shown when functions are about to be listed.
pub open spec fn listing_functions(pattern: Seq<char>, git_sha: Seq<char>) -> Seq<char> {
    "Searching for functions and macros matching: "@ + in_cyan(pattern) + " (git SHA: "@
        + in_yellow(git_sha) + ")\n"@
}

/// The line of a function in a list.
pub open spec fn function_row(i: int, function: FunctionInfoView) -> Seq<char> {
    "  "@ + in_yellow(decimal((i + 1) as nat)) + ". "@ + in_cyan(function.name) + " ("@
        + in_bright_black(function.file_path) + ":"@ + decimal(function.line_start as nat)
        + ")\n"@
}

/// What is shown of functions that match a pattern.
pub open spec fn functions_listing(
    pattern: Seq<char>,
    git_sha: Seq<char>,
    functions: Seq<FunctionInfoView>,
) -> Seq<char> {
    if functions.len() == 0 {
        no_matches(pattern, git_sha)
    } else {
        heading_line("=== Functions ==="@) + together(
            Seq::new(functions.len(), |i: int| function_row(i, functions[i])),
        ) + "\n"@ + in_cyan(in_bold("Summary:"@)) + " Found "@ + decimal(functions.len())
            + " functions (including macros) at git SHA "@ + in_yellow(git_sha) + "\n"@
    }
}

/// What is shown when functions are about to be listed.
pub fn list_functions_and_macros(pattern: &str, git_sha: &str) -> (text: String)
    ensures
        text@ == listing_functions(pattern@, git_sha@),
{
    String::from_str("Searching for functions and macros matching: ").concat(
        cyan(pattern).as_str(),
    ).concat(" (git SHA: ").concat(yellow(git_sha).as_str()).concat(")\n")
}

/// What is shown of functions that match a pattern.
pub fn list_functions_and_macros_to_writer(
    pattern: &str,
    git_sha: &str,
    functions: &Vec<FunctionInfo>,
) -> (text: String)
    ensures
        text@ == functions_listing(pattern@, git_sha@, functions_view(functions@)),
{
    let ghost all = functions_view(functions@);
    if functions.len() == 0 {
        return write_no_matches(pattern, git_sha);
    }
    let ghost expected = Seq::new(all.len(), |i: int| function_row(i, all[i]));
    let mut rows: Vec<String> = Vec::new();
    let mut i: usize = 0;
    while i < functions.len()
        invariant
            i <= functions@.len(),
            all == functions_view(functions@),
            expected == Seq::new(all.len(), |i: int| function_row(i, all[i])),
            texts(rows@) == expected.take(i as int),
        decreases functions@.len() - i,
    {
        let ghost before = texts(rows@);
        let function = &functions[i];
        let row = String::from_str("  ").concat(yellow(number(i + 1).as_str()).as_str()).concat(
            ". ",
        ).concat(cyan(function.name.as_str()).as_str()).concat(" (").concat(
            bright_black(function.file_path.as_str()).as_str(),
        ).concat(":").concat(number(function.line_start as usize).as_str()).concat(")\n");
        assert(row@ == expected[i as int]);
        rows.push(row);
        assert(texts(rows@) =~= before.push(expected[i as int]));
        assert(expected.take(i + 1) =~= before.push(expected[i as int]));
        i = i + 1;
    }
    assert(expected.take(i as int) =~= expected);
    write_heading("=== Functions ===").concat(put_together(&rows).as_str()).concat("\n").concat(
        cyan(bold("Summary:").as_str()).as_str(),
    ).concat(" Found ").concat(number(functions.len()).as_str()).concat(
        " functions (including macros) at git SHA ",
    ).concat(yellow(git_sha).as_str()).concat("\n")
}

/// What is shown when types are about to be listed.
pub open spec fn listing_types(pattern: Seq<char>, git_sha: Seq<char>) -> Seq<char> {
    "Searching for types and typedefs matching: "@ + in_cyan(pattern) + " (git SHA: "@
        + in_yellow(git_sha) + ")\n"@
}

/// The line of a type in a list.
pub open spec fn type_row(i: int, type_info: TypeInfoView) -> Seq<char> {
    "  "@ + in_yellow(decimal((i + 1) as nat)) + ". "@ + in_magenta(type_info.kind) + " "@
        + in_cyan(type_info.name) + " ("@ + in_bright_black(type_info.file_path) + ":"@ + decimal(
        type_info.line_start as nat,
    ) + ")\n"@
}

/// The line of a type definition in a list.
pub open spec fn typedef_row(i: int, typedef: TypedefInfoView) -> Seq<char> {
    "  "@ + in_yellow(decimal((i + 1) as nat)) + ". "@ + in_cyan(typedef.name) + " -> "@
        + in_magenta(typedef.underlying_type) + " ("@ + in_bright_black(typedef.file_path)
        + ":"@ + decimal(typedef.line_start as nat) + ")\n"@
}

/// The types of a list under a heading; nothing where there are none.
pub open spec fn types_section(types: Seq<TypeInfoView>) -> Seq<char> {
    if types.len() == 0 {
        ""@
    } else {
        heading_line("=== Types ==="@) + together(
            Seq::new(types.len(), |i: int| type_row(i, types[i])),
        )
    }
}

/// The type definitions of a list under a heading; nothing where there are none.
pub open spec fn typedefs_section(typedefs: Seq<TypedefInfoView>) -> Seq<char> {
    if typedefs.len() == 0 {
        ""@
    } else {
        heading_line("=== Typedefs ==="@) + together(
            Seq::new(typedefs.len(), |i: int| typedef_row(i, typedefs[i])),
        )
    }
}

/// What is shown of types and type definitions that match a pattern.
pub open spec fn types_listing(
    pattern: Seq<char>,
    git_sha: Seq<char>,
    types: Seq<TypeInfoView>,
    typedefs: Seq<TypedefInfoView>,
) -> Seq<char> {
    types_section(types) + typedefs_section(typedefs) + (if types.len() == 0 && typedefs.len()
        == 0 {
        no_matches(pattern, git_sha)
    } else {
        "\n"@ + in_cyan(in_bold("Summary:"@)) + " Found "@ + decimal(types.len()) + " types, "@
            + decimal(typedefs.len()) + " typedefs at git SHA "@ + in_yellow(git_sha) + "\n"@
    })
}

/// What is shown when types are about to be listed.
pub fn list_types_and_typedefs(pattern: &str, git_sha: &str) -> (text: String)
    ensures
        text@ == listing_types(pattern@, git_sha@),
{
    String::from_str("Searching for types and typedefs matching: ").concat(
        cyan(pattern).as_str(),
    ).concat(" (git SHA: ").concat(yellow(git_sha).as_str()).concat(")\n")
}

fn write_types_section(types: &Vec<TypeInfo>) -> (text: String)
    ensures
        text@ == types_section(types_view(types@)),
{
    let ghost all = types_view(types@);
    if types.len() == 0 {
        return String::from_str("");
    }
    let ghost expected = Seq::new(all.len(), |i: int| type_row(i, all[i]));
    let mut rows: Vec<String> = Vec::new();
    let mut i: usize = 0;
    while i < types.len()
        invariant
            i <= types@.len(),
            all == types_view(types@),
            expected == Seq::new(all.len(), |i: int| type_row(i, all[i])),
            texts(rows@) == expected.take(i as int),
        decreases types@.len() - i,
    {
        let ghost before = texts(rows@);
        let type_info = &types[i];
        let row = String::from_str("  ").concat(yellow(number(i + 1).as_str()).as_str()).concat(
            ". ",
        ).concat(magenta(type_info.kind.as_str()).as_str()).concat(" ").concat(
            cyan(type_info.name.as_str()).as_str(),
        ).concat(" (").concat(bright_black(type_info.file_path.as_str()).as_str()).concat(
            ":",
        ).concat(number(type_info.line_start as usize).as_str()).concat(")\n");
        assert(row@ == expected[i as int]);
        rows.push(row);
        assert(texts(rows@) =~= before.push(expected[i as int]));
        assert(expected.take(i + 1) =~= before.push(expected[i as int]));
        i = i + 1;
    }
    assert(expected.take(i as int) =~= expected);
    write_heading("=== Types ===").concat(put_together(&rows).as_str())
}

fn write_typedefs_section(typedefs: &Vec<TypedefInfo>) -> (text: String)
    ensures
        text@ == typedefs_section(typedefs_view(typedefs@)),
{
    let ghost all = typedefs_view(typedefs@);
    if typedefs.len() == 0 {
        return String::from_str("");
    }
    let ghost expected = Seq::new(all.len(), |i: int| typedef_row(i, all[i]));
    let mut rows: Vec<String> = Vec::new();
    let mut i: usize = 0;
    while i < typedefs.len()
        invariant
            i <= typedefs@.len(),
            all == typedefs_view(typedefs@),
            expected == Seq::new(all.len(), |i: int| typedef_row(i, all[i])),
            texts(rows@) == expected.take(i as int),
        decreases typedefs@.len() - i,
    {
        let ghost before = texts(rows@);
        let typedef = &typedefs[i];
        let row = String::from_str("  ").concat(yellow(number(i + 1).as_str()).as_str()).concat(
            ". ",
        ).concat(cyan(typedef.name.as_str()).as_str()).concat(" -> ").concat(
            magenta(typedef.underlying_type.as_str()).as_str(),
        ).concat(" (").concat(bright_black(typedef.file_path.as_str()).as_str()).concat(
            ":",
        ).concat(number(typedef.line_start as usize).as_str()).concat(")\n");
        assert(row@ == expected[i as int]);
        rows.push(row);
        assert(texts(rows@) =~= before.push(expected[i as int]));
        assert(expected.take(i + 1) =~= before.push(expected[i as int]));
        i = i + 1;
    }
    assert(expected.take(i as int) =~= expected);
    write_heading("=== Typedefs ===").concat(put_together(&rows).as_str())
}

/// What is shown of types and type definitions that match a pattern.
pub fn list_types_and_typedefs_to_writer(
    pattern: &str,
    git_sha: &str,
    types: &Vec<TypeInfo>,
    typedefs: &Vec<TypedefInfo>,
) -> (text: String)
    ensures
        text@ == types_listing(
            pattern@,
            git_sha@,
            types_view(types@),
            typedefs_view(typedefs@),
        ),
{
    let end = if types.len() == 0 && typedefs.len() == 0 {
        write_no_matches(pattern, git_sha)
    } else {
        String::from_str("\n").concat(cyan(bold("Summary:").as_str()).as_str()).concat(
            " Found ",
        ).concat(number(types.len()).as_str()).concat(" types, ").concat(
            number(typedefs.len()).as_str(),
        ).concat(" typedefs at git SHA ").concat(yellow(git_sha).as_str()).concat("\n")
    };
    write_types_section(types).concat(write_typedefs_section(typedefs).as_str()).concat(
        end.as_str(),
    )
}

/// The line of a table with its number of rows.
pub open spec fn table_row(name: Seq<char>, count: nat) -> Seq<char> {
    in_bold(name) + ": "@ + in_cyan(decimal(count)) + "\n"@
}

/// What is shown of the tables.
pub open spec fn tables_text(functions: nat, types: nat, typedefs: nat) -> Seq<char> {
    in_green(in_bold("=== Database Tables ==="@)) + "\n"@ + table_row("Functions"@, functions)
        + table_row("Types"@, types) + table_row("Typedefs"@, typedefs) + table_row(
        "Total"@,
        functions + types + typedefs,
    ) + "\nNote: Macros are stored in the functions table\n"@
}

fn write_table_row(name: &str, count: usize) -> (text: String)
    ensures
        text@ == table_row(name@, count as nat),
{
    bold(name).concat(": ").concat(cyan(number(count).as_str()).as_str()).concat("\n")
}

/// What is shown of the tables.
pub fn show_tables_to_writer(function_count: usize, type_count: usize, typedef_count: usize) -> (
text: String)
    requires
        function_count + type_count + typedef_count <= usize::MAX,
    ensures
        text@ == tables_text(function_count as nat, type_count as nat, typedef_count as nat),
{
    green(bold("=== Database Tables ===").as_str()).concat("\n").concat(
        write_table_row("Functions", function_count).as_str(),
    ).concat(write_table_row("Types", type_count).as_str()).concat(
        write_table_row("Typedefs", typedef_count).as_str(),
    ).concat(
        write_table_row("Total", function_count + type_count + typedef_count).as_str(),
    ).concat("\nNote: Macros are stored in the functions table\n")
}

/// What is shown of the tables on the terminal.
pub fn show_tables(function_count: usize, type_count: usize, typedef_count: usize) -> (text: String)
    requires
        function_count + type_count + typedef_count <= usize::MAX,
    ensures
        text@ == tables_text(function_count as nat, type_count as nat, typedef_count as nat),
{
    show_tables_to_writer(function_count, type_count, typedef_count)
}

/// How many similar functions are shown.
pub const SIMILAR_LIMIT: usize = 10;

/// The number, name and lines of a function that is similar.
pub open spec fn similar_head(i: int, function: FunctionInfoView) -> Seq<char> {
    "\n"@ + in_yellow(decimal((i + 1) as nat)) + ". "@ + in_bold(function.name) + " in "@ + in_cyan(
        function.file_path,
    ) + "\n   Lines: "@ + decimal(function.line_start as nat) + "-"@ + decimal(
        function.line_end as nat,
    ) + "\n"@
}

/// The first lines of a body.
pub open spec fn preview_of(body: Seq<char>) -> Seq<char> {
    let all = lines_of(body);
    joined(
        if all.len() > 3 {
            all.take(3)
        } else {
            all
        },
        "\n   "@,
    )
}

/// The preview of a function that is similar.
pub open spec fn similar_preview(function: FunctionInfoView) -> Seq<char> {
    let preview = preview_of(function.body);
    if preview.len() == 0 {
        ""@
    } else {
        "   "@ + in_bright_black(preview) + "\n"@ + (if lines_of(function.body).len() > 3 {
            "   ...\n"@
        } else {
            ""@
        })
    }
}

/// What is shown of functions that are similar, with a preview or with the type that
/// they return.
pub open spec fn similar_text(functions: Seq<FunctionInfoView>, previews: bool) -> Seq<char> {
    if functions.len() == 0 {
        in_red("Error:"@) + " No similar functions found\n"@
    } else {
        heading_line("=== Similar Functions ==="@) + together(
            Seq::new(functions.len(), |i: int| similar_entry(i, functions[i], previews)),
        )
    }
}

/// What is shown of one function that is similar.
pub open spec fn similar_entry(i: int, function: FunctionInfoView, previews: bool) -> Seq<char> {
    similar_head(i, function) + (if previews {
        similar_preview(function)
    } else {
        "   Return: "@ + in_magenta(function.return_type) + "\n"@
    })
}

fn write_preview(function: &FunctionInfo) -> (text: String)
    ensures
        text@ == similar_preview(function@),
{
    let mut first = lines(function.body.as_str());
    let ghost all = lines_of(function.body@);
    assert(texts(first@).len() == first@.len());
    let more = first.len() > 3;
    first.truncate(3);
    proof {
        if all.len() > 3 {
            assert(texts(first@) =~= all.take(3));
        } else {
            assert(texts(first@) =~= all);
        }
    }
    let preview = join(&first, "\n   ");
    if is_empty(preview.as_str()) {
        return String::from_str("");
    }
    let end = if more {
        "   ...\n"
    } else {
        ""
    };
    String::from_str("   ").concat(bright_black(preview.as_str()).as_str()).concat("\n").concat(
        end,
    )
}

/// What is shown of functions that are similar, with a preview or with the type that
/// they return.
fn write_similar(functions: &Vec<FunctionInfo>, previews: bool) -> (text: String)
    ensures
        text@ == similar_text(functions_view(functions@), previews),
{
    let ghost all = functions_view(functions@);
    if functions.len() == 0 {
        return red("Error:").concat(" No similar functions found\n");
    }
    let ghost expected = Seq::new(all.len(), |i: int| similar_entry(i, all[i], previews));
    let mut rows: Vec<String> = Vec::new();
    let mut i: usize = 0;
    while i < functions.len()
        invariant
            i <= functions@.len(),
            all == functions_view(functions@),
            expected == Seq::new(all.len(), |i: int| similar_entry(i, all[i], previews)),
            texts(rows@) == expected.take(i as int),
        decreases functions@.len() - i,
    {
        let ghost before = texts(rows@);
        let function = &functions[i];
        let head = String::from_str("\n").concat(yellow(number(i + 1).as_str()).as_str()).concat(
            ". ",
        ).concat(bold(function.name.as_str()).as_str()).concat(" in ").concat(
            cyan(function.file_path.as_str()).as_str(),
        ).concat("\n   Lines: ").concat(number(function.line_start as usize).as_str()).concat(
            "-",
        ).concat(number(function.line_end as usize).as_str()).concat("\n");
        let rest = if previews {
            write_preview(function)
        } else {
            String::from_str("   Return: ").concat(
                magenta(function.return_type.as_str()).as_str(),
            ).concat("\n")
        };
        let row = head.concat(rest.as_str());
        assert(row@ == expected[i as int]);
        rows.push(row);
        assert(texts(rows@) =~= before.push(expected[i as int]));
        assert(expected.take(i + 1) =~= before.push(expected[i as int]));
        i = i + 1;
    }
    assert(expected.take(i as int) =~= expected);
    write_heading("=== Similar Functions ===").concat(put_together(&rows).as_str())
}

/// What is shown when functions similar to some code are about to be searched.
pub fn query_similar_start(code: &str) -> (text: String)
    ensures
        text@ == "Searching for functions similar to: "@ + in_cyan(code@)
            + "\nGenerating vector...\n"@,
{
    String::from_str("Searching for functions similar to: ").concat(cyan(code).as_str()).concat(
        "\nGenerating vector...\n",
    )
}

/// What is shown where there is no vector for some code.
pub fn query_similar_failed(error: &str) -> (text: String)
    ensures
        text@ == in_red("Error:"@) + " Failed to generate vector: "@ + error@ + "\n"@,
{
    red("Error:").concat(" Failed to generate vector: ").concat(error).concat("\n")
}

/// What is shown of functions that are similar to some code.
pub fn query_similar(functions: &Vec<FunctionInfo>) -> (text: String)
    ensures
        text@ == similar_text(functions_view(functions@), true),
{
    write_similar(functions, true)
}

/// What is shown when functions similar to a name are about to be searched.
pub fn query_similar_by_name_start(name: &str) -> (text: String)
    ensures
        text@ == "Searching for functions similar to name: "@ + in_cyan(name@)
            + "\nGenerating vector...\n"@,
{
    String::from_str("Searching for functions similar to name: ").concat(
        cyan(name).as_str(),
    ).concat("\nGenerating vector...\n")
}

/// What is shown of functions that are similar to a name.
pub fn query_similar_by_name(functions: &Vec<FunctionInfo>) -> (text: String)
    ensures
        text@ == similar_text(functions_view(functions@), false),
{
    write_similar(functions, false)
}

} // verus!
