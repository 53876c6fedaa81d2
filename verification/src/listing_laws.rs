//! What listings, tables and dumps show.

use vstd::prelude::*;

use crate::dumps::{dumped_call, hex_text, CallRelationship};
use crate::search::{
    functions_listing, listing_functions, listing_types, preview_of, relations_text, similar_text,
    tables_text, types_listing, DisplayCallOptions, SIMILAR_LIMIT,
};
use crate::style::{
    in_blue, in_bold, in_bright_black, in_cyan, in_green, in_magenta, in_red, in_yellow,
};
use crate::text::{decimal, joined, lines_of, together};
use crate::types::{FunctionInfoView, TypeInfoView, TypedefInfoView};

verus! {

/// What stands before and behind a coloured text: the code of the colour, and that of the
/// usual colour; before and behind a bold one: that of bold, and that which ends all.
pub proof fn law_styles(text: Seq<char>)
    ensures
        in_cyan(text) == "\u{1b}[36m"@ + text + "\u{1b}[39m"@,
        in_yellow(text) == "\u{1b}[33m"@ + text + "\u{1b}[39m"@,
        in_bright_black(text) == "\u{1b}[90m"@ + text + "\u{1b}[39m"@,
        in_red(text) == "\u{1b}[31m"@ + text + "\u{1b}[39m"@,
        in_green(text) == "\u{1b}[32m"@ + text + "\u{1b}[39m"@,
        in_magenta(text) == "\u{1b}[35m"@ + text + "\u{1b}[39m"@,
        in_blue(text) == "\u{1b}[34m"@ + text + "\u{1b}[39m"@,
        in_bold(text) == "\u{1b}[1m"@ + text + "\u{1b}[0m"@,
{
    reveal_strlit("\u{1b}[");
    reveal_strlit("m");
    reveal_strlit("36");
    reveal_strlit("33");
    reveal_strlit("90");
    reveal_strlit("31");
    reveal_strlit("32");
    reveal_strlit("35");
    reveal_strlit("34");
    reveal_strlit("\u{1b}[36m");
    reveal_strlit("\u{1b}[33m");
    reveal_strlit("\u{1b}[90m");
    reveal_strlit("\u{1b}[31m");
    reveal_strlit("\u{1b}[32m");
    reveal_strlit("\u{1b}[35m");
    reveal_strlit("\u{1b}[34m");
    assert("\u{1b}["@ + "36"@ + "m"@ =~= "\u{1b}[36m"@);
    assert("\u{1b}["@ + "33"@ + "m"@ =~= "\u{1b}[33m"@);
    assert("\u{1b}["@ + "90"@ + "m"@ =~= "\u{1b}[90m"@);
    assert("\u{1b}["@ + "31"@ + "m"@ =~= "\u{1b}[31m"@);
    assert("\u{1b}["@ + "32"@ + "m"@ =~= "\u{1b}[32m"@);
    assert("\u{1b}["@ + "35"@ + "m"@ =~= "\u{1b}[35m"@);
    assert("\u{1b}["@ + "34"@ + "m"@ =~= "\u{1b}[34m"@);
}

/// Where something stands: its file and its first line.
pub open spec fn place(file_path: Seq<char>, line: nat) -> Seq<char> {
    " ("@ + in_bright_black(file_path) + ":"@ + decimal(line) + ")\n"@
}

/// The number of an entry of a list, from one on.
pub open spec fn numbering(i: int) -> Seq<char> {
    "  "@ + in_yellow(decimal((i + 1) as nat)) + ". "@
}

/// Functions are listed each once and in their order, numbered, with where they stand, and
/// then counted; where there are none it is said.
pub proof fn law_functions_are_listed(
    pattern: Seq<char>,
    git_sha: Seq<char>,
    functions: Seq<FunctionInfoView>,
)
    ensures
        functions.len() == 0 ==> functions_listing(pattern, git_sha, functions) == in_yellow(
            "Info:"@,
        ) + " No matches found for pattern '"@ + pattern + "' at git SHA "@ + in_yellow(git_sha)
            + "\n"@,
        functions.len() > 0 ==> functions_listing(pattern, git_sha, functions) == "\n"@ + in_green(
            in_bold("=== Functions ==="@),
        ) + "\n"@ + together(
            Seq::new(
                functions.len(),
                |i: int|
                    numbering(i) + in_cyan(functions[i].name) + place(
                        functions[i].file_path,
                        functions[i].line_start as nat,
                    ),
            ),
        ) + "\n"@ + in_cyan(in_bold("Summary:"@)) + " Found "@ + decimal(functions.len())
            + " functions (including macros) at git SHA "@ + in_yellow(git_sha) + "\n"@,
{
    let rows = Seq::new(
        functions.len(),
        |i: int| crate::search::function_row(i, functions[i]),
    );
    let wanted = Seq::new(
        functions.len(),
        |i: int|
            numbering(i) + in_cyan(functions[i].name) + place(
                functions[i].file_path,
                functions[i].line_start as nat,
            ),
    );
    assert forall|i: int| 0 <= i < rows.len() implies #[trigger] rows[i] == wanted[i] by {
        assert(rows[i] =~= wanted[i]);
    }
    assert(rows =~= wanted);
}

/// A list under a heading; nothing where it is empty.
pub open spec fn under(heading: Seq<char>, rows: Seq<Seq<char>>) -> Seq<char> {
    if rows.len() == 0 {
        ""@
    } else {
        "\n"@ + in_green(in_bold(heading)) + "\n"@ + together(rows)
    }
}

/// Types and then typedefs are listed each once and in their order, numbered, under a heading,
/// with where they stand, and then counted; where there are none it is said.
pub proof fn law_types_are_listed(
    pattern: Seq<char>,
    git_sha: Seq<char>,
    types: Seq<TypeInfoView>,
    typedefs: Seq<TypedefInfoView>,
)
    ensures
        types_listing(pattern, git_sha, types, typedefs) == under(
            "=== Types ==="@,
            Seq::new(
                types.len(),
                |i: int|
                    numbering(i) + in_magenta(types[i].kind) + " "@ + in_cyan(types[i].name)
                        + place(types[i].file_path, types[i].line_start as nat),
            ),
        ) + under(
            "=== Typedefs ==="@,
            Seq::new(
                typedefs.len(),
                |i: int|
                    numbering(i) + in_cyan(typedefs[i].name) + " -> "@ + in_magenta(
                        typedefs[i].underlying_type,
                    ) + place(typedefs[i].file_path, typedefs[i].line_start as nat),
            ),
        ) + (if types.len() == 0 && typedefs.len() == 0 {
            in_yellow("Info:"@) + " No matches found for pattern '"@ + pattern + "' at git SHA "@
                + in_yellow(git_sha) + "\n"@
        } else {
            "\n"@ + in_cyan(in_bold("Summary:"@)) + " Found "@ + decimal(types.len())
                + " types, "@ + decimal(typedefs.len()) + " typedefs at git SHA "@ + in_yellow(
                git_sha,
            ) + "\n"@
        }),
{
    let rows = Seq::new(types.len(), |i: int| crate::search::type_row(i, types[i]));
    let wanted = Seq::new(
        types.len(),
        |i: int|
            numbering(i) + in_magenta(types[i].kind) + " "@ + in_cyan(types[i].name) + place(
                types[i].file_path,
                types[i].line_start as nat,
            ),
    );
    assert forall|i: int| 0 <= i < rows.len() implies #[trigger] rows[i] == wanted[i] by {
        assert(rows[i] =~= wanted[i]);
    }
    assert(rows =~= wanted);
    let others = Seq::new(typedefs.len(), |i: int| crate::search::typedef_row(i, typedefs[i]));
    let expected = Seq::new(
        typedefs.len(),
        |i: int|
            numbering(i) + in_cyan(typedefs[i].name) + " -> "@ + in_magenta(
                typedefs[i].underlying_type,
            ) + place(typedefs[i].file_path, typedefs[i].line_start as nat),
    );
    assert forall|i: int| 0 <= i < others.len() implies #[trigger] others[i] == expected[i] by {
        assert(others[i] =~= expected[i]);
    }
    assert(others =~= expected);
}

/// The tables are shown with how many rows each has, and with their sum.
pub proof fn law_tables_are_counted(functions: nat, types: nat, typedefs: nat)
    ensures
        tables_text(functions, types, typedefs) == in_green(in_bold("=== Database Tables ==="@))
            + "\n"@ + (in_bold("Functions"@) + ": "@ + in_cyan(decimal(functions)) + "\n"@) + (
        in_bold("Types"@) + ": "@ + in_cyan(decimal(types)) + "\n"@) + (in_bold("Typedefs"@)
            + ": "@ + in_cyan(decimal(typedefs)) + "\n"@) + (in_bold("Total"@) + ": "@ + in_cyan(
            decimal(functions + types + typedefs),
        ) + "\n"@) + "\nNote: Macros are stored in the functions table\n"@,
{
}

/// The first three lines of a text, or all where there are fewer.
pub open spec fn first_lines(text: Seq<char>) -> Seq<Seq<char>> {
    if lines_of(text).len() <= 3 {
        lines_of(text)
    } else {
        seq![lines_of(text)[0], lines_of(text)[1], lines_of(text)[2]]
    }
}

/// Functions that are similar are shown each once and in their order, numbered, with where
/// they stand; then the first three lines of their body, and dots where it has more, or else
/// the type that they return. Where there are none it is said. Ten are looked for.
pub proof fn law_similar_are_shown(functions: Seq<FunctionInfoView>, previews: bool)
    ensures
        SIMILAR_LIMIT == 10,
        functions.len() == 0 ==> similar_text(functions, previews) == in_red("Error:"@)
            + " No similar functions found\n"@,
        functions.len() > 0 ==> similar_text(functions, previews) == "\n"@ + in_green(
            in_bold("=== Similar Functions ==="@),
        ) + "\n"@ + together(
            Seq::new(
                functions.len(),
                |i: int|
                    "\n"@ + in_yellow(decimal((i + 1) as nat)) + ". "@ + in_bold(functions[i].name)
                        + " in "@ + in_cyan(functions[i].file_path) + "\n   Lines: "@ + decimal(
                        functions[i].line_start as nat,
                    ) + "-"@ + decimal(functions[i].line_end as nat) + "\n"@ + (if !previews {
                        "   Return: "@ + in_magenta(functions[i].return_type) + "\n"@
                    } else if joined(first_lines(functions[i].body), "\n   "@).len() == 0 {
                        ""@
                    } else {
                        "   "@ + in_bright_black(
                            joined(first_lines(functions[i].body), "\n   "@),
                        ) + "\n"@ + (if lines_of(functions[i].body).len() > 3 {
                            "   ...\n"@
                        } else {
                            ""@
                        })
                    }),
            ),
        ),
{
    let rows = Seq::new(
        functions.len(),
        |i: int| crate::search::similar_entry(i, functions[i], previews),
    );
    let wanted = Seq::new(
        functions.len(),
        |i: int|
            "\n"@ + in_yellow(decimal((i + 1) as nat)) + ". "@ + in_bold(functions[i].name)
                + " in "@ + in_cyan(functions[i].file_path) + "\n   Lines: "@ + decimal(
                functions[i].line_start as nat,
            ) + "-"@ + decimal(functions[i].line_end as nat) + "\n"@ + (if !previews {
                "   Return: "@ + in_magenta(functions[i].return_type) + "\n"@
            } else if joined(first_lines(functions[i].body), "\n   "@).len() == 0 {
                ""@
            } else {
                "   "@ + in_bright_black(joined(first_lines(functions[i].body), "\n   "@)) + "\n"@
                    + (if lines_of(functions[i].body).len() > 3 {
                    "   ...\n"@
                } else {
                    ""@
                })
            }),
    );
    assert forall|i: int| 0 <= i < rows.len() implies #[trigger] rows[i] == wanted[i] by {
        let all = lines_of(functions[i].body);
        if all.len() > 3 {
            assert(all.take(3) =~= first_lines(functions[i].body));
        }
        assert(preview_of(functions[i].body) == joined(
            first_lines(functions[i].body),
            "\n   "@,
        ));
        assert(rows[i] =~= wanted[i]);
    }
    assert(rows =~= wanted);
}

/// Where nothing is to be cut short, or all is asked for, every name is shown.
pub proof fn law_all_relations_are_shown(
    calls: Seq<Seq<char>>,
    callers: Seq<Seq<char>>,
    options: DisplayCallOptions,
)
    requires
        !options.truncate || options.verbose,
    ensures
        relations_text(calls, callers, options) == (if options.show_calls && calls.len() > 0 {
            "\nCalls: "@ + decimal(calls.len()) + "\n"@ + together(
                Seq::new(calls.len(), |i: int| "  → "@ + in_cyan(calls[i]) + "\n"@),
            )
        } else {
            ""@
        }) + (if options.show_callers && callers.len() > 0 {
            "\nCalled By: "@ + decimal(callers.len()) + "\n"@ + together(
                Seq::new(callers.len(), |i: int| "  ← "@ + in_cyan(callers[i]) + "\n"@),
            )
        } else {
            ""@
        }),
{
    reveal_strlit("");
    reveal_strlit("\n");
    reveal_strlit("  ");
    reveal_strlit(" ");
    reveal_strlit("→");
    reveal_strlit("←");
    reveal_strlit("  → ");
    reveal_strlit("  ← ");
    reveal_strlit("Calls");
    reveal_strlit("Called By");
    reveal_strlit(": ");
    reveal_strlit("\nCalls: ");
    reveal_strlit("\nCalled By: ");
    assert("  "@ + "→"@ + " "@ =~= "  → "@);
    assert("  "@ + "←"@ + " "@ =~= "  ← "@);
    assert("\n"@ + "Calls"@ + ": "@ =~= "\nCalls: "@);
    assert("\n"@ + "Called By"@ + ": "@ =~= "\nCalled By: "@);
    assert(calls.map_values(|name: Seq<char>| "  "@ + "→"@ + " "@ + in_cyan(name) + "\n"@)
        =~= Seq::new(calls.len(), |i: int| "  → "@ + in_cyan(calls[i]) + "\n"@));
    assert(callers.map_values(|name: Seq<char>| "  "@ + "←"@ + " "@ + in_cyan(name) + "\n"@)
        =~= Seq::new(callers.len(), |i: int| "  ← "@ + in_cyan(callers[i]) + "\n"@));
    let a = "\nCalls: "@ + decimal(calls.len()) + "\n"@ + together(
        Seq::new(calls.len(), |i: int| "  → "@ + in_cyan(calls[i]) + "\n"@),
    );
    let b = "\nCalled By: "@ + decimal(callers.len()) + "\n"@ + together(
        Seq::new(callers.len(), |i: int| "  ← "@ + in_cyan(callers[i]) + "\n"@),
    );
    assert(a + ""@ =~= a);
    assert(b + ""@ =~= b);
}

/// The number that a digit in lower case stands for.
pub open spec fn hex_value(c: char) -> int {
    if '0' <= c <= '9' {
        c as int - '0' as int
    } else if 'a' <= c <= 'f' {
        c as int - 'a' as int + 10
    } else {
        -1
    }
}

/// Whether two digits in lower case stand at `i`, and for a byte.
pub open spec fn stands_for(text: Seq<char>, i: int, byte: u8) -> bool {
    &&& 0 <= hex_value(text[i]) < 16
    &&& 0 <= hex_value(text[i + 1]) < 16
    &&& byte as int == 16 * hex_value(text[i]) + hex_value(text[i + 1])
}

/// Whether a text holds bytes in hexadecimal: two digits in lower case for each, the high one
/// first.
pub open spec fn holds_bytes(text: Seq<char>, bytes: Seq<u8>) -> bool {
    &&& text.len() == 2 * bytes.len()
    &&& forall|i: int| 0 <= i < bytes.len() ==> stands_for(text, 2 * i, #[trigger] bytes[i])
}

proof fn lemma_hex(bytes: Seq<u8>)
    ensures
        holds_bytes(hex_text(bytes), bytes),
    decreases bytes.len(),
{
    if bytes.len() > 0 {
        let fewer = bytes.drop_last();
        lemma_hex(fewer);
        let text = hex_text(bytes);
        let before = hex_text(fewer);
        assert(text.len() == before.len() + 2);
        assert forall|i: int| 0 <= i < bytes.len() implies stands_for(
            text,
            2 * i,
            #[trigger] bytes[i],
        ) by {
            if i < fewer.len() {
                assert(fewer[i] == bytes[i]);
                assert(text[2 * i] == before[2 * i]);
                assert(text[2 * i + 1] == before[2 * i + 1]);
            } else {
                assert(bytes[i] == bytes.last());
            }
        }
    }
}

/// A dumped call names its caller and its callee, and holds the versions of their files in
/// hexadecimal, from which they can be read back; that of the callee where it is known.
pub proof fn law_calls_are_dumped(call: CallRelationship)
    ensures
        dumped_call(call).caller == call.caller@,
        dumped_call(call).callee == call.callee@,
        holds_bytes(dumped_call(call).caller_git_file_hash, call.caller_git_file_hash@),
        dumped_call(call).callee_git_file_hash is Some <==> call.callee_git_file_hash is Some,
        call.callee_git_file_hash matches Some(hash) ==> holds_bytes(
            dumped_call(call).callee_git_file_hash->Some_0,
            hash@,
        ),
{
    lemma_hex(call.caller_git_file_hash@);
    match call.callee_git_file_hash {
        Some(hash) => {
            lemma_hex(hash@);
        },
        None => {},
    }
}

/// A listing first says which pattern it lists, and at which commit.
pub proof fn law_listing_is_told(pattern: Seq<char>, git_sha: Seq<char>)
    ensures
        listing_functions(pattern, git_sha) == "Searching for functions and macros matching: "@
            + in_cyan(pattern) + " (git SHA: "@ + in_yellow(git_sha) + ")\n"@,
        listing_types(pattern, git_sha) == "Searching for types and typedefs matching: "@
            + in_cyan(pattern) + " (git SHA: "@ + in_yellow(git_sha) + ")\n"@,
{
}

} // verus!
