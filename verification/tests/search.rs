use semcode::search::{
    display_call_relationships_with_options, is_function_definition, list_functions_and_macros,
    list_functions_and_macros_to_writer, list_types_and_typedefs,
    list_types_and_typedefs_to_writer, query_similar, query_similar_by_name,
    query_similar_by_name_start, query_similar_failed, query_similar_start, show_tables,
    show_tables_to_writer, DisplayCallOptions,
};
use semcode::types::{FunctionInfo, TypeInfo, TypedefInfo};

fn function(name: &str, path: &str, return_type: &str, body: &str) -> FunctionInfo {
    FunctionInfo {
        name: name.to_string(),
        file_path: path.to_string(),
        git_file_hash: "h".to_string(),
        line_start: 3,
        line_end: 9,
        return_type: return_type.to_string(),
        parameters: "[]".to_string(),
        body: body.to_string(),
        calls: None,
        types: None,
    }
}

fn numbered(count: usize) -> Vec<String> {
    (0..count).map(|i| format!("f{i}")).collect()
}

#[test]
fn empty_body_is_a_declaration() {
    assert!(!is_function_definition(&function("f", "a.c", "", "")));
    assert!(!is_function_definition(&function("f", "a.c", "int", "")));
}

#[test]
fn macro_is_a_definition() {
    assert!(is_function_definition(&function("M", "a.h", "", "#define M 1;")));
}

#[test]
fn semicolon_without_braces_is_a_declaration() {
    assert!(!is_function_definition(&function("f", "a.c", "int", "int f(void);  \n")));
    assert!(is_function_definition(&function("f", "a.c", "int", "int f(void) { return 1; };")));
}

#[test]
fn header_asks_for_braces() {
    assert!(!is_function_definition(&function("f", "a.h", "int", "int f(void)")));
    assert!(!is_function_definition(&function("f", "a.hpp", "int", "int f(void)")));
    assert!(is_function_definition(&function("f", "a.h", "int", "int f(void) { }")));
}

#[test]
fn source_file_counts_what_does_not_end_in_a_semicolon() {
    assert!(is_function_definition(&function("f", "a.c", "int", "int f(void)")));
    // An opening brace alone decides nothing, so the last sign does.
    assert!(!is_function_definition(&function("f", "a.c", "int", "int f(void) { a;")));
}

#[test]
fn calls_and_callers_are_shown_as_asked() {
    let calls = numbered(1);
    let callers = vec!["g".to_string()];
    let both = DisplayCallOptions {
        truncate: true,
        verbose: false,
        show_calls: true,
        show_callers: true,
    };
    assert_eq!(
        display_call_relationships_with_options("x", &calls, &callers, &both),
        "\nCalls: 1\n  → \u{1b}[36mf0\u{1b}[39m\n\nCalled By: 1\n  ← \u{1b}[36mg\u{1b}[39m\n"
    );
    let none = DisplayCallOptions {
        truncate: true,
        verbose: false,
        show_calls: false,
        show_callers: false,
    };
    assert_eq!(display_call_relationships_with_options("x", &calls, &callers, &none), "");
    assert_eq!(display_call_relationships_with_options("x", &[], &[], &both), "");
}

#[test]
fn long_lists_are_cut() {
    let options = DisplayCallOptions {
        truncate: true,
        verbose: false,
        show_calls: false,
        show_callers: true,
    };
    let text = display_call_relationships_with_options("x", &[], &numbered(27), &options);
    assert!(text.starts_with("\nCalled By: 27\n"));
    assert!(text.contains("\u{1b}[36mf24\u{1b}[39m"));
    assert!(!text.contains("\u{1b}[36mf25\u{1b}[39m"));
    assert!(text.ends_with(
        "  \u{1b}[90m...\u{1b}[39m ... (2 more callers, use -v to show all)\n"
    ));
    let whole = display_call_relationships_with_options("x", &[], &numbered(25), &options);
    assert!(!whole.contains("more callers"));
}

#[test]
fn verbose_lists_are_whole() {
    let options = DisplayCallOptions {
        truncate: true,
        verbose: true,
        show_calls: true,
        show_callers: false,
    };
    let text = display_call_relationships_with_options("x", &numbered(30), &[], &options);
    assert!(text.contains("\u{1b}[36mf29\u{1b}[39m"));
    assert!(!text.contains("more calls"));
}

#[test]
fn tables_are_counted() {
    let text = "\u{1b}[32m\u{1b}[1m=== Database Tables ===\u{1b}[0m\u{1b}[39m\n\
        \u{1b}[1mFunctions\u{1b}[0m: \u{1b}[36m10\u{1b}[39m\n\
        \u{1b}[1mTypes\u{1b}[0m: \u{1b}[36m20\u{1b}[39m\n\
        \u{1b}[1mTypedefs\u{1b}[0m: \u{1b}[36m3\u{1b}[39m\n\
        \u{1b}[1mTotal\u{1b}[0m: \u{1b}[36m33\u{1b}[39m\n\
        \nNote: Macros are stored in the functions table\n";
    assert_eq!(show_tables_to_writer(10, 20, 3), text);
    assert_eq!(show_tables(10, 20, 3), text);
}

#[test]
fn functions_are_listed() {
    assert_eq!(
        list_functions_and_macros("foo", "abc"),
        "Searching for functions and macros matching: \u{1b}[36mfoo\u{1b}[39m \
         (git SHA: \u{1b}[33mabc\u{1b}[39m)\n"
    );
    let none: Vec<FunctionInfo> = Vec::new();
    assert_eq!(
        list_functions_and_macros_to_writer("foo", "abc", &none),
        "\u{1b}[33mInfo:\u{1b}[39m No matches found for pattern 'foo' at git SHA \
         \u{1b}[33mabc\u{1b}[39m\n"
    );
    let some = vec![function("foo", "a.c", "int", "{}")];
    assert_eq!(
        list_functions_and_macros_to_writer("foo", "abc", &some),
        "\n\u{1b}[32m\u{1b}[1m=== Functions ===\u{1b}[0m\u{1b}[39m\n  \
         \u{1b}[33m1\u{1b}[39m. \u{1b}[36mfoo\u{1b}[39m (\u{1b}[90ma.c\u{1b}[39m:3)\n\n\
         \u{1b}[36m\u{1b}[1mSummary:\u{1b}[0m\u{1b}[39m Found 1 functions (including macros) at \
         git SHA \u{1b}[33mabc\u{1b}[39m\n"
    );
}

#[test]
fn types_are_listed() {
    assert_eq!(
        list_types_and_typedefs("foo", "abc"),
        "Searching for types and typedefs matching: \u{1b}[36mfoo\u{1b}[39m \
         (git SHA: \u{1b}[33mabc\u{1b}[39m)\n"
    );
    let types = vec![TypeInfo {
        name: "foo".to_string(),
        file_path: "a.h".to_string(),
        git_file_hash: "h".to_string(),
        line_start: 7,
        kind: "struct".to_string(),
        size: None,
        members: "[]".to_string(),
        definition: String::new(),
        types: None,
    }];
    let typedefs = vec![TypedefInfo {
        name: "foo_t".to_string(),
        file_path: "b.h".to_string(),
        git_file_hash: "h".to_string(),
        line_start: 8,
        underlying_type: "struct foo".to_string(),
        definition: String::new(),
    }];
    assert_eq!(
        list_types_and_typedefs_to_writer("foo", "abc", &types, &typedefs),
        "\n\u{1b}[32m\u{1b}[1m=== Types ===\u{1b}[0m\u{1b}[39m\n  \
         \u{1b}[33m1\u{1b}[39m. \u{1b}[35mstruct\u{1b}[39m \u{1b}[36mfoo\u{1b}[39m \
         (\u{1b}[90ma.h\u{1b}[39m:7)\n\
         \n\u{1b}[32m\u{1b}[1m=== Typedefs ===\u{1b}[0m\u{1b}[39m\n  \
         \u{1b}[33m1\u{1b}[39m. \u{1b}[36mfoo_t\u{1b}[39m -> \u{1b}[35mstruct foo\u{1b}[39m \
         (\u{1b}[90mb.h\u{1b}[39m:8)\n\n\
         \u{1b}[36m\u{1b}[1mSummary:\u{1b}[0m\u{1b}[39m Found 1 types, 1 typedefs at git SHA \
         \u{1b}[33mabc\u{1b}[39m\n"
    );
    let none: Vec<TypeInfo> = Vec::new();
    let nothing: Vec<TypedefInfo> = Vec::new();
    assert_eq!(
        list_types_and_typedefs_to_writer("foo", "abc", &none, &nothing),
        "\u{1b}[33mInfo:\u{1b}[39m No matches found for pattern 'foo' at git SHA \
         \u{1b}[33mabc\u{1b}[39m\n"
    );
}

#[test]
fn similar_functions_have_a_preview() {
    assert_eq!(
        query_similar_start("x + y"),
        "Searching for functions similar to: \u{1b}[36mx + y\u{1b}[39m\nGenerating vector...\n"
    );
    assert_eq!(
        query_similar_failed("no model"),
        "\u{1b}[31mError:\u{1b}[39m Failed to generate vector: no model\n"
    );
    let none: Vec<FunctionInfo> = Vec::new();
    assert_eq!(
        query_similar(&none),
        "\u{1b}[31mError:\u{1b}[39m No similar functions found\n"
    );
    let some = vec![
        function("f", "a.c", "int", "one\ntwo\nthree\nfour\n"),
        function("g", "b.c", "int", "one\r\ntwo"),
        function("h", "c.c", "int", ""),
    ];
    assert_eq!(
        query_similar(&some),
        "\n\u{1b}[32m\u{1b}[1m=== Similar Functions ===\u{1b}[0m\u{1b}[39m\n\
         \n\u{1b}[33m1\u{1b}[39m. \u{1b}[1mf\u{1b}[0m in \u{1b}[36ma.c\u{1b}[39m\n   \
         Lines: 3-9\n   \u{1b}[90mone\n   two\n   three\u{1b}[39m\n   ...\n\
         \n\u{1b}[33m2\u{1b}[39m. \u{1b}[1mg\u{1b}[0m in \u{1b}[36mb.c\u{1b}[39m\n   \
         Lines: 3-9\n   \u{1b}[90mone\n   two\u{1b}[39m\n\
         \n\u{1b}[33m3\u{1b}[39m. \u{1b}[1mh\u{1b}[0m in \u{1b}[36mc.c\u{1b}[39m\n   \
         Lines: 3-9\n"
    );
}

#[test]
fn similar_names_show_the_return_type() {
    assert_eq!(
        query_similar_by_name_start("kmalloc"),
        "Searching for functions similar to name: \u{1b}[36mkmalloc\u{1b}[39m\n\
         Generating vector...\n"
    );
    assert_eq!(
        query_similar_by_name(&vec![function("f", "a.c", "void *", "{}")]),
        "\n\u{1b}[32m\u{1b}[1m=== Similar Functions ===\u{1b}[0m\u{1b}[39m\n\
         \n\u{1b}[33m1\u{1b}[39m. \u{1b}[1mf\u{1b}[0m in \u{1b}[36ma.c\u{1b}[39m\n   \
         Lines: 3-9\n   Return: \u{1b}[35mvoid *\u{1b}[39m\n"
    );
}
