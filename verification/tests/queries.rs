use semcode::queries::{
    get_function_calls_git_aware, query_function_or_macro, query_function_or_macro_to_writer,
    query_function_or_macro_to_writer_verbose, query_function_or_macro_verbose,
    FunctionQueryStep,
};
use semcode::type_queries::{
    query_type_or_typedef, query_type_or_typedef_to_writer, Piece, TypeQueryStep,
};
use semcode::types::{FunctionInfo, TypeInfo, TypedefInfo};

fn function(name: &str, body: &str) -> FunctionInfo {
    FunctionInfo {
        name: name.to_string(),
        file_path: "a.c".to_string(),
        git_file_hash: "h".to_string(),
        line_start: 3,
        line_end: 9,
        return_type: "int".to_string(),
        parameters: "[]".to_string(),
        body: body.to_string(),
        calls: None,
        types: None,
    }
}

fn type_info(name: &str) -> TypeInfo {
    TypeInfo {
        name: name.to_string(),
        file_path: "a.h".to_string(),
        git_file_hash: "h".to_string(),
        line_start: 7,
        kind: "struct".to_string(),
        size: None,
        members: "[]".to_string(),
        definition: String::new(),
        types: None,
    }
}

fn typedef_info(name: &str) -> TypedefInfo {
    TypedefInfo {
        name: name.to_string(),
        file_path: "b.h".to_string(),
        git_file_hash: "h".to_string(),
        line_start: 8,
        underlying_type: "int".to_string(),
        definition: String::new(),
    }
}

fn names(list: &[&str]) -> Vec<String> {
    list.iter().map(|name| name.to_string()).collect()
}

/// Runs a query: texts and functions that are shown, and what was asked.
fn run(
    start: FunctionQueryStep,
    named: Vec<FunctionInfo>,
    matching: Vec<FunctionInfo>,
    like: Vec<FunctionInfo>,
    callers: &[&str],
) -> (String, Vec<String>) {
    let mut shown = String::new();
    let mut asked = Vec::new();
    let mut named = Some(named);
    let mut matching = Some(matching);
    let mut like = Some(like);
    let mut step = start;
    loop {
        step = match step {
            FunctionQueryStep::Done(text) => {
                shown.push_str(&text);
                return (shown, asked);
            }
            FunctionQueryStep::Named(text, wait) => {
                shown.push_str(&text);
                asked.push("named".to_string());
                wait.functions(named.take().unwrap())
            }
            FunctionQueryStep::Calls(text, wait) => {
                shown.push_str(&text);
                shown.push_str(&format!("<{}>\n", wait.function().name));
                asked.push(format!("calls of {} {}", wait.function().name, wait.is_exact()));
                wait.calls(names(&["x"]))
            }
            FunctionQueryStep::Callers(text, wait) => {
                shown.push_str(&text);
                asked.push("callers".to_string());
                wait.callers(names(callers))
            }
            FunctionQueryStep::CallersOf(text, wait) => {
                shown.push_str(&text);
                asked.push(format!("callers of {}", wait.function().name));
                wait.callers(names(callers))
            }
            FunctionQueryStep::Matching(text, wait) => {
                shown.push_str(&text);
                asked.push("matching".to_string());
                wait.functions(matching.take().unwrap())
            }
            FunctionQueryStep::Like(text, wait) => {
                shown.push_str(&text);
                asked.push("like".to_string());
                wait.functions(like.take().unwrap())
            }
        };
    }
}

const START: &str = "Searching for function: \u{1b}[36mf\u{1b}[39m \
                     (git SHA: \u{1b}[33ms\u{1b}[39m)\n";

#[test]
fn one_definition_shows_calls_and_callers() {
    let (shown, asked) = run(
        query_function_or_macro("f", "s"),
        vec![function("f", "{ }"), function("f", "int f(void);")],
        Vec::new(),
        Vec::new(),
        &["c"],
    );
    assert_eq!(
        shown,
        format!(
            "{START}<f>\n\nCalls: 1\n  → \u{1b}[36mx\u{1b}[39m\n\
             \nCalled By: 1\n  ← \u{1b}[36mc\u{1b}[39m\n"
        )
    );
    assert_eq!(asked, vec!["named", "calls of f true", "callers"]);
}

#[test]
fn several_definitions_are_counted() {
    let (shown, asked) = run(
        query_function_or_macro_to_writer("f", "s"),
        vec![function("f", "{ 1 }"), function("f", "{ 2 }")],
        Vec::new(),
        Vec::new(),
        &["c"],
    );
    assert_eq!(
        shown,
        format!(
            "{START}\n\u{1b}[33mNote:\u{1b}[39m Found 2 function definitions with name 'f' at \
             git SHA \u{1b}[33ms\u{1b}[39m:\n\
             \n\u{1b}[34m\u{1b}[1m==>\u{1b}[0m\u{1b}[39m Function 1 of 2:\n<f>\n\
             \nCalls: 1\n  → \u{1b}[36mx\u{1b}[39m\n\
             \n\u{1b}[34m\u{1b}[1m==>\u{1b}[0m\u{1b}[39m Function 2 of 2:\n<f>\n\
             \nCalls: 1\n  → \u{1b}[36mx\u{1b}[39m\n\
             \n\u{1b}[34m\u{1b}[1m==>\u{1b}[0m\u{1b}[39m Callers to all 'f' functions:\n\
             \nCalled By: 1\n  ← \u{1b}[36mc\u{1b}[39m\n"
        )
    );
    assert_eq!(asked, vec!["named", "calls of f true", "calls of f true", "callers"]);
}

#[test]
fn several_definitions_without_callers_say_nothing_of_them() {
    let (shown, _) = run(
        query_function_or_macro_to_writer_verbose("f", "s", false),
        vec![function("f", "{ 1 }"), function("f", "{ 2 }")],
        Vec::new(),
        Vec::new(),
        &[],
    );
    assert!(!shown.contains("Callers to all"));
}

#[test]
fn declarations_alone_are_told() {
    let (shown, asked) = run(
        query_function_or_macro_verbose("f", "s", true),
        vec![function("f", "int f(void);")],
        vec![function("ff", "{ }")],
        Vec::new(),
        &["c"],
    );
    assert_eq!(
        shown,
        format!(
            "{START}\n\u{1b}[33mInfo:\u{1b}[39m Found function declarations but no definitions \
             for 'f' at git SHA \u{1b}[33ms\u{1b}[39m\n"
        )
    );
    assert_eq!(asked, vec!["named"]);
}

#[test]
fn pattern_matches_share_their_callers() {
    let (shown, asked) = run(
        query_function_or_macro("f", "s"),
        Vec::new(),
        vec![function("fa", "{ }"), function("no", "int no(void);"), function("fb", "{ }")],
        Vec::new(),
        &["c", "d"],
    );
    assert_eq!(
        shown,
        format!(
            "{START}\n\u{1b}[33mInfo:\u{1b}[39m No exact match found for 'f' at git SHA \
             \u{1b}[33ms\u{1b}[39m, but found functions using it as a regex pattern:\n\
             \n\u{1b}[32m\u{1b}[1m=== Functions (regex matches) ===\u{1b}[0m\u{1b}[39m\n\
             <fa>\n\nCalls: 1\n  → \u{1b}[36mx\u{1b}[39m\n\
             <fb>\n\nCalls: 1\n  → \u{1b}[36mx\u{1b}[39m\n\
             \n\u{1b}[34m\u{1b}[1m==>\u{1b}[0m\u{1b}[39m Callers to all matched functions:\n\
             \nCalled By: 2\n  ← \u{1b}[36mc\u{1b}[39m\n  ← \u{1b}[36md\u{1b}[39m\n"
        )
    );
    assert_eq!(
        asked,
        vec![
            "named",
            "matching",
            "calls of fa false",
            "calls of fb false",
            "callers of fa",
            "callers of fb",
        ]
    );
}

#[test]
fn nothing_found_leads_to_three_suggestions() {
    let like = vec![
        function("a", ""),
        function("b", ""),
        function("c", ""),
        function("d", ""),
    ];
    let (shown, _) = run(query_function_or_macro("f", "s"), Vec::new(), Vec::new(), like, &[]);
    assert_eq!(
        shown,
        format!(
            "{START}\u{1b}[31mError:\u{1b}[39m No function 'f' found at git SHA \
             \u{1b}[33ms\u{1b}[39m\n\nDid you mean:\n\
             \x20 - \u{1b}[33mfunc --git\u{1b}[39m a (function at git SHA \u{1b}[33ms\u{1b}[39m)\n\
             \x20 - \u{1b}[33mfunc --git\u{1b}[39m b (function at git SHA \u{1b}[33ms\u{1b}[39m)\n\
             \x20 - \u{1b}[33mfunc --git\u{1b}[39m c (function at git SHA \u{1b}[33ms\u{1b}[39m)\n"
        )
    );
    let (bare, _) =
        run(query_function_or_macro("f", "s"), Vec::new(), Vec::new(), Vec::new(), &[]);
    assert!(!bare.contains("Did you mean"));
}

#[test]
fn calls_that_cannot_be_read_are_none() {
    assert_eq!(get_function_calls_git_aware(None), Vec::<String>::new());
    assert_eq!(get_function_calls_git_aware(Some(names(&["a"]))), names(&["a"]));
}

/// Pieces as one text, with types and typedefs as their names.
fn flat(pieces: Vec<Piece>) -> String {
    pieces
        .into_iter()
        .map(|piece| match piece {
            Piece::Text(text) => text,
            Piece::Type(info) => format!("<type {}>", info.name),
            Piece::Typedef(info) => format!("<typedef {}>", info.name),
        })
        .collect()
}

#[test]
fn leading_keywords_are_dropped() {
    for (name, clean) in [
        ("struct foo", "foo"),
        ("struct struct foo", "foo"),
        ("struct union enum foo", "foo"),
        ("enum struct foo", "struct foo"),
        ("structfoo", "structfoo"),
    ] {
        match query_type_or_typedef(name, "s") {
            TypeQueryStep::Named(text, wait) => {
                assert_eq!(
                    text,
                    format!(
                        "Searching for type or typedef: \u{1b}[36m{clean}\u{1b}[39m \
                         (git SHA: \u{1b}[33ms\u{1b}[39m)\n"
                    )
                );
                assert_eq!(wait.name(), clean);
            }
            _ => panic!("a query starts with the name"),
        }
    }
}

fn exact(types: Vec<TypeInfo>, typedef: Option<TypedefInfo>) -> TypeQueryStep {
    match query_type_or_typedef_to_writer("foo", "s") {
        TypeQueryStep::Named(_, wait) => wait.found(types, typedef),
        _ => panic!("a query starts with the name"),
    }
}

#[test]
fn type_and_typedef_are_both_shown() {
    match exact(vec![type_info("foo"), type_info("foo")], Some(typedef_info("foo"))) {
        TypeQueryStep::Done(pieces) => assert_eq!(
            flat(pieces),
            "\n\u{1b}[33mNote:\u{1b}[39m Found both a type and a typedef with this name at git \
             SHA \u{1b}[33ms\u{1b}[39m!\n\
             \n\u{1b}[33mNote:\u{1b}[39m Found 2 type definitions:\n\
             <type foo><type foo><typedef foo>"
        ),
        _ => panic!("found"),
    }
    match exact(vec![type_info("foo")], None) {
        TypeQueryStep::Done(pieces) => assert_eq!(flat(pieces), "<type foo>"),
        _ => panic!("found"),
    }
    match exact(Vec::new(), Some(typedef_info("foo"))) {
        TypeQueryStep::Done(pieces) => assert_eq!(flat(pieces), "<typedef foo>"),
        _ => panic!("found"),
    }
}

fn matching(types: Vec<TypeInfo>, typedefs: Vec<TypedefInfo>) -> TypeQueryStep {
    match exact(Vec::new(), None) {
        TypeQueryStep::Matching(wait) => wait.found(types, typedefs),
        _ => panic!("nothing of the name"),
    }
}

#[test]
fn types_of_a_pattern_are_shown() {
    let info = |what: &str| {
        format!(
            "\n\u{1b}[33mInfo:\u{1b}[39m No exact match found for 'foo' at git SHA \
             \u{1b}[33ms\u{1b}[39m, but found {what} using it as a regex pattern:\n"
        )
    };
    match matching(vec![type_info("a")], vec![typedef_info("b")]) {
        TypeQueryStep::Done(pieces) => assert_eq!(
            flat(pieces),
            format!(
                "{}\n\u{1b}[32m\u{1b}[1m=== Types (regex matches) ===\u{1b}[0m\u{1b}[39m\n\
                 <type a>\n\u{1b}[32m\u{1b}[1m=== Typedefs (regex matches) ===\u{1b}[0m\
                 \u{1b}[39m\n<typedef b>",
                info("matches")
            )
        ),
        _ => panic!("found"),
    }
    match matching(vec![type_info("a")], Vec::new()) {
        TypeQueryStep::Done(pieces) => {
            assert_eq!(flat(pieces), format!("{}<type a>", info("types")))
        }
        _ => panic!("found"),
    }
    match matching(Vec::new(), vec![typedef_info("b")]) {
        TypeQueryStep::Done(pieces) => {
            assert_eq!(flat(pieces), format!("{}<typedef b>", info("typedefs")))
        }
        _ => panic!("found"),
    }
}

#[test]
fn unknown_types_lead_to_suggestions() {
    match matching(Vec::new(), Vec::new()) {
        TypeQueryStep::Like(text, wait) => {
            assert_eq!(
                text,
                "\u{1b}[31mError:\u{1b}[39m No type or typedef 'foo' found at git SHA \
                 \u{1b}[33ms\u{1b}[39m\n"
            );
            match wait.found(vec![type_info("a")], vec![typedef_info("b")]) {
                TypeQueryStep::Done(pieces) => assert_eq!(
                    flat(pieces),
                    "\nDid you mean:\n\
                     \x20 - \u{1b}[33mtype --git\u{1b}[39m struct a (at git SHA \
                     \u{1b}[33ms\u{1b}[39m)\n\
                     \x20 - \u{1b}[33mtypedef --git\u{1b}[39m b (at git SHA \
                     \u{1b}[33ms\u{1b}[39m)\n"
                ),
                _ => panic!("done"),
            }
        }
        _ => panic!("nothing found"),
    }
    match matching(Vec::new(), Vec::new()) {
        TypeQueryStep::Like(_, wait) => match wait.found(Vec::new(), Vec::new()) {
            TypeQueryStep::Done(pieces) => assert!(pieces.is_empty()),
            _ => panic!("done"),
        },
        _ => panic!("nothing found"),
    }
}
