use semcode::database::search::{SearchManager, SearchStep};
use semcode::database::symbols::{
    split_underlying, FunctionRow, Symbol, Table, TypeRow, TypedefRow,
};
use semcode::pattern::{find_ignoring_case, normalize_for_search, pattern_fault};

fn manager() -> SearchManager {
    SearchManager::new("/src/linux".to_string())
}

fn function(name: &str, path: &str, body_hash: Option<&str>) -> FunctionRow {
    FunctionRow {
        name: name.to_string(),
        file_path: path.to_string(),
        git_file_hash: "g".to_string(),
        line_start: 3,
        line_end: 9,
        return_type: "int".to_string(),
        parameters: "[]".to_string(),
        fault: None,
        body_hash: body_hash.map(|hash| hash.to_string()),
    }
}

fn type_row(name: &str, kind: &str, definition_hash: Option<&str>) -> TypeRow {
    TypeRow {
        name: name.to_string(),
        file_path: "a.h".to_string(),
        git_file_hash: "g".to_string(),
        line: 7,
        kind: kind.to_string(),
        size: Some(16),
        fields: "[]".to_string(),
        fault: None,
        definition_hash: definition_hash.map(|hash| hash.to_string()),
    }
}

/// Runs a search. `rows` answers a condition, `hashes` are those of the files at the
/// commit, and what is kept under a hash is the hash with an exclamation mark, but for
/// the hash `lost`.
fn run<S: Symbol>(
    start: SearchStep<S>,
    rows: impl Fn(&str) -> Vec<S>,
    hashes: Option<Vec<String>>,
) -> (Vec<S::Info>, Vec<String>) {
    let mut asked = Vec::new();
    let mut step = start;
    loop {
        step = match step {
            SearchStep::Done(found) => return (found, asked),
            SearchStep::Failed(fault) => panic!("{fault}"),
            SearchStep::Rows(query, wait) => {
                let limit = match query.limit {
                    Some(limit) => format!(" limit {limit}"),
                    None => String::new(),
                };
                let table = match query.table {
                    Table::Functions => "functions",
                    Table::Types => "types",
                };
                asked.push(format!("{table}: {}{limit}", query.filter));
                wait.rows(rows(&query.filter))
            }
            SearchStep::Hashes(paths, wait) => {
                asked.push(format!("hashes of {}", paths.join(",")));
                wait.resolved(hashes.clone())
            }
            SearchStep::Content(hash, wait) => {
                asked.push(format!("content {hash}"));
                let content = if hash == "lost" { None } else { Some(format!("{hash}!")) };
                wait.content(content)
            }
        };
    }
}

#[test]
fn manager_knows_its_repository() {
    assert_eq!(manager().git_repo_path(), "/src/linux");
}

#[test]
fn exact_name_comes_first() {
    let (found, asked) = run(
        manager().search_functions_fuzzy("it's"),
        |_| vec![function("it's", "a.c", Some("b1")), function("it's", "b.c", None)],
        None,
    );
    assert_eq!(asked, vec!["functions: name = 'it''s' limit 100", "content b1"]);
    assert_eq!(found.len(), 2);
    assert_eq!(found[0].body, "b1!");
    assert_eq!(found[0].line_end, 9);
    assert_eq!(found[1].body, "");
    assert!(found[0].calls.is_none());
}

#[test]
fn part_of_a_name_is_tried_next() {
    let (found, asked) = run(
        manager().search_functions_fuzzy("foo"),
        |filter| {
            if filter.contains("LIKE") {
                vec![function("xfoox", "a.c", Some("lost"))]
            } else {
                Vec::new()
            }
        },
        None,
    );
    assert_eq!(
        asked,
        vec![
            "functions: name = 'foo' limit 100",
            "functions: name LIKE '%foo%' limit 100",
            "content lost",
        ]
    );
    assert_eq!(found[0].body, "");
}

#[test]
fn search_at_a_commit_goes_by_files() {
    let (found, asked) = run(
        manager().search_functions_fuzzy_git_aware("o'f"),
        |filter| {
            if filter.starts_with("name") {
                vec![
                    function("o'f", "a.c", None),
                    function("o'f", "b.c", None),
                    function("o'f", "a.c", None),
                ]
            } else {
                vec![function("o'f", "a.c", Some("b1"))]
            }
        },
        Some(vec!["h1".to_string(), "h2".to_string()]),
    );
    assert_eq!(
        asked,
        vec![
            "functions: name = 'o''f' limit 1000",
            "hashes of a.c,b.c",
            "functions: (git_file_hash = 'h1' OR git_file_hash = 'h2') AND name = 'o''f' \
             limit 100",
            "content b1",
        ]
    );
    assert_eq!(found.len(), 1);
}

#[test]
fn nothing_at_the_commit_finds_nothing() {
    for hashes in [None, Some(Vec::new())] {
        let (found, _) = run(
            manager().search_functions_fuzzy_git_aware("f"),
            |_| vec![function("f", "a.c", None)],
            hashes,
        );
        assert!(found.is_empty());
    }
    let (none, asked) = run(
        manager().search_functions_fuzzy_git_aware("f"),
        |_| -> Vec<FunctionRow> { Vec::new() },
        Some(vec!["h".to_string()]),
    );
    assert!(none.is_empty());
    assert_eq!(asked.len(), 2);
}

#[test]
fn files_are_asked_for_a_hundred_at_a_time() {
    let hashes: Vec<String> = (0..101).map(|i| format!("h{i}")).collect();
    let (_, asked) = run(
        manager().search_functions_fuzzy_git_aware("f"),
        |filter| {
            if filter.starts_with("name") {
                vec![function("f", "a.c", None)]
            } else {
                Vec::new()
            }
        },
        Some(hashes),
    );
    assert_eq!(asked.len(), 4);
    assert_eq!(
        asked[3],
        "functions: (git_file_hash = 'h100') AND name = 'f' limit 100"
    );
}

#[test]
fn patterns_ignore_case_and_have_no_limit() {
    let (found, asked) = run(
        manager().search_functions_regex("^Foo"),
        |_| vec![function("foo_bar", "a.c", None), function("a_foo", "a.c", None)],
        None,
    );
    assert_eq!(asked, vec!["functions: regexp_like(name, '(?i)^Foo')"]);
    assert_eq!(found.len(), 1);
    assert_eq!(found[0].name, "foo_bar");
}

#[test]
fn patterns_at_a_commit_read_whole_files() {
    let (found, asked) = run(
        manager().search_functions_regex_git_aware("^foo"),
        |_| vec![function("foo", "a.c", None), function("bar", "a.c", None)],
        Some(vec!["h".to_string()]),
    );
    assert_eq!(
        asked,
        vec![
            "functions: regexp_like(name, '(?i)^foo')",
            "hashes of a.c",
            "functions: git_file_hash = 'h'",
        ]
    );
    assert_eq!(found.len(), 1);
}

#[test]
fn types_are_found_by_name_and_kind() {
    let (found, asked) = run(
        manager().search_types_fuzzy("s"),
        |_| vec![type_row("s", "struct", Some("d"))],
        None,
    );
    assert_eq!(asked, vec!["types: name = 's' limit 100", "content d"]);
    assert_eq!(found[0].definition, "d!");
    assert_eq!(found[0].size, Some(16));
    let (_, kind) = run(
        manager().search_types_by_kind("un'ion"),
        |_| -> Vec<TypeRow> { Vec::new() },
        None,
    );
    assert_eq!(kind, vec!["types: kind = 'un''ion' limit 100"]);
}

#[test]
fn types_of_a_pattern_are_no_typedefs() {
    let (found, _) = run(
        manager().search_types_regex("s"),
        |_| vec![type_row("s", "struct", None), type_row("s_t", "typedef", None)],
        None,
    );
    assert_eq!(found.len(), 1);
    assert_eq!(found[0].kind, "struct");
}

#[test]
fn typedefs_tell_the_underlying_type() {
    let (found, asked) = run(
        manager().search_typedefs_fuzzy("t"),
        |_| vec![TypedefRow { row: type_row("t", "typedef", Some("d")) }],
        None,
    );
    assert_eq!(asked[0], "types: name = 't' AND kind = 'typedef' limit 100");
    assert_eq!(found[0].underlying_type, "unknown");
    assert_eq!(found[0].definition, "d!");
    let (_, commit) = run(
        manager().search_typedefs_fuzzy_git_aware("t"),
        |filter| {
            if filter.starts_with("name") {
                vec![TypedefRow { row: type_row("t", "typedef", None) }]
            } else {
                Vec::new()
            }
        },
        Some(vec!["h".to_string()]),
    );
    assert_eq!(
        commit[2],
        "types: (git_file_hash = 'h') AND kind = 'typedef' AND name = 't' limit 100"
    );
}

#[test]
fn definition_is_split_at_the_mark() {
    assert_eq!(
        split_underlying("// Underlying type: int *\ntypedef int *t;\n"),
        ("int *".to_string(), "typedef int *t;\n".to_string())
    );
    assert_eq!(
        split_underlying("// Underlying type: int"),
        ("unknown".to_string(), "// Underlying type: int".to_string())
    );
    assert_eq!(
        split_underlying("typedef int t;"),
        ("unknown".to_string(), "typedef int t;".to_string())
    );
}

#[test]
fn faulty_patterns_find_nothing() {
    assert!(pattern_fault("(").is_some());
    assert!(pattern_fault("a.c").is_none());
    assert!(!find_ignoring_case("(", "("));
    assert!(find_ignoring_case("A.C", "xabcx"));
    assert!(!find_ignoring_case("^b", "abc"));
}

#[test]
fn search_words_lose_their_signs() {
    assert_eq!(normalize_for_search("[PATCH v2] mm: fix"), "PATCH v2  mm  fix");
    assert_eq!(normalize_for_search("a.*b"), "a b");
    assert_eq!(normalize_for_search("^$"), "");
    assert_eq!(normalize_for_search("gr\u{fc}n"), "gr\u{fc}n");
}

#[test]
fn exact_names_go_first_at_a_commit_too() {
    let rows = |filter: &str| {
        if filter.ends_with("name = 'foo'") {
            vec![function("foo", "a.c", None)]
        } else {
            vec![function("foo", "a.c", None), function("foo_bar", "a.c", None)]
        }
    };
    let (found, asked) = run(
        manager().search_functions_fuzzy_git_aware("foo"),
        rows,
        Some(vec!["g".to_string()]),
    );
    assert_eq!(asked[2], "functions: (git_file_hash = 'g') AND name = 'foo' limit 100");
    assert_eq!(found.len(), 1);
    assert_eq!(found[0].name, "foo");
    let (types, asked) = run(
        manager().search_types_fuzzy_git_aware("foo"),
        |filter| {
            if filter.ends_with("name = 'foo'") {
                vec![type_row("foo", "struct", None)]
            } else {
                Vec::new()
            }
        },
        Some(vec!["g".to_string()]),
    );
    assert_eq!(asked[2], "types: (git_file_hash = 'g') AND name = 'foo' limit 100");
    assert_eq!(types.len(), 1);
}

#[test]
fn parts_of_names_are_asked_for_where_no_name_is_exact() {
    let parts = |filter: &str| filter.contains("LIKE");
    let (found, asked) = run(
        manager().search_functions_fuzzy_git_aware("foo"),
        |filter| if parts(filter) { vec![function("xfoo", "a.c", None)] } else { Vec::new() },
        Some(vec!["h".to_string()]),
    );
    assert_eq!(
        asked,
        vec![
            "functions: name = 'foo' limit 1000",
            "functions: name LIKE '%foo%' limit 1000",
            "hashes of a.c",
            "functions: (git_file_hash = 'h') AND name LIKE '%foo%' limit 100",
        ]
    );
    assert_eq!(found[0].name, "xfoo");
    let (_, asked) = run(
        manager().search_typedefs_fuzzy_git_aware("t"),
        |filter| {
            if parts(filter) {
                vec![TypedefRow { row: type_row("xt", "typedef", None) }]
            } else {
                Vec::new()
            }
        },
        Some(vec!["h".to_string()]),
    );
    assert_eq!(
        asked[3],
        "types: (git_file_hash = 'h') AND kind = 'typedef' AND name LIKE '%t%' limit 100"
    );
}

#[test]
fn a_row_that_cannot_be_read_ends_the_search() {
    let mut bad = function("b", "a.c", Some("h"));
    bad.fault = Some("expected value at line 1 column 1".to_string());
    let rows = vec![function("a", "a.c", None), bad];
    match manager().search_functions_fuzzy("x") {
        SearchStep::Rows(_, wait) => match wait.rows(rows) {
            SearchStep::Failed(fault) => assert_eq!(fault, "expected value at line 1 column 1"),
            _ => panic!("a row cannot be read"),
        },
        _ => panic!("rows are asked for"),
    }
    let mut fields = type_row("t", "typedef", None);
    fields.fault = Some("no fields".to_string());
    let (found, _) = run(
        manager().search_typedefs_fuzzy("t"),
        move |_| {
            let mut row = type_row("t", "typedef", None);
            row.fault = fields.fault.clone();
            vec![TypedefRow { row }]
        },
        None,
    );
    assert_eq!(found.len(), 1);
}
