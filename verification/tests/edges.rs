use semcode::database::edge_rewrite::SortStep;
use semcode::database::edge_sort::partition_bounds;
use semcode::database::edges::{CallEdge, CallEdgeStore, KIND_CALL, KIND_TYPE_USE};
use semcode::database::string_lists::{read_string_list, read_string_lists, write_string_lists};
use semcode::dumps::{
    dump_call_rows, dump_calls, dump_content, dump_functions, dump_git_commits, dump_lore,
    dump_macros, dump_processed_files, dump_symbol_filename, dump_typedefs, dump_types,
    CallRelationship,
};
use semcode::types::{FunctionInfo, TypeInfo};

fn texts(list: &[&str]) -> Vec<String> {
    list.iter().map(|text| text.to_string()).collect()
}

fn edge(callee: &str, caller: &str, hashes: &[&str]) -> CallEdge {
    CallEdge {
        callee: callee.to_string(),
        caller: caller.to_string(),
        caller_file_path: "a.c".to_string(),
        caller_git_file_hashes: texts(hashes),
        kind: KIND_CALL.to_string(),
    }
}

fn flat(edge: &CallEdge) -> String {
    format!(
        "{} {} {} {:?} {}",
        edge.callee,
        edge.caller,
        edge.caller_file_path,
        edge.caller_git_file_hashes,
        edge.kind
    )
}

fn function(name: &str, calls: Option<&[&str]>, types: Option<&[&str]>) -> FunctionInfo {
    FunctionInfo {
        name: name.to_string(),
        file_path: "a.c".to_string(),
        git_file_hash: "h".to_string(),
        line_start: 1,
        line_end: 2,
        return_type: "int".to_string(),
        parameters: "[]".to_string(),
        body: String::new(),
        calls: calls.map(texts),
        types: types.map(texts),
    }
}

#[test]
fn functions_give_calls_then_types() {
    let store = CallEdgeStore::new(100);
    let batches = store.insert_from_functions(&[
        function("f", Some(&["g", "g", "h"]), Some(&["t"])),
        function("leaf", Some(&[]), None),
        function("unknown", None, None),
    ]);
    assert_eq!(batches.len(), 1);
    let rows: Vec<String> = batches[0].iter().map(flat).collect();
    assert_eq!(
        rows,
        vec![
            "g f a.c [\"h\"] call",
            "h f a.c [\"h\"] call",
            "t f a.c [\"h\"] type_use",
        ]
    );
    assert!(store.insert_from_functions(&[function("leaf", None, None)]).is_empty());
}

#[test]
fn types_give_type_uses() {
    let info = TypeInfo {
        name: "s".to_string(),
        file_path: "a.h".to_string(),
        git_file_hash: "h".to_string(),
        line_start: 1,
        kind: "struct".to_string(),
        size: None,
        members: "[]".to_string(),
        definition: String::new(),
        types: Some(texts(&["t", "u"])),
    };
    let batches = CallEdgeStore::new(100).insert_from_types(&[info]);
    let rows: Vec<String> = batches[0].iter().map(flat).collect();
    assert_eq!(rows, vec!["t s a.h [\"h\"] type_use", "u s a.h [\"h\"] type_use"]);
    assert_eq!(KIND_TYPE_USE, "type_use");
}

#[test]
fn batches_have_one_size_and_no_duplicates() {
    let store = CallEdgeStore::new(2);
    let batches = store.insert_batch(vec![
        edge("a", "f", &["1"]),
        edge("a", "f", &["1"]),
        edge("a", "f", &["1"]),
        edge("a", "f", &["2"]),
        edge("a", "f", &[]),
    ]);
    let sizes: Vec<usize> = batches.iter().map(|batch| batch.len()).collect();
    assert_eq!(sizes, vec![1, 2, 1]);
    assert!(store.insert_batch(Vec::new()).is_empty());
}

#[test]
fn referrers_are_asked_for_in_pieces() {
    let store = CallEdgeStore::new(100);
    assert!(store.find_referrers(&[]).is_empty());
    assert_eq!(
        store.find_referrers(&texts(&["a", "it's"])),
        texts(&["callee IN ('a', 'it''s')"])
    );
    let many: Vec<String> = (0..257).map(|i| format!("f{i}")).collect();
    let filters = store.find_referrers(&many);
    assert_eq!(filters.len(), 2);
    assert_eq!(filters[1], "callee IN ('f256')");
}

#[test]
fn callers_are_calls_only() {
    let store = CallEdgeStore::new(100);
    assert_eq!(store.find_callers("o'f"), "callee = 'o''f' AND kind = 'call'");
    let found = store.found_caller("f", "g".to_string(), Some(texts(&["1", "2"])));
    assert_eq!(flat(&found), "f g  [\"1\", \"2\"] call");
    let bare = store.found_caller("f", "g".to_string(), None);
    assert_eq!(flat(&bare), "f g  [] call");
}

#[test]
fn ranges_start_at_each_leading_character() {
    let bounds = partition_bounds();
    assert_eq!(bounds.len(), 64);
    assert_eq!(bounds[0], "");
    assert_eq!(bounds[1], "0");
    assert_eq!(bounds[10], "9");
    assert_eq!(bounds[11], "A");
    assert_eq!(bounds[36], "Z");
    assert_eq!(bounds[37], "_");
    assert_eq!(bounds[38], "a");
    assert_eq!(bounds[63], "z");
}

/// The rows of `table` that lie in the range of a condition.
fn in_range(table: &[CallEdge], filter: &str) -> Vec<CallEdge> {
    let quoted: Vec<&str> = filter.split('\'').collect();
    table
        .iter()
        .filter(|e| e.callee.as_str() >= quoted[1])
        .filter(|e| quoted.len() < 4 || e.callee.as_str() < quoted[3])
        .map(|e| e.copied())
        .collect()
}

/// Sorts a table: the rows after the rewrite, or the message of the failure.
fn rewrite(rows: Vec<CallEdge>, lost: usize) -> Result<Vec<CallEdge>, String> {
    let mut table = rows;
    let mut staging: Vec<CallEdge> = Vec::new();
    let mut step = CallEdgeStore::new(100).sort_by_callee(table.len() + lost);
    loop {
        step = match step {
            SortStep::Finished => return Ok(table),
            SortStep::Failed(message) => return Err(message),
            SortStep::Prepare(pass) => {
                staging.clear();
                pass.prepared()
            }
            SortStep::ReadSource(pass) => {
                let read = in_range(&table, &pass.filter());
                pass.read(read)
            }
            SortStep::AppendStaging(pass, rows) => {
                staging.extend(rows);
                pass.appended()
            }
            SortStep::ReadStaging(pass) => {
                let read = in_range(&staging, &pass.filter());
                pass.read(read)
            }
            SortStep::Write(pass, rows, replace) => {
                if replace {
                    table.clear();
                }
                table.extend(rows);
                pass.written()
            }
            SortStep::CountSorted(pass) => {
                let count = table.len();
                pass.counted(count)
            }
            SortStep::DropStaging(_) => return Ok(table),
        };
    }
}

#[test]
fn rewrite_sorts_and_collapses() {
    let sorted = rewrite(
        vec![
            edge("zeta", "f", &["2"]),
            edge("alpha", "g", &["1"]),
            edge("zeta", "f", &["1"]),
            edge("Alpha", "g", &["1"]),
            edge("zeta", "f", &["2"]),
            edge("\u{e9}t\u{e9}", "g", &["1"]),
        ],
        0,
    )
    .unwrap();
    let rows: Vec<String> = sorted.iter().map(flat).collect();
    assert_eq!(
        rows,
        vec![
            "Alpha g a.c [\"1\"] call",
            "alpha g a.c [\"1\"] call",
            "zeta f a.c [\"1\", \"2\"] call",
            "\u{e9}t\u{e9} g a.c [\"1\"] call",
        ]
    );
    assert!(rewrite(Vec::new(), 0).unwrap().is_empty());
}

#[test]
fn rewrite_notices_lost_rows() {
    assert_eq!(
        rewrite(vec![edge("a", "f", &["1"])], 2).unwrap_err(),
        "staging call_edges lost rows: 1 of 3"
    );
}

#[test]
fn rewrite_can_be_repeated() {
    let once = rewrite(
        vec![
            edge("b", "f", &["2"]),
            edge("a", "f", &["1"]),
            edge("b", "f", &["1"]),
            edge("b", "g", &["3"]),
        ],
        0,
    )
    .unwrap();
    let rows: Vec<String> = once.iter().map(flat).collect();
    assert_eq!(
        rows,
        vec!["a f a.c [\"1\"] call", "b f a.c [\"1\", \"2\"] call", "b g a.c [\"3\"] call"]
    );
    let again = rewrite(once.iter().map(|e| e.copied()).collect(), 0).unwrap();
    assert_eq!(again.iter().map(flat).collect::<Vec<_>>(), rows);
}

#[test]
fn rewrite_notices_rows_without_versions() {
    assert_eq!(
        rewrite(vec![edge("a", "f", &["1", "2"]), edge("b", "f", &[])], 0).unwrap_err(),
        "staging call_edges lost rows: 1 of 2"
    );
}

#[test]
fn rewrite_checks_the_count_at_the_end() {
    let mut step = CallEdgeStore::new(100).sort_by_callee(1);
    let table = vec![edge("a", "f", &["1"])];
    loop {
        step = match step {
            SortStep::Failed(message) => {
                assert_eq!(message, "sorted call_edges has 5 rows, expected 1");
                return;
            }
            SortStep::Prepare(pass) => pass.prepared(),
            SortStep::ReadSource(pass) => {
                let read = in_range(&table, &pass.filter());
                pass.read(read)
            }
            SortStep::AppendStaging(pass, _) => pass.appended(),
            SortStep::ReadStaging(pass) => {
                let read = in_range(&table, &pass.filter());
                pass.read(read)
            }
            SortStep::Write(pass, _, _) => pass.written(),
            SortStep::CountSorted(pass) => pass.counted(5),
            _ => panic!("the count is wrong"),
        };
    }
}

#[test]
fn lists_of_texts_are_read_back() {
    let rows = vec![Some(texts(&["a", "\u{e9}", ""])), None, Some(Vec::new())];
    let column = write_string_lists(&rows);
    assert_eq!(read_string_lists(&column), rows);
    assert_eq!(read_string_list(&column, 0), rows[0]);
    assert_eq!(read_string_list(&column, 1), None);
    assert_eq!(read_string_list(&column, 2), Some(Vec::new()));
}

#[test]
fn dumps_tell_what_goes_where() {
    let dump = dump_functions("out.json");
    assert_eq!(dump.start(), "Dumping all functions to \u{1b}[36mout.json\u{1b}[39m...\n");
    assert_eq!(
        dump.done(12),
        "\u{1b}[32mSuccess:\u{1b}[39m Dumped 12 functions to \u{1b}[36mout.json\u{1b}[39m\n"
    );
    assert!(dump_types("o").done(0).contains("Dumped 0 types to"));
    assert!(dump_typedefs("o").done(0).contains("Dumped 0 typedefs to"));
    assert!(dump_calls("o").done(0).contains("Dumped 0 call relationships to"));
    assert!(dump_processed_files("o").start().contains("all processed files to"));
    assert!(dump_content("o").start().contains("Dumping all content"));
    assert!(dump_symbol_filename("o").start().starts_with("Dumping all symbol"));
    assert!(dump_git_commits("o").done(3).contains("Dumped 3 git commits to"));
    assert!(dump_lore("o").done(3).contains("Dumped 3 lore emails to"));
}

#[test]
fn dump_of_macros_is_out_of_use() {
    assert_eq!(
        dump_macros(),
        "\u{1b}[33mNote:\u{1b}[39m dump-macros command is deprecated\n\
         Macros are now stored as functions in the functions table.\n\
         Use dump-functions instead to export all functions.\n"
    );
}

#[test]
fn hashes_of_calls_are_in_hex() {
    let rows = dump_call_rows(&vec![
        CallRelationship {
            caller: "f".to_string(),
            callee: "g".to_string(),
            caller_git_file_hash: vec![0, 10, 255],
            callee_git_file_hash: Some(vec![16]),
        },
        CallRelationship {
            caller: "f".to_string(),
            callee: "h".to_string(),
            caller_git_file_hash: Vec::new(),
            callee_git_file_hash: None,
        },
    ]);
    assert_eq!(rows[0].caller_git_file_hash, "000aff");
    assert_eq!(rows[0].callee_git_file_hash, Some("10".to_string()));
    assert_eq!(rows[0].callee, "g");
    assert_eq!(rows[1].caller_git_file_hash, "");
    assert_eq!(rows[1].callee_git_file_hash, None);
}

#[test]
fn callers_are_the_calls_among_the_referrers() {
    let mut used = edge("f", "user", &["3"]);
    used.kind = "type_use".to_string();
    let table = vec![edge("f", "g", &["1", "2"]), used, edge("h", "g", &["1"]), edge("f", "g", &[])];
    let store = CallEdgeStore::new(100);
    assert_eq!(store.find_referrers(&texts(&["f"])), vec!["callee IN ('f')"]);
    assert_eq!(store.find_callers("f"), "callee = 'f' AND kind = 'call'");
    let calls: Vec<&CallEdge> =
        table.iter().filter(|e| e.callee == "f" && e.kind == "call").collect();
    let found: Vec<String> = calls
        .iter()
        .map(|e| {
            let hashes = Some(e.caller_git_file_hashes.clone());
            flat(&store.found_caller("f", e.caller.clone(), hashes))
        })
        .collect();
    let among: Vec<String> = table
        .iter()
        .filter(|e| e.callee == "f")
        .filter(|e| e.kind == "call")
        .map(|e| {
            let mut read = e.copied();
            read.caller_file_path = String::new();
            flat(&read)
        })
        .collect();
    assert_eq!(found, among);
    assert_eq!(found, vec!["f g  [\"1\", \"2\"] call", "f g  [] call"]);
}
