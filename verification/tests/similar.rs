use semcode::database::lore_fields::{Candidate, FieldStep, LoreEmailFilters};
use semcode::database::similar::{
    CommitRow, CommitStep, FunctionMeta, FunctionStep, VectorSearchManager,
};
use semcode::database::similar_emails::{EmailRow, EmailStep};
use semcode::database::vectors::{
    pair_vectors, shard_table, CommitText, CommitUpdate, EmailText, Known, ShardScan, ShardStep,
};
use semcode::scores::{sort_by_score, Scores};

fn texts(list: &[&str]) -> Vec<String> {
    list.iter().map(|text| text.to_string()).collect()
}

fn pairs(list: &[(&str, u32)]) -> Vec<(String, u32)> {
    list.iter().map(|(name, score)| (name.to_string(), *score)).collect()
}

fn no_filters() -> LoreEmailFilters<'static> {
    LoreEmailFilters {
        from_patterns: None,
        subject_patterns: None,
        body_patterns: None,
        symbols_patterns: None,
        recipients_patterns: None,
        since_date: None,
        until_date: None,
    }
}

fn candidate(id: &str, text: &str, date: &str) -> Candidate {
    Candidate { message_id: id.to_string(), text: text.to_string(), date: date.to_string() }
}

const MONDAY: &str = "Mon, 01 Jan 2024 12:00:00 +0000";
const MONDAY_EAST: &str = "Mon, 01 Jan 2024 13:00:00 +0100";
const TUESDAY: &str = "Tue, 02 Jan 2024 12:00:00 +0000";
const WEDNESDAY: &str = "Wed, 03 Jan 2024 12:00:00 +0000";

/// Runs a search of fields with one answer for each question.
fn fields(
    filters: &LoreEmailFilters,
    limit: usize,
    answers: impl Fn(&str, &str) -> Vec<Candidate>,
) -> (Result<Vec<String>, String>, Vec<String>) {
    let mut asked = Vec::new();
    let mut step = VectorSearchManager::new().query_lore_fields_intersection(filters, limit);
    loop {
        step = match step {
            FieldStep::Done(ids) => return (Ok(ids), asked),
            FieldStep::Failed(message) => return (Err(message), asked),
            FieldStep::Ask(query, wait) => {
                asked.push(format!("{} '{}' {}", query.column, query.words, query.limit));
                wait.candidates(answers(&query.column, &query.words))
            }
        };
    }
}

#[test]
fn fields_agree_and_patterns_add_up() {
    let from = texts(&["torvalds", "morton"]);
    let subject = texts(&["^mm:"]);
    let mut filters = no_filters();
    filters.from_patterns = Some(&from);
    filters.subject_patterns = Some(&subject);
    let (found, asked) = fields(&filters, 5, |column, words| match (column, words) {
        ("from", "torvalds") => vec![candidate("1", "Linus Torvalds", ""), candidate("9", "x", "")],
        ("from", _) => vec![candidate("2", "Andrew Morton", ""), candidate("3", "MORTON", "")],
        _ => vec![
            candidate("3", "MM: x", ""),
            candidate("1", "mm: y", ""),
            candidate("2", "re mm: z", ""),
        ],
    });
    assert_eq!(found.unwrap(), texts(&["1", "3"]));
    assert_eq!(
        asked,
        vec!["from 'torvalds' 5", "from 'morton' 5", "subject 'mm' 5"]
    );
}

#[test]
fn no_patterns_find_nothing() {
    let none: Vec<String> = Vec::new();
    let mut filters = no_filters();
    filters.body_patterns = Some(&none);
    let (found, asked) = fields(&filters, 5, |_, _| Vec::new());
    assert!(found.unwrap().is_empty());
    assert!(asked.is_empty());
}

#[test]
fn no_limit_is_a_large_one() {
    let body = texts(&["x"]);
    let mut filters = no_filters();
    filters.body_patterns = Some(&body);
    let (_, asked) = fields(&filters, 0, |_, _| Vec::new());
    assert_eq!(asked, vec!["body 'x' 100000"]);
}

#[test]
fn faulty_pattern_ends_the_search() {
    let symbols = texts(&["("]);
    let recipients = texts(&["x"]);
    let mut filters = no_filters();
    filters.symbols_patterns = Some(&symbols);
    filters.recipients_patterns = Some(&recipients);
    let (found, asked) = fields(&filters, 1, |_, _| Vec::new());
    assert!(found.unwrap_err().contains("unclosed group"));
    assert_eq!(asked.len(), 1);
}

#[test]
fn dates_are_compared_as_moments() {
    let body = texts(&["x"]);
    let mut filters = no_filters();
    filters.body_patterns = Some(&body);
    filters.since_date = Some(MONDAY_EAST);
    filters.until_date = Some(TUESDAY);
    let (found, _) = fields(&filters, 1, |_, _| {
        vec![
            candidate("mon", "x", MONDAY),
            candidate("tue", "x", TUESDAY),
            candidate("wed", "x", WEDNESDAY),
            candidate("bad", "x", "yesterday"),
        ]
    });
    assert_eq!(found.unwrap(), texts(&["mon", "tue"]));
    // A bound that is no date does not count.
    filters.since_date = Some("soon");
    filters.until_date = None;
    let (all, _) = fields(&filters, 1, |_, _| vec![candidate("bad", "x", "yesterday")]);
    assert_eq!(all.unwrap(), texts(&["bad"]));
}

#[test]
fn last_score_of_a_name_counts() {
    let scores = Scores::of(&pairs(&[("a", 1), ("b", 2), ("a", 3)]));
    assert_eq!(scores.get("a"), Some(3));
    assert_eq!(scores.get("c"), None);
    assert_eq!(scores.of_name("c"), 0);
    assert_eq!(
        sort_by_score(pairs(&[("a", 1), ("b", 7), ("c", 1)])),
        pairs(&[("b", 7), ("a", 1), ("c", 1)])
    );
}

fn meta(name: &str, body_hash: Option<&str>) -> FunctionMeta {
    FunctionMeta {
        name: name.to_string(),
        file_path: "a.c".to_string(),
        git_file_hash: "g".to_string(),
        line_start: 1,
        line_end: 2,
        return_type: "int".to_string(),
        parameters: "[]".to_string(),
        fault: None,
        body_hash: body_hash.map(|hash| hash.to_string()),
        calls: Some(texts(&["x"])),
        types: None,
    }
}

#[test]
fn similar_functions_stand_by_score() {
    let manager = VectorSearchManager::new();
    let filter = Some("length > 3".to_string());
    let wait = match manager.search_similar_functions_with_scores(4, filter) {
        FunctionStep::Nearest(4, Some(filter), wait) => {
            assert_eq!(filter, "length > 3");
            wait
        }
        _ => panic!("the neighbours come first"),
    };
    let wait = match wait.neighbours(pairs(&[("h1", 10), ("h2", 30)])) {
        FunctionStep::Functions(filter, wait) => {
            assert_eq!(filter, "body_hash = 'h1' OR body_hash = 'h2'");
            wait
        }
        _ => panic!("then the functions"),
    };
    let rows = vec![meta("f", Some("h1")), meta("g", Some("h2")), meta("n", None)];
    let wait = match wait.rows(rows) {
        FunctionStep::Contents(hashes, wait) => {
            assert_eq!(hashes, texts(&["h1", "h2"]));
            wait
        }
        _ => panic!("then the bodies"),
    };
    let matches = match wait.contents(vec![("h1".to_string(), "body".to_string())]) {
        FunctionStep::Done(matches) => matches,
        _ => panic!("done"),
    };
    let names: Vec<(&str, u32, &str)> = matches
        .iter()
        .map(|m| (m.function.name.as_str(), m.similarity_score, m.function.body.as_str()))
        .collect();
    assert_eq!(names, vec![("g", 30, ""), ("f", 10, "body"), ("n", 0, "")]);
    let functions = manager.search_similar_functions(matches);
    assert_eq!(functions[1].name, "f");
    assert_eq!(functions[1].calls, Some(texts(&["x"])));
}

#[test]
fn functions_of_several_conditions_are_put_together() {
    let near: Vec<(String, u32)> = (0..150).map(|i| (format!("h{i}"), i)).collect();
    let mut step = VectorSearchManager::new().search_similar_functions_with_scores(150, None);
    let mut asked: Vec<String> = Vec::new();
    let found = loop {
        step = match step {
            FunctionStep::Done(found) => break found,
            FunctionStep::Nearest(_, _, wait) => wait.neighbours(near.clone()),
            FunctionStep::Functions(filter, wait) => {
                let mut faulty = meta("faulty", Some("h149"));
                faulty.fault = Some("no JSON".to_string());
                let rows = if asked.is_empty() {
                    vec![meta("low", Some("h3")), faulty, meta("high", Some("h99"))]
                } else {
                    vec![meta("top", Some("h120")), faulty]
                };
                asked.push(filter);
                wait.rows(rows)
            }
            FunctionStep::Contents(hashes, wait) => {
                assert_eq!(hashes, texts(&["h3", "h99", "h120"]));
                wait.contents(vec![("h99".to_string(), "body".to_string())])
            }
        };
    };
    assert_eq!(asked.len(), 2);
    assert!(asked[0].starts_with("body_hash = 'h0' OR ") && asked[0].ends_with("'h99'"));
    assert!(asked[1].starts_with("body_hash = 'h100' OR ") && asked[1].ends_with("'h149'"));
    let list: Vec<(&str, u32, &str)> = found
        .iter()
        .map(|m| (m.function.name.as_str(), m.similarity_score, m.function.body.as_str()))
        .collect();
    assert_eq!(list, vec![("top", 120, ""), ("high", 99, "body"), ("low", 3, "")]);
}

#[test]
fn commits_of_several_conditions_are_put_together() {
    let near: Vec<(String, u32)> = (0..150).map(|i| (format!("c{i}"), i)).collect();
    let run = |first: Vec<CommitRow>, second: Vec<CommitRow>| {
        let mut answers = vec![second, first];
        let mut step = VectorSearchManager::new().search_similar_commits(150);
        loop {
            step = match step {
                CommitStep::Done(found) => {
                    assert!(answers.is_empty());
                    let list: Vec<(String, u32)> =
                        found.into_iter().map(|(commit, score)| (commit.git_sha, score)).collect();
                    return Ok(list);
                }
                CommitStep::Failed(message) => return Err((message, answers.len())),
                CommitStep::Nearest(_, wait) => wait.neighbours(near.clone()),
                CommitStep::Commits(_, wait) => wait.rows(answers.pop().unwrap()),
            };
        }
    };
    assert_eq!(
        run(vec![commit("c3", "{}"), commit("c99", "{}")], vec![commit("c120", "{}")]),
        Ok(pairs(&[("c120", 120), ("c99", 99), ("c3", 3)]))
    );
    let (early, left) = run(vec![commit("c3", "[")], vec![commit("c120", "{}")]).unwrap_err();
    assert_eq!(left, 1);
    let (late, left) =
        run(vec![commit("c3", "{}")], vec![commit("c120", "{}"), commit("c121", "[")]).unwrap_err();
    assert_eq!((late, left), (early, 0));
}

#[test]
fn no_neighbours_are_no_functions() {
    match VectorSearchManager::new().search_similar_functions_with_scores(4, None) {
        FunctionStep::Nearest(_, None, wait) => match wait.neighbours(Vec::new()) {
            FunctionStep::Done(matches) => assert!(matches.is_empty()),
            _ => panic!("done"),
        },
        _ => panic!("the neighbours come first"),
    }
    assert_eq!(
        VectorSearchManager::new().search_similar_by_name("kfree"),
        "void kfree() {}"
    );
}

fn commit(sha: &str, tags: &str) -> CommitRow {
    CommitRow {
        git_sha: sha.to_string(),
        parent_sha: "[\"p1\", \"p2\"]".to_string(),
        author: "A".to_string(),
        subject: "s".to_string(),
        message: "m".to_string(),
        tags: tags.to_string(),
        diff: "d".to_string(),
        symbols: "[]".to_string(),
        files: "[\"a.c\"]".to_string(),
    }
}

#[test]
fn similar_commits_stand_by_score() {
    let wait = match VectorSearchManager::new().search_similar_commits(2) {
        CommitStep::Nearest(2, wait) => wait,
        _ => panic!("the neighbours come first"),
    };
    let wait = match wait.neighbours(pairs(&[("c'1", 5), ("c2", 6)])) {
        CommitStep::Commits(filter, wait) => {
            assert_eq!(filter, "git_sha = 'c''1' OR git_sha = 'c2'");
            wait
        }
        _ => panic!("then the commits"),
    };
    let tags = "{\"Tested-by\": [\"B\"], \"Acked-by\": [\"C\", \"D\"]}";
    match wait.rows(vec![commit("c'1", tags), commit("c2", "{}")]) {
        CommitStep::Done(found) => {
            assert_eq!(found[0].0.git_sha, "c2");
            assert_eq!(found[0].1, 6);
            assert_eq!(found[1].0.parent_sha, texts(&["p1", "p2"]));
            assert_eq!(found[1].0.files, texts(&["a.c"]));
            assert_eq!(
                found[1].0.tags,
                vec![
                    ("Acked-by".to_string(), texts(&["C", "D"])),
                    ("Tested-by".to_string(), texts(&["B"])),
                ]
            );
        }
        _ => panic!("done"),
    }
}

#[test]
fn commit_that_cannot_be_read_ends_the_search() {
    match VectorSearchManager::new().search_similar_commits(2) {
        CommitStep::Nearest(_, wait) => match wait.neighbours(pairs(&[("c", 5)])) {
            CommitStep::Commits(_, wait) => match wait.rows(vec![commit("c", "[")]) {
                CommitStep::Failed(message) => assert!(message.contains("line 1")),
                _ => panic!("the tags are no JSON"),
            },
            _ => panic!("then the commits"),
        },
        _ => panic!("the neighbours come first"),
    }
}

fn email(id: &str, date: &str) -> EmailRow {
    EmailRow {
        git_commit_sha: "c".to_string(),
        message_id: id.to_string(),
        from: "f".to_string(),
        date: date.to_string(),
        date_timestamp: None,
        subject: "s".to_string(),
        in_reply_to: None,
        references: None,
        recipients: "r".to_string(),
        body: "b".to_string(),
        symbols: "[\"x\"]".to_string(),
    }
}

/// Runs a search for emails: what was found, and what was asked.
fn similar(
    limit: usize,
    filters: &LoreEmailFilters,
    candidates: impl Fn(usize) -> Vec<Candidate>,
    neighbours: impl Fn(usize) -> Vec<(String, u32)>,
    rows: impl Fn(&str) -> Vec<EmailRow>,
) -> (Vec<(String, u32)>, Vec<String>) {
    let mut asked = Vec::new();
    let mut step = VectorSearchManager::new().search_similar_lore_emails(limit, filters);
    loop {
        step = match step {
            EmailStep::Done(found) => {
                let list = found
                    .into_iter()
                    .map(|(email, score)| (email.message_id, score))
                    .collect();
                return (list, asked);
            }
            EmailStep::Failed(message) => panic!("{message}"),
            EmailStep::FullText(query, wait) => {
                asked.push(format!("text {}", query.limit));
                wait.candidates(candidates(query.limit))
            }
            EmailStep::Nearest(count, wait) => {
                asked.push(format!("nearest {count}"));
                wait.neighbours(neighbours(count))
            }
            EmailStep::NearestOf(count, wait) => {
                asked.push(format!("nearest {count}"));
                wait.neighbours(neighbours(count))
            }
            EmailStep::Emails(filter, wait) => {
                asked.push(filter.clone());
                wait.rows(rows(&filter))
            }
        };
    }
}

#[test]
fn emails_without_filters_are_the_nearest() {
    let (found, asked) = similar(
        2,
        &no_filters(),
        |_| Vec::new(),
        |_| pairs(&[("a", 9), ("o'b", 8), ("c", 7)]),
        |_| vec![email("o'b", MONDAY), email("bad", "yesterday"), email("a", TUESDAY)],
    );
    assert_eq!(found, pairs(&[("a", 9), ("o'b", 8)]));
    assert_eq!(
        asked,
        vec![
            "nearest 4",
            "(message_id = 'a' OR message_id = 'o''b' OR message_id = 'c')",
        ]
    );
}

#[test]
fn neighbours_of_emails_can_be_counted() {
    let manager = VectorSearchManager::new();
    let mut filters = no_filters();
    assert!(manager.can_search_emails(usize::MAX / 2, &filters));
    assert!(!manager.can_search_emails(usize::MAX / 2 + 1, &filters));
    filters.since_date = Some(MONDAY);
    assert!(!manager.can_search_emails(usize::MAX / 2, &filters));
    assert!(manager.can_search_emails(usize::MAX / 50, &filters));
    let body = texts(&["x"]);
    filters.body_patterns = Some(&body);
    assert!(manager.can_search_emails(usize::MAX, &filters));
}

#[test]
fn emails_with_dates_take_more_candidates() {
    let mut filters = no_filters();
    filters.since_date = Some(TUESDAY);
    let (found, asked) = similar(
        2,
        &filters,
        |_| Vec::new(),
        |_| pairs(&[("a", 9), ("b", 8)]),
        |_| vec![email("a", MONDAY), email("b", WEDNESDAY)],
    );
    assert_eq!(found, pairs(&[("b", 8)]));
    assert_eq!(asked[0], "nearest 100");
}

#[test]
fn filtered_emails_are_sought_in_widening_rounds() {
    let subject = texts(&["mm"]);
    let mut filters = no_filters();
    filters.subject_patterns = Some(&subject);
    let (found, asked) = similar(
        2,
        &filters,
        |limit| {
            if limit < 10_000 {
                Vec::new()
            } else {
                vec![candidate("a", "mm", ""), candidate("b", "mm", "")]
            }
        },
        |count| {
            if count < 50_000 {
                pairs(&[("a", 3), ("z", 9)])
            } else {
                pairs(&[("a", 3), ("b", 5)])
            }
        },
        |filter| {
            if filter.contains("'b'") {
                vec![email("a", MONDAY), email("b", MONDAY)]
            } else {
                vec![email("a", MONDAY)]
            }
        },
    );
    assert_eq!(found, pairs(&[("b", 5), ("a", 3)]));
    assert_eq!(
        asked,
        vec![
            "text 1000",
            "text 10000",
            "nearest 10000",
            "(message_id = 'a')",
            "text 50000",
            "nearest 50000",
            "(message_id = 'b' OR message_id = 'a')",
        ]
    );
}

#[test]
fn index_fits_the_number_of_vectors() {
    let manager = VectorSearchManager::new();
    assert!(manager.create_vector_index(9).is_none());
    for (count, partitions, rate) in [
        (10, 3, 10),
        (16, 4, 16),
        (255, 15, 255),
        (256, 256, 256),
        (70_000, 264, 256),
        (4_000_000, 1024, 256),
    ] {
        let plan = manager.create_vector_index(count).unwrap();
        assert_eq!((plan.num_partitions, plan.sample_rate), (partitions, rate));
        assert_eq!((plan.num_sub_vectors, plan.num_bits, plan.max_iterations), (8, 8, 50));
    }
}

#[test]
fn contents_are_scanned_in_chunks() {
    let manager = VectorSearchManager::new();
    assert!(manager.update_vectors(0).is_empty());
    let tables = manager.update_vectors(1);
    assert_eq!(tables.len(), 16);
    assert_eq!(tables[15], "content_15");
    assert_eq!(shard_table(3), "content_3");
    let known = Known::of(&texts(&["h0"]));
    assert!(known.has("h0"));
    assert!(!known.has("h1"));
    let rows = |list: &[(&str, &str)]| -> Vec<(String, String)> {
        list.iter().map(|(a, b)| (a.to_string(), b.to_string())).collect()
    };
    let scan = match ShardScan::start() {
        ShardStep::Read(0, scan) => scan,
        _ => panic!("a scan starts at the start"),
    };
    let scan = match scan.rows_for(rows(&[("h0", "x"), ("h1", " \n")]), &known, 2) {
        ShardStep::Read(10_000, scan) => scan,
        _ => panic!("nothing new"),
    };
    let many: Vec<(String, String)> =
        (1..31).map(|i| (format!("h{i}"), format!("text {i}"))).collect();
    let wait = match scan.rows_for(many, &known, 2) {
        ShardStep::Vectorize(wait) => wait,
        _ => panic!("all are new"),
    };
    let sizes: Vec<usize> = wait.texts().iter().map(|batch| batch.len()).collect();
    assert_eq!(sizes, vec![15, 15]);
    let vectors: Vec<Vec<String>> = wait
        .texts()
        .iter()
        .map(|batch| batch.iter().map(|(_, text)| text.to_uppercase()).collect())
        .collect();
    let (entries, next) = wait.vectors(vectors);
    assert_eq!(entries.len(), 30);
    assert_eq!(entries[29].content_hash, "h30");
    assert_eq!(entries[29].vector, "TEXT 30");
    let scan = match next {
        ShardStep::Read(20_000, scan) => scan,
        _ => panic!("the scan goes on"),
    };
    assert!(matches!(scan.rows(Vec::new(), &known), ShardStep::Done));
}

#[test]
fn scan_hands_out_all_new_texts_of_a_table() {
    let table: Vec<(String, String)> = (0..20_500)
        .map(|i| {
            let text = if i % 7 == 0 { " ".to_string() } else { format!("text {i}") };
            (format!("h{i}"), text)
        })
        .collect();
    let known = Known::of(&texts(&["h1", "h10001"]));
    let wanted: Vec<(String, String)> = table
        .iter()
        .filter(|(hash, text)| text != " " && hash != "h1" && hash != "h10001")
        .cloned()
        .collect();
    let mut handed: Vec<(String, String)> = Vec::new();
    let mut step: ShardStep = ShardScan::start();
    loop {
        step = match step {
            ShardStep::Done => break,
            ShardStep::Read(at, scan) => {
                let start = at.min(table.len());
                let end = (at + 10_000).min(table.len());
                scan.rows_for(table[start..end].to_vec(), &known, 3)
            }
            ShardStep::Vectorize(wait) => {
                for batch in wait.texts() {
                    handed.extend(batch.iter().cloned());
                }
                let vectors: Vec<Vec<u8>> =
                    wait.texts().iter().map(|batch| vec![0; batch.len()]).collect();
                wait.vectors(vectors).1
            }
        };
    }
    assert_eq!(handed, wanted);
}

#[test]
fn few_texts_stay_in_batches_of_ten() {
    let known = Known::of(&Vec::new());
    let many: Vec<(String, String)> = (0..25).map(|i| (format!("h{i}"), "x".to_string())).collect();
    match ShardScan::start() {
        ShardStep::Read(_, scan) => match scan.rows_for(many, &known, 64) {
            ShardStep::Vectorize(wait) => {
                let sizes: Vec<usize> = wait.texts().iter().map(|batch| batch.len()).collect();
                assert_eq!(sizes, vec![10, 10, 5]);
            }
            _ => panic!("all are new"),
        },
        _ => panic!("a scan starts at the start"),
    }
}

#[test]
fn scan_uses_the_processors_there_are() {
    let known = Known::of(&Vec::new());
    let many: Vec<(String, String)> = (0..25).map(|i| (format!("h{i}"), "x".to_string())).collect();
    match ShardScan::start() {
        ShardStep::Read(_, scan) => match scan.rows(many, &known) {
            ShardStep::Vectorize(wait) => {
                let count: usize = wait.texts().iter().map(|batch| batch.len()).sum();
                assert_eq!(count, 25);
            }
            _ => panic!("all are new"),
        },
        _ => panic!("a scan starts at the start"),
    }
}

#[test]
fn commits_get_vectors_from_message_and_diff() {
    let manager = VectorSearchManager::new();
    let known = Known::of(&texts(&["c1"]));
    let commit = |sha: &str| CommitText {
        git_sha: sha.to_string(),
        message: "m".to_string(),
        diff: "d".to_string(),
    };
    assert!(matches!(
        manager.update_commit_vectors(Vec::new(), &known),
        CommitUpdate::NoCommits
    ));
    assert!(matches!(
        manager.update_commit_vectors(vec![commit("c1")], &known),
        CommitUpdate::AllDone
    ));
    match manager.update_commit_vectors(vec![commit("c1"), commit("c2")], &known) {
        CommitUpdate::Batches(batches) => {
            assert_eq!(batches, vec![vec![("c2".to_string(), "m\n\nd".to_string())]]);
            let entries = pair_vectors(&batches[0], vec![1, 2]);
            assert_eq!(entries.len(), 1);
            assert_eq!(entries[0].content_hash, "c2");
        }
        _ => panic!("one is new"),
    }
    let many: Vec<CommitText> = (0..501).map(|i| commit(&format!("n{i}"))).collect();
    match manager.update_commit_vectors(many, &known) {
        CommitUpdate::Batches(batches) => {
            assert_eq!(batches[0].len(), 500);
            assert_eq!(batches[1].len(), 1);
        }
        _ => panic!("all are new"),
    }
}

#[test]
fn emails_get_vectors_from_what_is_read() {
    let manager = VectorSearchManager::new();
    let known = Known::of(&texts(&["a"]));
    assert_eq!(manager.emails_needing_vectors(&texts(&["a", "b", "b"]), &known), 2);
    let email = |id: &str| EmailText {
        message_id: id.to_string(),
        from: "f".to_string(),
        subject: "s".to_string(),
        recipients: "r".to_string(),
        body: "b".to_string(),
    };
    assert_eq!(
        manager.update_lore_vectors(vec![email("a"), email("b")], &known),
        vec![("b".to_string(), "From: f\nTo/Cc: r\nSubject: s\n\nb".to_string())]
    );
    assert_eq!(manager.lore_workers_for(2), 4);
    assert_eq!(manager.lore_workers_for(12), 12);
    assert!(manager.lore_workers() >= 4);
}

#[test]
fn patterns_add_and_fields_take_away() {
    let answers = |column: &str, words: &str| match (column, words) {
        ("from", "torvalds") => vec![candidate("1", "torvalds", ""), candidate("2", "torvalds", "")],
        ("from", _) => vec![candidate("3", "morton", "")],
        _ => vec![candidate("2", "mm", ""), candidate("3", "mm", "")],
    };
    let one = texts(&["torvalds"]);
    let two = texts(&["torvalds", "morton"]);
    let subject = texts(&["mm"]);
    let mut filters = no_filters();
    filters.from_patterns = Some(&one);
    assert_eq!(fields(&filters, 0, answers).0.unwrap(), texts(&["1", "2"]));
    filters.from_patterns = Some(&two);
    assert_eq!(fields(&filters, 0, answers).0.unwrap(), texts(&["1", "2", "3"]));
    filters.subject_patterns = Some(&subject);
    assert_eq!(fields(&filters, 0, answers).0.unwrap(), texts(&["2", "3"]));
}

#[test]
fn an_email_keeps_its_highest_score() {
    let subject = texts(&["mm"]);
    let mut filters = no_filters();
    filters.subject_patterns = Some(&subject);
    let (found, _) = similar(
        3,
        &filters,
        |_| vec![candidate("a", "mm", ""), candidate("b", "mm", "")],
        |count| match count {
            1_000 => pairs(&[("a", 3)]),
            10_000 => pairs(&[("b", 4)]),
            _ => pairs(&[("a", 5)]),
        },
        |filter| {
            let id = if filter.contains("'b'") { "b" } else { "a" };
            vec![email(id, MONDAY)]
        },
    );
    assert_eq!(found, pairs(&[("a", 5), ("b", 4)]));
}
