use semcode::lore::{
    lore_get_by_message_id, lore_get_by_message_id_with_options, lore_search,
    lore_search_multi_field, lore_search_with_thread, LoreQuery, LoreSearchOptions, LoreShow,
};
use semcode::lore_threads::{lore_show_replies, lore_show_thread, ThreadStep};
use semcode::threads::sort_emails_by_thread_order;
use semcode::types::LoreEmailInfo;

fn email(id: &str, date: &str, parent: Option<&str>) -> LoreEmailInfo {
    LoreEmailInfo {
        git_commit_sha: "c".to_string(),
        message_id: id.to_string(),
        from: format!("{id}@x"),
        date: date.to_string(),
        date_timestamp: 0,
        subject: format!("Re {id}"),
        in_reply_to: parent.map(|p| p.to_string()),
        references: None,
        recipients: String::new(),
        body: format!("body of {id}"),
        symbols: Vec::new(),
    }
}

fn options(verbose: usize) -> LoreSearchOptions<'static> {
    LoreSearchOptions {
        verbose,
        show_thread: false,
        show_replies: false,
        replies_only: false,
        since_date: None,
        until_date: None,
        mbox_output: false,
        snip_output: false,
    }
}

fn ids(emails: &[LoreEmailInfo]) -> Vec<&str> {
    emails.iter().map(|email| email.message_id.as_str()).collect()
}

fn text(show: LoreShow) -> String {
    match show {
        LoreShow::Text(text) => text,
        _ => panic!("a text"),
    }
}

/// What is shown of an email without references, recipients and body.
fn entry(number: &str, id: &str, date: &str, parent: Option<&str>) -> String {
    let answered = match parent {
        Some(parent) => format!("   In-Reply-To: \u{1b}[90m{parent}\u{1b}[39m\n"),
        None => String::new(),
    };
    format!(
        "{number}\u{1b}[90m{date}\u{1b}[39m - \u{1b}[36mRe {id}\u{1b}[39m\n   \
         From: \u{1b}[33m{id}@x\u{1b}[39m\n   Message-ID: \u{1b}[90m{id}\u{1b}[39m\n{answered}\n"
    )
}

#[test]
fn search_starts_with_field_and_pattern() {
    let (start, _) = lore_search("subject", "mm: .*", 10, 0);
    assert_eq!(
        start,
        "Searching lore emails where \u{1b}[36msubject\u{1b}[39m matches pattern: \
         \u{1b}[33mmm: .*\u{1b}[39m\n"
    );
    let mut quiet = options(0);
    quiet.mbox_output = true;
    assert_eq!(lore_search_with_thread("subject", "mm", 10, &quiet).0, "");
}

#[test]
fn search_without_matches_says_so() {
    let (_, search) = lore_search("subject", "mm", 10, 0);
    assert_eq!(
        text(search.found(Vec::new())),
        "\u{1b}[33mInfo:\u{1b}[39m No matching emails found\n"
    );
    let mut quiet = options(0);
    quiet.mbox_output = true;
    let (_, silent) = lore_search_with_thread("subject", "mm", 10, &quiet);
    assert_eq!(text(silent.found(Vec::new())), "");
}

#[test]
fn search_lists_emails() {
    let (_, search) = lore_search("subject", "mm", 0, 0);
    let mut second = email("b", "2", Some("a"));
    second.references = Some("a z".to_string());
    second.recipients = "list".to_string();
    assert_eq!(
        text(search.found(vec![email("a", "1", None), second])),
        format!(
            "\n\u{1b}[32m2\u{1b}[39m matches found:\n\n{}\
             \u{1b}[90m2\u{1b}[39m. \u{1b}[90m2\u{1b}[39m - \u{1b}[36mRe b\u{1b}[39m\n   \
             From: \u{1b}[33mb@x\u{1b}[39m\n   Message-ID: \u{1b}[90mb\u{1b}[39m\n   \
             In-Reply-To: \u{1b}[90ma\u{1b}[39m\n   References: \u{1b}[90ma z\u{1b}[39m\n   \
             Recipients: \u{1b}[90mlist\u{1b}[39m\n\n",
            entry("\u{1b}[90m1\u{1b}[39m. ", "a", "1", None)
        )
    );
}

#[test]
fn search_tells_that_the_limit_was_reached() {
    let note = "\u{1b}[33mNote:\u{1b}[39m Result limit of 1 reached. There may be more matches.\n";
    let (_, full) = lore_search("subject", "mm", 1, 0);
    assert!(text(full.found(vec![email("a", "1", None)])).ends_with(note));
    let (_, room) = lore_search("subject", "mm", 2, 0);
    assert!(!text(room.found(vec![email("a", "1", None)])).contains("Result limit"));
    let (_, several) = lore_search_multi_field(&Vec::new(), 1, &options(0));
    assert!(!text(several.found(vec![email("a", "1", None)])).contains("Result limit"));
}

#[test]
fn verbose_search_shows_bodies() {
    let (_, search) = lore_search("subject", "mm", 0, 1);
    match search.found(vec![email("a", "1", None)]) {
        LoreShow::Bodies(entries) => {
            assert_eq!(ids(entries.emails()), vec!["a"]);
            assert_eq!(
                entries.with_bodies(&vec!["one\ntwo\n".to_string()]),
                "\n\u{1b}[32m1\u{1b}[39m matches found:\n\n\
                 \u{1b}[90m1\u{1b}[39m. \u{1b}[90m1\u{1b}[39m - \u{1b}[36mRe a\u{1b}[39m\n   \
                 From: \u{1b}[33ma@x\u{1b}[39m\n   Message-ID: \u{1b}[90ma\u{1b}[39m\n\
                 \n\u{1b}[90m   --- Message Body ---\u{1b}[39m\n   one\n   two\n\
                 \u{1b}[90m   --- End Message ---\u{1b}[39m\n\n"
            );
        }
        _ => panic!("bodies are asked for"),
    }
}

#[test]
fn search_shows_threads_and_replies() {
    let mut manner = options(2);
    manner.show_thread = true;
    let line = format!("\n\u{1b}[90m{}\u{1b}[39m\n\n", "=".repeat(80));
    let arrow = "\u{1b}[36m\u{1b}[1m===>\u{1b}[0m\u{1b}[39m";
    let found = || vec![email("a", "1", None), email("b", "2", None)];
    match lore_search_with_thread("subject", "mm", 0, &manner).1.found(found()) {
        LoreShow::Threads(text, parts, verbose) => {
            assert_eq!(verbose, 2);
            assert_eq!(text, "\n\u{1b}[32m2\u{1b}[39m matches found, showing threads:\n\n");
            assert_eq!(
                parts,
                vec![
                    (format!("{arrow} Thread 1 of 2:\n"), "a".to_string()),
                    (format!("{line}{arrow} Thread 2 of 2:\n"), "b".to_string()),
                ]
            );
        }
        _ => panic!("threads"),
    }
    match lore_search_multi_field(&Vec::new(), 0, &manner).1.found(found()) {
        LoreShow::Threads(_, parts, _) => assert_eq!(
            parts,
            vec![(String::new(), "a".to_string()), (line.clone(), "b".to_string())]
        ),
        _ => panic!("threads"),
    }
    manner.show_thread = false;
    manner.show_replies = true;
    match lore_search_multi_field(&Vec::new(), 0, &manner).1.found(found()) {
        LoreShow::Replies(text, parts, verbose) => {
            assert_eq!(verbose, 2);
            assert_eq!(text, "\n\u{1b}[32m2\u{1b}[39m matches found, showing replies:\n\n");
            assert_eq!(parts[1].0, format!("{line}{arrow} Replies 2 of 2:\n"));
        }
        _ => panic!("replies"),
    }
    manner.mbox_output = true;
    match lore_search_with_thread("subject", "mm", 0, &manner).1.found(found()) {
        LoreShow::Mbox(emails) => assert_eq!(ids(&emails), vec!["a", "b"]),
        _ => panic!("a mailbox"),
    }
}

#[test]
fn conditions_of_one_field_are_alternatives() {
    let pairs = vec![
        ("from".to_string(), "torvalds".to_string()),
        ("subject".to_string(), "mm".to_string()),
        ("from".to_string(), "morton".to_string()),
    ];
    let (start, _) = lore_search_multi_field(&pairs, 0, &options(0));
    assert_eq!(
        start,
        "Searching lore emails with conditions:\n  \
         \u{1b}[36mfrom\u{1b}[39m matches (OR): \u{1b}[33mtorvalds OR morton\u{1b}[39m\n  \
         \u{1b}[36msubject\u{1b}[39m matches: \u{1b}[33mmm\u{1b}[39m\n"
    );
    let mut quiet = options(0);
    quiet.mbox_output = true;
    assert_eq!(lore_search_multi_field(&pairs, 0, &quiet).0, "");
}

#[test]
fn lists_of_several_fields_are_brief() {
    let mut found = email("a", "1", None);
    found.references = Some("z".to_string());
    found.recipients = "list".to_string();
    let (_, search) = lore_search_multi_field(&Vec::new(), 0, &options(0));
    let shown = text(search.found(vec![found]));
    assert!(!shown.contains("References"));
    assert!(!shown.contains("Recipients"));
}

#[test]
fn look_up_shows_one_email() {
    let (start, look_up) = lore_get_by_message_id("a", 0, false, false);
    assert_eq!(look_up.wanted(), "a");
    assert_eq!(start, "Looking up email with message_id: \u{1b}[36ma\u{1b}[39m\n");
    assert_eq!(
        text(look_up.found(Some(email("a", "1", Some("p"))))),
        format!("\n\u{1b}[32mEmail found:\u{1b}[39m\n\n{}", entry("", "a", "1", Some("p")))
    );
    let (_, missing) = lore_get_by_message_id("a", 0, true, true);
    assert_eq!(
        text(missing.found(None)),
        "\u{1b}[33mInfo:\u{1b}[39m Email not found with message_id: a\n"
    );
}

#[test]
fn look_up_goes_by_the_options() {
    match lore_get_by_message_id("a", 3, true, true).1.found(Some(email("a", "1", None))) {
        LoreShow::Threads(text, parts, verbose) => {
            assert_eq!(verbose, 3);
            assert_eq!(text, "\n");
            assert_eq!(parts, vec![(String::new(), "a".to_string())]);
        }
        _ => panic!("the thread comes first"),
    }
    match lore_get_by_message_id("a", 0, false, true).1.found(Some(email("a", "1", None))) {
        LoreShow::Replies(text, parts, verbose) => {
            assert_eq!(verbose, 0);
            assert_eq!(text, "\n");
            assert_eq!(parts, vec![(String::new(), "a".to_string())]);
        }
        _ => panic!("the replies"),
    }
    match lore_get_by_message_id("a", 1, false, false).1.found(Some(email("a", "1", None))) {
        LoreShow::Bodies(entries) => assert_eq!(ids(entries.emails()), vec!["a"]),
        _ => panic!("the body is asked for"),
    }
    let mut manner = options(0);
    manner.mbox_output = true;
    manner.show_thread = true;
    let (start, look_up) = lore_get_by_message_id_with_options("a", &manner);
    assert_eq!(start, "");
    match look_up.found(Some(email("a", "1", None))) {
        LoreShow::Mbox(emails) => assert_eq!(ids(&emails), vec!["a"]),
        _ => panic!("a mailbox"),
    }
}

/// Walks through a thread: all texts, what is shown, and the ids that were asked for.
fn walk(start: ThreadStep, archive: &[LoreEmailInfo]) -> (String, LoreShow, Vec<String>) {
    let message = |id: &str| archive.iter().find(|e| e.message_id == id).map(|e| e.copied());
    let referring = |id: &str| -> Vec<LoreEmailInfo> {
        archive
            .iter()
            .filter(|e| {
                e.in_reply_to.as_deref() == Some(id)
                    || e.references.as_deref().map_or(false, |r| r.split(' ').any(|x| x == id))
            })
            .map(|e| e.copied())
            .collect()
    };
    let mut texts = String::new();
    let mut asked = Vec::new();
    let mut step = start;
    loop {
        step = match step {
            ThreadStep::Show(text, show) => {
                texts.push_str(&text);
                return (texts, show, asked);
            }
            ThreadStep::Message(text, wait) => {
                texts.push_str(&text);
                asked.push(format!("message {}", wait.wanted()));
                let found = message(wait.wanted());
                wait.email(found)
            }
            ThreadStep::Answered(wait) => {
                asked.push(format!("message {}", wait.wanted()));
                let found = message(wait.wanted());
                wait.email(found)
            }
            ThreadStep::Referring(text, wait) => {
                texts.push_str(&text);
                asked.push(format!("referring {}", wait.wanted()));
                let found = referring(wait.wanted());
                wait.emails(&found)
            }
        };
    }
}

#[test]
fn thread_is_found_from_its_middle() {
    let archive = vec![
        email("root", "1", Some("lost")),
        email("a", "3", Some("root")),
        email("b", "2", Some("root")),
        email("c", "4", Some("a")),
        email("other", "0", None),
    ];
    let (texts, show, asked) = walk(lore_show_thread("c", 0), &archive);
    assert_eq!(
        texts,
        "Finding thread root for message: \u{1b}[36mc\u{1b}[39m\n\
         Found thread root: \u{1b}[90mroot\u{1b}[39m\n"
    );
    assert_eq!(
        asked,
        vec![
            "message c",
            "message a",
            "message root",
            "message lost",
            "referring root",
            "referring a",
            "referring b",
            "referring c",
        ]
    );
    let number = |n: usize| format!("\u{1b}[90m{n}\u{1b}[39m. ");
    assert_eq!(
        text(show),
        format!(
            "\n\u{1b}[32m\u{1b}[1mThread:\u{1b}[0m\u{1b}[39m Found 4 message(s) in thread:\n\n\
             {}{}{}{}",
            entry(&number(1), "root", "1", Some("lost")),
            entry(&number(2), "b", "2", Some("root")),
            entry(&number(3), "a", "3", Some("root")),
            entry(&number(4), "c", "4", Some("a")),
        )
    );
}

#[test]
fn circle_of_answers_ends() {
    let archive = vec![email("a", "1", Some("b")), email("b", "2", Some("a"))];
    let (texts, _, asked) = walk(lore_show_thread("a", 0), &archive);
    assert!(texts.ends_with("Found thread root: \u{1b}[90mb\u{1b}[39m\n"));
    assert_eq!(
        asked,
        vec!["message a", "message b", "referring b", "referring a"]
    );
}

#[test]
fn message_that_refers_twice_is_taken_once() {
    let mut both = email("c", "3", Some("b"));
    both.references = Some("a b".to_string());
    let archive = vec![email("a", "1", None), email("b", "2", Some("a")), both];
    let (_, show, asked) = walk(lore_show_replies("a", 1), &archive);
    assert_eq!(
        asked,
        vec!["message a", "referring a", "referring b", "referring c"]
    );
    match show {
        LoreShow::Bodies(entries) => assert_eq!(ids(entries.emails()), vec!["a", "b", "c"]),
        _ => panic!("bodies are asked for"),
    }
}

#[test]
fn replies_are_shown_without_ancestors() {
    let archive = vec![
        email("root", "1", None),
        email("a", "2", Some("root")),
        email("b", "3", Some("a")),
    ];
    let (texts, show, _) = walk(lore_show_replies("a", 0), &archive);
    assert_eq!(texts, "Finding all replies to message: \u{1b}[36ma\u{1b}[39m\n");
    let number = |n: usize| format!("\u{1b}[90m{n}\u{1b}[39m. ");
    assert_eq!(
        text(show),
        format!(
            "\n\u{1b}[32m\u{1b}[1mReplies:\u{1b}[0m\u{1b}[39m Found 2 message(s) \
             (including root):\n\n{}{}",
            entry(&number(1), "a", "2", Some("root")),
            entry(&number(2), "b", "3", Some("a")),
        )
    );
    let (_, alone, _) = walk(lore_show_replies("b", 0), &archive);
    assert_eq!(text(alone), "\n\u{1b}[33mInfo:\u{1b}[39m No replies found\n");
}

#[test]
fn unknown_message_is_an_error() {
    let (_, show, asked) = walk(lore_show_thread("x", 0), &[]);
    assert_eq!(
        text(show),
        "\u{1b}[31mError:\u{1b}[39m Email not found with message_id: x\n"
    );
    assert_eq!(asked, vec!["message x"]);
}

#[test]
fn emails_stand_in_thread_order() {
    let list = vec![
        email("late", "9", None),
        email("r2", "4", Some("root")),
        email("r1", "3", Some("root")),
        email("r1a", "8", Some("r1")),
        email("root", "1", None),
        email("orphan", "2", Some("gone")),
    ];
    let sorted = sort_emails_by_thread_order(&list);
    assert_eq!(ids(&sorted), vec!["root", "r1", "r1a", "r2", "orphan", "late"]);
    assert!(sort_emails_by_thread_order(&[]).is_empty());
}

#[test]
fn equal_dates_keep_the_order_of_replies_and_turn_that_of_roots() {
    let list = vec![
        email("a", "1", None),
        email("b", "1", None),
        email("x", "2", Some("a")),
        email("y", "2", Some("a")),
    ];
    let sorted = sort_emails_by_thread_order(&list);
    assert_eq!(ids(&sorted), vec!["b", "a", "x", "y"]);
}

#[test]
fn threads_are_read_by_moment_not_by_text() {
    let new = email("new", "Fri, 5 Jan 2024 00:00:00 +0000", None);
    let old = email("old", "Mon, 1 Jan 2024 00:00:00 +0000", None);
    let second = email("second", "Mon, 1 Jan 2024 12:00:00 +0000", Some("old"));
    let first = email("first", "Mon, 1 Jan 2024 10:00:00 +0900", Some("old"));
    let undated = email("undated", "someday", Some("old"));
    let list = vec![new, old, second, first, undated];
    let sorted = sort_emails_by_thread_order(&list);
    assert_eq!(ids(&sorted), vec!["old", "first", "second", "undated", "new"]);
    let again = sort_emails_by_thread_order(&sorted);
    assert_eq!(ids(&again), ids(&sorted));
    let turned: Vec<LoreEmailInfo> = list.into_iter().rev().collect();
    assert_eq!(ids(&sort_emails_by_thread_order(&turned)), ids(&sorted));
}

#[test]
fn texts_that_are_no_dates_stand_by_their_text() {
    let monday = "Mon, 1 Jan 2024 00:00:00 +0000";
    let friday = "Fri, 5 Jan 2024 00:00:00 +0000";
    let order = |dates: &[&str]| -> Vec<String> {
        let list: Vec<LoreEmailInfo> =
            dates.iter().map(|date| email(date, date, None)).collect();
        sort_emails_by_thread_order(&list).into_iter().map(|email| email.date).collect()
    };
    assert_eq!(order(&["2", "10", "1"]), vec!["1", "10", "2"]);
    assert_eq!(order(&[monday, "1"]), vec!["1", monday]);
    assert_eq!(order(&["someday", monday]), vec![monday, "someday"]);
    assert_eq!(order(&["someday", friday, monday, "1"]), vec!["1", monday, friday, "someday"]);
    assert_eq!(order(&[friday, "Go"]), vec![friday, "Go"]);
    assert_eq!(order(&["Go", monday]), vec!["Go", monday]);
    // Monday comes before Friday, although its text comes after: the text between the two
    // stands before the first date whose text comes after it.
    assert_eq!(order(&[friday, monday, "Go"]), vec!["Go", monday, friday]);
    assert_eq!(order(&["Go", friday, monday]), vec!["Go", monday, friday]);
}

#[test]
fn search_says_what_to_ask() {
    let mut dated = options(0);
    dated.since_date = Some("Mon, 1 Jan 2024 00:00:00 +0000");
    match lore_search_with_thread("subject", "mm", 7, &dated).1.query() {
        LoreQuery::Field { field, pattern, limit, since, until } => {
            assert_eq!((field.as_str(), pattern.as_str(), *limit), ("subject", "mm", 7));
            assert_eq!(since.as_deref(), dated.since_date);
            assert_eq!(*until, None);
        }
        LoreQuery::Fields { .. } => panic!("one field"),
    }
    match lore_search("from", "x", 0, 0).1.query() {
        LoreQuery::Field { field, since, until, .. } => {
            assert_eq!(field, "from");
            assert_eq!((since, until), (&None, &None));
        }
        LoreQuery::Fields { .. } => panic!("one field"),
    }
    let pairs = vec![("from".to_string(), "x".to_string()), ("body".to_string(), "y".to_string())];
    match lore_search_multi_field(&pairs, 3, &dated).1.query() {
        LoreQuery::Fields { field_patterns, limit, since, until } => {
            assert_eq!(*field_patterns, pairs);
            assert_eq!(*limit, 3);
            assert_eq!(since.as_deref(), dated.since_date);
            assert_eq!(*until, None);
        }
        LoreQuery::Field { .. } => panic!("several fields"),
    }
}
