//! What is shown of the emails that a search or a look-up found.

use vstd::prelude::*;

use crate::lists::{are_firsts, distinct, law_distinct, law_distinct_in_order};
use crate::lore::{
    conditions_text, email_text, entries_text, fields_of, lookup_shown, lookup_text, parts_of,
    patterns_for, search_shown, search_text, EntriesView, LoreShowView, Manner,
};
use crate::lore_threads::{
    after_answered, after_message, walk_text, Aim, DownView, ThreadStepView, UpView,
};
use crate::style::{in_bold, in_bright_black, in_cyan, in_green, in_red, in_yellow};
use crate::text::{decimal, joined, lines_of, together};
use crate::types::LoreEmailInfoView;

verus! {

/// The line of a header.
pub open spec fn header(name: Seq<char>, value: Seq<char>) -> Seq<char> {
    "   "@ + name + ": "@ + in_bright_black(value) + "\n"@
}

/// What stands for an email: its date and subject behind its number, its sender, its id, what
/// it answers, and where all is asked for what it refers to and who gets it; then its body,
/// line by line, and an empty line.
pub open spec fn listed_email(
    number: Option<nat>,
    email: LoreEmailInfoView,
    full: bool,
    body: Option<Seq<char>>,
) -> Seq<char> {
    (if number is Some {
        in_bright_black(decimal(number->Some_0)) + ". "@
    } else {
        ""@
    }) + in_bright_black(email.date) + " - "@ + in_cyan(email.subject) + "\n"@ + "   From: "@
        + in_yellow(email.from) + "\n"@ + header("Message-ID"@, email.message_id) + (
    if email.in_reply_to is Some {
        header("In-Reply-To"@, email.in_reply_to->Some_0)
    } else {
        ""@
    }) + (if full && email.references is Some {
        header("References"@, email.references->Some_0)
    } else {
        ""@
    }) + (if full && email.recipients.len() > 0 {
        header("Recipients"@, email.recipients)
    } else {
        ""@
    }) + (if body is Some {
        "\n"@ + in_bright_black("   --- Message Body ---"@) + "\n"@ + together(
            Seq::new(
                lines_of(body->Some_0).len(),
                |i: int| "   "@ + lines_of(body->Some_0)[i] + "\n"@,
            ),
        ) + in_bright_black("   --- End Message ---"@) + "\n"@
    } else {
        ""@
    }) + "\n"@
}

proof fn lemma_listed(
    number: Option<nat>,
    email: LoreEmailInfoView,
    full: bool,
    body: Option<Seq<char>>,
)
    ensures
        email_text(number, email, full, body) == listed_email(number, email, full, body),
{
    match body {
        Some(body) => {
            assert(lines_of(body).map_values(|line: Seq<char>| "   "@ + line + "\n"@)
                =~= Seq::new(lines_of(body).len(), |i: int| "   "@ + lines_of(body)[i] + "\n"@));
        },
        None => {},
    }
}

/// Emails, each once and in their order, numbered from one where that is asked for, and each
/// with its own body where there are bodies, between a head and a tail.
pub open spec fn listed(
    head: Seq<char>,
    emails: Seq<LoreEmailInfoView>,
    numbered: bool,
    full: bool,
    bodies: Option<Seq<Seq<char>>>,
    tail: Seq<char>,
) -> Seq<char> {
    head + together(
        Seq::new(
            emails.len(),
            |i: int|
                listed_email(
                    if numbered {
                        Some((i + 1) as nat)
                    } else {
                        None
                    },
                    emails[i],
                    full,
                    if bodies is Some {
                        Some(bodies->Some_0[i])
                    } else {
                        None
                    },
                ),
        ),
    ) + tail
}

/// A list of emails shows each of them, in their order, and with bodies each with its own.
pub proof fn law_entries_are_listed(entries: EntriesView, bodies: Option<Seq<Seq<char>>>)
    ensures
        entries_text(entries, bodies) == listed(
            entries.head,
            entries.emails,
            entries.numbered,
            entries.full,
            bodies,
            entries.tail,
        ),
{
    let emails = entries.emails;
    let shown = Seq::new(
        emails.len(),
        |i: int|
            email_text(
                crate::lore::number_at(entries.numbered, i),
                emails[i],
                entries.full,
                crate::lore::body_at(bodies, i),
            ),
    );
    let wanted = Seq::new(
        emails.len(),
        |i: int|
            listed_email(
                if entries.numbered {
                    Some((i + 1) as nat)
                } else {
                    None
                },
                emails[i],
                entries.full,
                if bodies is Some {
                    Some(bodies->Some_0[i])
                } else {
                    None
                },
            ),
    );
    assert forall|i: int| 0 <= i < emails.len() implies #[trigger] shown[i] == wanted[i] by {
        lemma_listed(
            crate::lore::number_at(entries.numbered, i),
            emails[i],
            entries.full,
            crate::lore::body_at(bodies, i),
        );
    }
    assert(shown =~= wanted);
}

/// Whether `shown` comes to a list of emails: as a text without bodies, or as one that asks
/// for the bodies.
pub open spec fn comes_to_list(
    shown: LoreShowView,
    bodies: bool,
    head: Seq<char>,
    emails: Seq<LoreEmailInfoView>,
    numbered: bool,
    full: bool,
    tail: Seq<char>,
) -> bool {
    if bodies {
        shown == LoreShowView::Bodies(EntriesView { head, emails, numbered, full, tail })
    } else {
        shown == LoreShowView::Text(listed(head, emails, numbered, full, None, tail))
    }
}

/// What follows on the number of emails found.
pub open spec fn found_line(count: nat, rest: Seq<char>) -> Seq<char> {
    "\n"@ + in_green(decimal(count)) + " matches found"@ + rest + ":\n\n"@
}

/// Whether `parts` name emails, each once and in their order, with a dividing line before each
/// but the first and, where `what` is given, which of how many it is.
pub open spec fn are_parts(
    parts: Seq<(Seq<char>, Seq<char>)>,
    emails: Seq<LoreEmailInfoView>,
    what: Option<Seq<char>>,
) -> bool {
    &&& parts.len() == emails.len()
    &&& forall|i: int|
        0 <= i < parts.len() ==> (#[trigger] parts[i]).1 == emails[i].message_id && parts[i].0 == (
        if i > 0 {
            "\n"@ + in_bright_black(Seq::new(80, |k: int| '=')) + "\n\n"@
        } else {
            ""@
        }) + (if what is Some {
            in_cyan(in_bold("===>"@)) + " "@ + what->Some_0 + " "@ + decimal((i + 1) as nat)
                + " of "@ + decimal(emails.len()) + ":\n"@
        } else {
            ""@
        })
}

proof fn lemma_parts(emails: Seq<LoreEmailInfoView>, what: Option<Seq<char>>)
    ensures
        are_parts(parts_of(emails, what), emails, what),
{
    reveal_strlit("");
    let parts = parts_of(emails, what);
    assert(Seq::new(80, |k: int| '=') =~= Seq::new(
        crate::lore::DIVIDER as nat,
        |i: int| '=',
    ));
    assert forall|i: int| 0 <= i < parts.len() implies (#[trigger] parts[i]).1
        == emails[i].message_id && parts[i].0 == (if i > 0 {
        "\n"@ + in_bright_black(Seq::new(80, |k: int| '=')) + "\n\n"@
    } else {
        ""@
    }) + (if what is Some {
        in_cyan(in_bold("===>"@)) + " "@ + what->Some_0 + " "@ + decimal((i + 1) as nat) + " of "@
            + decimal(emails.len()) + ":\n"@
    } else {
        ""@
    }) by {
        let line = if i > 0 {
            "\n"@ + in_bright_black(Seq::new(80, |k: int| '=')) + "\n\n"@
        } else {
            ""@
        };
        match what {
            Some(what) => {
                assert(parts[i].0 =~= line + (in_cyan(in_bold("===>"@)) + " "@ + what + " "@
                    + decimal((i + 1) as nat) + " of "@ + decimal(emails.len()) + ":\n"@));
            },
            None => {
                assert(parts[i].0 =~= line + ""@);
            },
        }
    }
}

/// A search shows every email it found, in their order: as a mailbox where that is asked for;
/// else the thread of each where that is asked for; else the replies to each where that is
/// asked for; else in a numbered list, with bodies from verbosity one on. Where none was found
/// it says so, but not into a mailbox. A search in one field says that the limit was reached.
pub proof fn law_search_is_shown(
    emails: Seq<LoreEmailInfoView>,
    manner: Manner,
    several_fields: bool,
    limit: nat,
)
    ensures
        ({
            let shown = search_shown(emails, manner, several_fields, limit);
            let count = emails.len();
            &&& count == 0 && !manner.mbox ==> shown == LoreShowView::Text(
                in_yellow("Info:"@) + " No matching emails found\n"@,
            )
            &&& count == 0 && manner.mbox ==> shown == LoreShowView::Text(""@)
            &&& count > 0 && manner.mbox ==> shown == LoreShowView::Mbox(emails)
            &&& count > 0 && !manner.mbox && manner.threads ==> (
            shown matches LoreShowView::Threads(text, parts, verbose) && text == found_line(
                count,
                ", showing threads"@,
            ) && verbose == manner.verbose && are_parts(
                parts,
                emails,
                if several_fields {
                    None
                } else {
                    Some("Thread"@)
                },
            ))
            &&& count > 0 && !manner.mbox && !manner.threads && manner.replies ==> (
            shown matches LoreShowView::Replies(text, parts, verbose) && text == found_line(
                count,
                ", showing replies"@,
            ) && verbose == manner.verbose && are_parts(parts, emails, Some("Replies"@)))
            &&& count > 0 && !manner.mbox && !manner.threads && !manner.replies ==> comes_to_list(
                shown,
                manner.verbose >= 1,
                found_line(count, ""@),
                emails,
                true,
                !several_fields,
                if !several_fields && limit > 0 && count >= limit {
                    in_yellow("Note:"@) + " Result limit of "@ + decimal(limit)
                        + " reached. There may be more matches.\n"@
                } else {
                    ""@
                },
            )
        }),
{
    lemma_parts(emails, Some("Thread"@));
    lemma_parts(emails, Some("Replies"@));
    lemma_parts(emails, None);
    let tail = if several_fields {
        ""@
    } else {
        crate::lore::limit_note(limit, emails.len())
    };
    law_entries_are_listed(
        EntriesView {
            head: found_line(emails.len(), ""@),
            emails,
            numbered: true,
            full: !several_fields,
            tail,
        },
        None,
    );
}

/// A look-up shows the email it found: as a mailbox where that is asked for; else its thread
/// where that is asked for; else the replies to it where that is asked for; else by itself,
/// with its body from verbosity one on. Where none was found it says so.
pub proof fn law_lookup_is_shown(
    message_id: Seq<char>,
    email: Option<LoreEmailInfoView>,
    manner: Manner,
)
    ensures
        ({
            let shown = lookup_shown(message_id, email, manner);
            &&& email is None ==> shown == LoreShowView::Text(
                in_yellow("Info:"@) + " Email not found with message_id: "@ + message_id + "\n"@,
            )
            &&& email is Some && manner.mbox ==> shown == LoreShowView::Mbox(
                seq![email->Some_0],
            )
            &&& email is Some && !manner.mbox && manner.threads ==> shown == LoreShowView::Threads(
                "\n"@,
                seq![(""@, email->Some_0.message_id)],
                manner.verbose,
            )
            &&& email is Some && !manner.mbox && !manner.threads && manner.replies ==> shown
                == LoreShowView::Replies(
                "\n"@,
                seq![(""@, email->Some_0.message_id)],
                manner.verbose,
            )
            &&& email is Some && !manner.mbox && !manner.threads && !manner.replies
                ==> comes_to_list(
                shown,
                manner.verbose >= 1,
                "\n"@ + in_green("Email found:"@) + "\n\n"@,
                seq![email->Some_0],
                false,
                true,
                ""@,
            )
        }),
{
    if email is Some {
        law_entries_are_listed(
            EntriesView {
                head: "\n"@ + in_green("Email found:"@) + "\n\n"@,
                emails: seq![email->Some_0],
                numbered: false,
                full: true,
                tail: ""@,
            },
            None,
        );
    }
}

/// The patterns given for a field, in their order.
pub open spec fn given_for(pairs: Seq<(Seq<char>, Seq<char>)>, field: Seq<char>) -> Seq<Seq<char>> {
    pairs.filter(|pair: (Seq<char>, Seq<char>)| pair.0 == field).map_values(
        |pair: (Seq<char>, Seq<char>)| pair.1,
    )
}

proof fn lemma_given_for(pairs: Seq<(Seq<char>, Seq<char>)>, field: Seq<char>)
    ensures
        patterns_for(pairs, field) == given_for(pairs, field),
    decreases pairs.len(),
{
    reveal(Seq::filter);
    if pairs.len() > 0 {
        lemma_given_for(pairs.drop_last(), field);
        let kept = pairs.drop_last().filter(|pair: (Seq<char>, Seq<char>)| pair.0 == field);
        let second = |pair: (Seq<char>, Seq<char>)| pair.1;
        assert(kept.push(pairs.last()).map_values(second) =~= kept.map_values(second).push(
            pairs.last().1,
        ));
        assert(patterns_for(pairs, field) =~= given_for(pairs, field));
    } else {
        assert(patterns_for(pairs, field) =~= given_for(pairs, field));
    }
}

/// The fields of `pairs`, one for each.
pub open spec fn field_names(pairs: Seq<(Seq<char>, Seq<char>)>) -> Seq<Seq<char>> {
    Seq::new(pairs.len(), |i: int| pairs[i].0)
}

/// Whether `fields` are the fields of `pairs`, each once and as they were first given.
pub open spec fn are_fields(fields: Seq<Seq<char>>, pairs: Seq<(Seq<char>, Seq<char>)>) -> bool {
    &&& fields.no_duplicates()
    &&& exists|firsts: Seq<int>| #[trigger]
        are_firsts(firsts, field_names(pairs)) && fields == Seq::new(
            firsts.len(),
            |a: int| pairs[firsts[a]].0,
        )
    &&& forall|field: Seq<char>| #[trigger]
        fields.contains(field) <==> exists|i: int|
            0 <= i < pairs.len() && (#[trigger] pairs[i]).0 == field
}

/// A search in several fields first says what it looks for: each field that is given, once,
/// with all the patterns given for it, one of which an email has to match. Into a mailbox it
/// says nothing.
pub proof fn law_conditions_are_told(pairs: Seq<(Seq<char>, Seq<char>)>, mbox: bool)
    ensures
        mbox ==> conditions_text(pairs, mbox) == ""@,
        !mbox ==> exists|fields: Seq<Seq<char>>| #[trigger]
            are_fields(fields, pairs) && conditions_text(pairs, mbox)
                == "Searching lore emails with conditions:\n"@ + together(
                Seq::new(
                    fields.len(),
                    |i: int|
                        "  "@ + in_cyan(fields[i]) + (if given_for(pairs, fields[i]).len() == 1 {
                            " matches: "@ + in_yellow(given_for(pairs, fields[i])[0])
                        } else {
                            " matches (OR): "@ + in_yellow(
                                joined(given_for(pairs, fields[i]), " OR "@),
                            )
                        }) + "\n"@,
                ),
            ),
{
    let names = pairs.map_values(|pair: (Seq<char>, Seq<char>)| pair.0);
    let fields = fields_of(pairs);
    assert(fields == distinct(names));
    law_distinct(names);
    law_distinct_in_order(names);
    assert(names =~= field_names(pairs));
    let firsts = choose|firsts: Seq<int>| #[trigger]
        are_firsts(firsts, names) && fields == Seq::new(
            firsts.len(),
            |a: int| names[firsts[a]],
        );
    assert(fields =~= Seq::new(firsts.len(), |a: int| pairs[firsts[a]].0));
    assert(are_firsts(firsts, field_names(pairs)));
    assert forall|field: Seq<char>| #[trigger] fields.contains(field) <==> exists|i: int|
        0 <= i < pairs.len() && (#[trigger] pairs[i]).0 == field by {
        if names.contains(field) {
            let i = choose|i: int| 0 <= i < names.len() && names[i] == field;
            assert(pairs[i].0 == field);
        }
        if exists|i: int| 0 <= i < pairs.len() && (#[trigger] pairs[i]).0 == field {
            let i = choose|i: int| 0 <= i < pairs.len() && (#[trigger] pairs[i]).0 == field;
            assert(names[i] == field);
        }
    }
    assert(are_fields(fields, pairs));
    let told = fields.map_values(
        |field: Seq<char>| crate::lore::condition_line(field, patterns_for(pairs, field)),
    );
    let wanted = Seq::new(
        fields.len(),
        |i: int|
            "  "@ + in_cyan(fields[i]) + (if given_for(pairs, fields[i]).len() == 1 {
                " matches: "@ + in_yellow(given_for(pairs, fields[i])[0])
            } else {
                " matches (OR): "@ + in_yellow(joined(given_for(pairs, fields[i]), " OR "@))
            }) + "\n"@,
    );
    assert forall|i: int| 0 <= i < fields.len() implies #[trigger] told[i] == wanted[i] by {
        lemma_given_for(pairs, fields[i]);
        assert(told[i] =~= wanted[i]);
    }
    assert(told =~= wanted);
}

/// A walk through a thread first says what it looks for; it says so where the message is not
/// there; and where the thread starts, once it is there: at a message that answers none, or
/// one that is not there, or one that was passed.
pub proof fn law_walk_is_told(
    aim: Aim,
    message_id: Seq<char>,
    walk: UpView,
    email: Option<LoreEmailInfoView>,
)
    ensures
        walk_text(message_id, true) == "Finding thread root for message: "@ + in_cyan(message_id)
            + "\n"@,
        walk_text(message_id, false) == "Finding all replies to message: "@ + in_cyan(message_id)
            + "\n"@,
        after_message(aim, message_id, None) == ThreadStepView::Show(
            ""@,
            LoreShowView::Text(
                in_red("Error:"@) + " Email not found with message_id: "@ + message_id + "\n"@,
            ),
        ),
        ({
            let reached = match email {
                Some(email) => email,
                None => walk.email,
            };
            let goes_on = email is Some && reached.in_reply_to is Some && !(reached.in_reply_to
                == Some(reached.message_id)) && !walk.passed.contains(reached.in_reply_to->Some_0);
            let step = after_answered(walk, email);
            &&& goes_on <==> step is Answered
            &&& step matches ThreadStepView::Answered(up) ==> up.email == reached && up.aim
                == walk.aim && up.passed == walk.passed.push(reached.message_id)
            &&& !goes_on ==> step == ThreadStepView::Referring(
                "Found thread root: "@ + in_bright_black(reached.message_id) + "\n"@,
                DownView { aim: walk.aim, emails: seq![reached], at: 0 },
            )
        }),
{
    match email {
        Some(email) => {
            let passed = walk.passed.push(email.message_id);
            match email.in_reply_to {
                Some(parent) => {
                    assert(passed.contains(parent) <==> walk.passed.contains(parent) || parent
                        == email.message_id) by {
                        if walk.passed.contains(parent) {
                            let k = choose|k: int|
                                0 <= k < walk.passed.len() && walk.passed[k] == parent;
                            assert(passed[k] == parent);
                        }
                        if parent == email.message_id {
                            assert(passed[passed.len() - 1] == parent);
                        }
                    }
                },
                None => {},
            }
        },
        None => {},
    }
}

/// A search in one field and a look-up first say what they look for, but not into a mailbox.
pub proof fn law_search_is_told(field: Seq<char>, pattern: Seq<char>, message_id: Seq<char>)
    ensures
        search_text(field, pattern, false) == "Searching lore emails where "@ + in_cyan(field)
            + " matches pattern: "@ + in_yellow(pattern) + "\n"@,
        lookup_text(message_id, false) == "Looking up email with message_id: "@ + in_cyan(
            message_id,
        ) + "\n"@,
        search_text(field, pattern, true) == ""@,
        lookup_text(message_id, true) == ""@,
{
}

} // verus!
