//! Searches in a mailing list archive: what is shown of the emails that were found.

use vstd::prelude::*;
use vstd::string::*;

use crate::database::lore_fields::str_or_none;
use crate::lists::{distinct, distinct_texts};
use crate::style::{
    bold, bright_black, cyan, green, in_bold, in_bright_black, in_cyan, in_green, in_yellow, yellow,
};
use crate::text::{
    decimal, join, joined, lines, lines_of, number, put_together, same_text, texts, together,
};
use crate::types::{emails_view, text_or_none, LoreEmailInfo, LoreEmailInfoView};

verus! {

/// Options for searching and showing emails.
#[derive(Debug, Clone)]
pub struct LoreSearchOptions<'a> {
    pub verbose: usize,
    pub show_thread: bool,
    pub show_replies: bool,
    pub replies_only: bool,
    pub since_date: Option<&'a str>,
    pub until_date: Option<&'a str>,
    pub mbox_output: bool,
    pub snip_output: bool,
}

/// How emails are shown.
#[derive(Clone, Copy)]
pub struct Manner {
    /// How much is shown; from one on, the bodies too.
    pub verbose: usize,
    /// Whether the thread of each email is shown.
    pub threads: bool,
    /// Whether the replies to each email are shown.
    pub replies: bool,
    /// Whether the emails are written as a mailbox.
    pub mbox: bool,
}

impl<'a> LoreSearchOptions<'a> {
    /// How the options say that emails are shown.
    pub open spec fn manner(&self) -> Manner {
        Manner {
            verbose: self.verbose,
            threads: self.show_thread,
            replies: self.show_replies,
            mbox: self.mbox_output,
        }
    }
}

/// The lines of an optional header.
pub open spec fn header_line(name: Seq<char>, value: Option<Seq<char>>) -> Seq<char> {
    match value {
        Some(value) => "   "@ + name + ": "@ + in_bright_black(value) + "\n"@,
        None => ""@,
    }
}

/// What is shown of a body.
pub open spec fn body_text(body: Option<Seq<char>>) -> Seq<char> {
    match body {
        Some(body) => "\n"@ + in_bright_black("   --- Message Body ---"@) + "\n"@ + together(
            lines_of(body).map_values(|line: Seq<char>| "   "@ + line + "\n"@),
        ) + in_bright_black("   --- End Message ---"@) + "\n"@,
        None => ""@,
    }
}

/// The first line of an email, behind its number where it has one.
pub open spec fn email_head(number: Option<nat>, email: LoreEmailInfoView) -> Seq<char> {
    let counted = match number {
        Some(number) => in_bright_black(decimal(number)) + ". "@,
        None => ""@,
    };
    counted + in_bright_black(email.date) + " - "@ + in_cyan(email.subject) + "\n"@
}

/// What is shown of an email. The references and the recipients are left out where
/// `full` is false.
pub open spec fn email_text(
    number: Option<nat>,
    email: LoreEmailInfoView,
    full: bool,
    body: Option<Seq<char>>,
) -> Seq<char> {
    let references = if full {
        header_line("References"@, email.references)
    } else {
        ""@
    };
    let recipients = if full && email.recipients.len() > 0 {
        header_line("Recipients"@, Some(email.recipients))
    } else {
        ""@
    };
    email_head(number, email) + "   From: "@ + in_yellow(email.from) + "\n"@ + header_line(
        "Message-ID"@,
        Some(email.message_id),
    ) + header_line("In-Reply-To"@, email.in_reply_to) + references + recipients + body_text(body)
        + "\n"@
}

/// The number of the email at `i`, where emails are numbered.
pub open spec fn number_at(numbered: bool, i: int) -> Option<nat> {
    if numbered {
        Some((i + 1) as nat)
    } else {
        None
    }
}

/// The body of the email at `i`, where bodies are shown.
pub open spec fn body_at(bodies: Option<Seq<Seq<char>>>, i: int) -> Option<Seq<char>> {
    match bodies {
        Some(bodies) => Some(bodies[i]),
        None => None,
    }
}

/// A list of emails with what stands before and behind it.
#[verifier::ext_equal]
pub struct EntriesView {
    pub head: Seq<char>,
    pub emails: Seq<LoreEmailInfoView>,
    pub numbered: bool,
    pub full: bool,
    pub tail: Seq<char>,
}

/// What is shown of a list of emails.
pub open spec fn entries_text(entries: EntriesView, bodies: Option<Seq<Seq<char>>>) -> Seq<char> {
    entries.head + together(
        Seq::new(
            entries.emails.len(),
            |i: int|
                email_text(
                    number_at(entries.numbered, i),
                    entries.emails[i],
                    entries.full,
                    body_at(bodies, i),
                ),
        ),
    ) + entries.tail
}

fn write_header(name: &str, value: &Option<String>) -> (text: String)
    ensures
        text@ == header_line(
            name@,
            match *value {
                Some(value) => Some(value@),
                None => None,
            },
        ),
{
    match value {
        Some(value) => String::from_str("   ").concat(name).concat(": ").concat(
            bright_black(value.as_str()).as_str(),
        ).concat("\n"),
        None => String::from_str(""),
    }
}

fn write_required_header(name: &str, value: &str) -> (text: String)
    ensures
        text@ == header_line(name@, Some(value@)),
{
    String::from_str("   ").concat(name).concat(": ").concat(bright_black(value).as_str()).concat(
        "\n",
    )
}

fn write_body(body: &str) -> (text: String)
    ensures
        text@ == body_text(Some(body@)),
{
    let list = lines(body);
    let ghost expected = lines_of(body@).map_values(|line: Seq<char>| "   "@ + line + "\n"@);
    let mut rows: Vec<String> = Vec::new();
    let mut i: usize = 0;
    while i < list.len()
        invariant
            i <= list@.len(),
            texts(list@) == lines_of(body@),
            expected == lines_of(body@).map_values(|line: Seq<char>| "   "@ + line + "\n"@),
            texts(rows@) == expected.take(i as int),
        decreases list@.len() - i,
    {
        let ghost before = texts(rows@);
        let row = String::from_str("   ").concat(list[i].as_str()).concat("\n");
        assert(texts(list@)[i as int] == list@[i as int]@);
        assert(row@ == expected[i as int]);
        rows.push(row);
        assert(texts(rows@) =~= before.push(expected[i as int]));
        assert(expected.take(i + 1) =~= before.push(expected[i as int]));
        i = i + 1;
    }
    assert(texts(list@).len() == list@.len());
    assert(expected.take(i as int) =~= expected);
    String::from_str("\n").concat(bright_black("   --- Message Body ---").as_str()).concat(
        "\n",
    ).concat(put_together(&rows).as_str()).concat(
        bright_black("   --- End Message ---").as_str(),
    ).concat("\n")
}

/// Writes what is shown of an email.
fn write_email(place: usize, numbered: bool, email: &LoreEmailInfo, full: bool, body: Option<
    &String,
>) -> (text: String)
    requires
        place < usize::MAX,
    ensures
        text@ == email_text(
            number_at(numbered, place as int),
            email@,
            full,
            match body {
                Some(body) => Some(body@),
                None => None,
            },
        ),
{
    let counted = if numbered {
        bright_black(number(place + 1).as_str()).concat(". ")
    } else {
        String::from_str("")
    };
    let head = counted.concat(bright_black(email.date.as_str()).as_str()).concat(" - ").concat(
        cyan(email.subject.as_str()).as_str(),
    ).concat("\n");
    let references = if full {
        write_header("References", &email.references)
    } else {
        String::from_str("")
    };
    assert(email.recipients@.len() > 0 <==> !(email.recipients@ =~= ""@)) by {
        reveal_strlit("");
    }
    let recipients = if full && !same_text(email.recipients.as_str(), "") {
        write_required_header("Recipients", email.recipients.as_str())
    } else {
        String::from_str("")
    };
    let shown = match body {
        Some(body) => write_body(body.as_str()),
        None => String::from_str(""),
    };
    head.concat("   From: ").concat(yellow(email.from.as_str()).as_str()).concat("\n").concat(
        write_required_header("Message-ID", email.message_id.as_str()).as_str(),
    ).concat(write_header("In-Reply-To", &email.in_reply_to).as_str()).concat(
        references.as_str(),
    ).concat(recipients.as_str()).concat(shown.as_str()).concat("\n")
}

/// A list of emails that is shown once the bodies are there.
pub struct Entries {
    head: String,
    emails: Vec<LoreEmailInfo>,
    numbered: bool,
    full: bool,
    tail: String,
}

impl View for Entries {
    type V = EntriesView;

    closed spec fn view(&self) -> EntriesView {
        EntriesView {
            head: self.head@,
            emails: emails_view(self.emails@),
            numbered: self.numbered,
            full: self.full,
            tail: self.tail@,
        }
    }
}

impl Entries {
    pub(crate) fn new(
        head: String,
        emails: Vec<LoreEmailInfo>,
        numbered: bool,
        full: bool,
        tail: String,
    ) -> (entries: Entries)
        ensures
            entries@ == (EntriesView {
                head: head@,
                emails: emails_view(emails@),
                numbered,
                full,
                tail: tail@,
            }),
    {
        Entries { head, emails, numbered, full, tail }
    }

    /// The emails whose bodies are shown.
    pub fn emails(&self) -> (emails: &Vec<LoreEmailInfo>)
        ensures
            emails_view(emails@) == self@.emails,
    {
        &self.emails
    }

    /// What is shown with the bodies, one for each email.
    pub fn with_bodies(&self, bodies: &Vec<String>) -> (text: String)
        requires
            bodies@.len() == self@.emails.len(),
        ensures
            text@ == entries_text(self@, Some(texts(bodies@))),
    {
        self.write(Some(bodies))
    }

    /// What is shown without the bodies.
    pub fn without_bodies(&self) -> (text: String)
        ensures
            text@ == entries_text(self@, None),
    {
        self.write(None)
    }

    fn write(&self, bodies: Option<&Vec<String>>) -> (text: String)
        requires
            bodies matches Some(bodies) ==> bodies@.len() == self.emails@.len(),
        ensures
            text@ == entries_text(
                self@,
                match bodies {
                    Some(bodies) => Some(texts(bodies@)),
                    None => None,
                },
            ),
    {
        let ghost shown = match bodies {
            Some(bodies) => Some(texts(bodies@)),
            None => None,
        };
        let ghost entries = self@;
        let ghost expected = Seq::new(
            entries.emails.len(),
            |i: int|
                email_text(
                    number_at(entries.numbered, i),
                    entries.emails[i],
                    entries.full,
                    body_at(shown, i),
                ),
        );
        let mut rows: Vec<String> = Vec::new();
        let mut i: usize = 0;
        while i < self.emails.len()
            invariant
                i <= self.emails@.len(),
                entries == self@,
                bodies matches Some(bodies) ==> bodies@.len() == self.emails@.len(),
                shown == (match bodies {
                    Some(bodies) => Some(texts(bodies@)),
                    None => None,
                }),
                expected == Seq::new(
                    entries.emails.len(),
                    |i: int|
                        email_text(
                            number_at(entries.numbered, i),
                            entries.emails[i],
                            entries.full,
                            body_at(shown, i),
                        ),
                ),
                texts(rows@) == expected.take(i as int),
            decreases self.emails@.len() - i,
        {
            let ghost before = texts(rows@);
            let body = match bodies {
                Some(bodies) => Some(&bodies[i]),
                None => None,
            };
            let row = write_email(i, self.numbered, &self.emails[i], self.full, body);
            assert(row@ == expected[i as int]);
            rows.push(row);
            assert(texts(rows@) =~= before.push(expected[i as int]));
            assert(expected.take(i + 1) =~= before.push(expected[i as int]));
            i = i + 1;
        }
        assert(expected.take(i as int) =~= expected);
        self.head.clone().concat(put_together(&rows).as_str()).concat(self.tail.as_str())
    }
}

/// What is shown of the emails that were found.
pub enum LoreShow {
    /// A text.
    Text(String),
    /// The emails, as a mailbox.
    Mbox(Vec<LoreEmailInfo>),
    /// A text; then, for each entry, its text and the thread of its message, with as
    /// much as the number says.
    Threads(String, Vec<(String, String)>, usize),
    /// A text; then, for each entry, its text and the replies to its message, with as
    /// much as the number says.
    Replies(String, Vec<(String, String)>, usize),
    /// The emails with their bodies.
    Bodies(Entries),
}

#[verifier::ext_equal]
pub enum LoreShowView {
    Text(Seq<char>),
    Mbox(Seq<LoreEmailInfoView>),
    Threads(Seq<char>, Seq<(Seq<char>, Seq<char>)>, usize),
    Replies(Seq<char>, Seq<(Seq<char>, Seq<char>)>, usize),
    Bodies(EntriesView),
}

/// The contents of a list of pairs of texts.
pub open spec fn text_pairs(pairs: Seq<(String, String)>) -> Seq<(Seq<char>, Seq<char>)> {
    pairs.map_values(|pair: (String, String)| (pair.0@, pair.1@))
}

impl View for LoreShow {
    type V = LoreShowView;

    open spec fn view(&self) -> LoreShowView {
        match *self {
            LoreShow::Text(text) => LoreShowView::Text(text@),
            LoreShow::Mbox(emails) => LoreShowView::Mbox(emails_view(emails@)),
            LoreShow::Threads(text, list, verbose) => LoreShowView::Threads(
                text@,
                text_pairs(list@),
                verbose,
            ),
            LoreShow::Replies(text, list, verbose) => LoreShowView::Replies(
                text@,
                text_pairs(list@),
                verbose,
            ),
            LoreShow::Bodies(entries) => LoreShowView::Bodies(entries@),
        }
    }
}

/// A list of emails, with the bodies asked for where they are shown.
pub open spec fn shown_entries(entries: EntriesView, bodies: bool) -> LoreShowView {
    if bodies {
        LoreShowView::Bodies(entries)
    } else {
        LoreShowView::Text(entries_text(entries, None))
    }
}

/// How many signs a dividing line has.
pub const DIVIDER: usize = 80;

/// The line between two threads.
pub open spec fn divider() -> Seq<char> {
    "\n"@ + in_bright_black(Seq::new(DIVIDER as nat, |i: int| '=')) + "\n\n"@
}

/// The text before the thread or the replies at `i`.
pub open spec fn part_text(what: Option<Seq<char>>, i: int, count: nat) -> Seq<char> {
    let line = if i > 0 {
        divider()
    } else {
        ""@
    };
    match what {
        Some(what) => line + in_cyan(in_bold("===>"@)) + " "@ + what + " "@ + decimal(
            (i + 1) as nat,
        ) + " of "@ + decimal(count) + ":\n"@,
        None => line,
    }
}

/// The texts and messages of the threads or replies of emails.
pub open spec fn parts_of(emails: Seq<LoreEmailInfoView>, what: Option<Seq<char>>) -> Seq<
    (Seq<char>, Seq<char>),
> {
    Seq::new(
        emails.len(),
        |i: int| (part_text(what, i, emails.len()), emails[i].message_id),
    )
}

/// The line that tells how many emails were found.
pub open spec fn matches_line(count: nat, rest: Seq<char>) -> Seq<char> {
    "\n"@ + in_green(decimal(count)) + " matches found"@ + rest + ":\n\n"@
}

/// The note that there may be more emails than the limit lets through.
pub open spec fn limit_note(limit: nat, count: nat) -> Seq<char> {
    if limit > 0 && count >= limit {
        in_yellow("Note:"@) + " Result limit of "@ + decimal(limit)
            + " reached. There may be more matches.\n"@
    } else {
        ""@
    }
}

/// What is shown of the emails that a search found, oldest first. A search in several
/// fields counts no threads, leaves out the references and the recipients, and says
/// nothing of the limit.
pub open spec fn search_shown(
    emails: Seq<LoreEmailInfoView>,
    manner: Manner,
    several_fields: bool,
    limit: nat,
) -> LoreShowView {
    let count = emails.len();
    if count == 0 {
        LoreShowView::Text(
            if manner.mbox {
                ""@
            } else {
                in_yellow("Info:"@) + " No matching emails found\n"@
            },
        )
    } else if manner.mbox {
        LoreShowView::Mbox(emails)
    } else if manner.threads {
        LoreShowView::Threads(
            matches_line(count, ", showing threads"@),
            parts_of(
                emails,
                if several_fields {
                    None
                } else {
                    Some("Thread"@)
                },
            ),
            manner.verbose,
        )
    } else if manner.replies {
        LoreShowView::Replies(
            matches_line(count, ", showing replies"@),
            parts_of(emails, Some("Replies"@)),
            manner.verbose,
        )
    } else {
        shown_entries(
            EntriesView {
                head: matches_line(count, ""@),
                emails,
                numbered: true,
                full: !several_fields,
                tail: if several_fields {
                    ""@
                } else {
                    limit_note(limit, count)
                },
            },
            manner.verbose >= 1,
        )
    }
}

/// What is shown of the email that a look-up found.
pub open spec fn lookup_shown(
    message_id: Seq<char>,
    email: Option<LoreEmailInfoView>,
    manner: Manner,
) -> LoreShowView {
    match email {
        None => LoreShowView::Text(
            in_yellow("Info:"@) + " Email not found with message_id: "@ + message_id + "\n"@,
        ),
        Some(email) => if manner.mbox {
            LoreShowView::Mbox(seq![email])
        } else if manner.threads {
            LoreShowView::Threads("\n"@, seq![(""@, email.message_id)], manner.verbose)
        } else if manner.replies {
            LoreShowView::Replies("\n"@, seq![(""@, email.message_id)], manner.verbose)
        } else {
            shown_entries(
                EntriesView {
                    head: "\n"@ + in_green("Email found:"@) + "\n\n"@,
                    emails: seq![email],
                    numbered: false,
                    full: true,
                    tail: ""@,
                },
                manner.verbose >= 1,
            )
        },
    }
}

fn manner_of(options: &LoreSearchOptions<'_>) -> (manner: Manner)
    ensures
        manner == options.manner(),
{
    Manner {
        verbose: options.verbose,
        threads: options.show_thread,
        replies: options.show_replies,
        mbox: options.mbox_output,
    }
}

fn show_entries(entries: Entries, bodies: bool) -> (show: LoreShow)
    ensures
        show@ == shown_entries(entries@, bodies),
{
    if bodies {
        LoreShow::Bodies(entries)
    } else {
        LoreShow::Text(entries.without_bodies())
    }
}

fn write_divider() -> (text: String)
    ensures
        text@ == divider(),
{
    let mut line = String::from_str("");
    let mut i: usize = 0;
    proof {
        reveal_strlit("");
    }
    assert(line@ =~= Seq::new(0, |i: int| '='));
    while i < DIVIDER
        invariant
            i <= DIVIDER,
            line@ == Seq::new(i as nat, |i: int| '='),
        decreases DIVIDER - i,
    {
        line.push('=');
        assert(line@ =~= Seq::new((i + 1) as nat, |i: int| '='));
        i = i + 1;
    }
    String::from_str("\n").concat(bright_black(line.as_str()).as_str()).concat("\n\n")
}

fn write_parts(emails: &Vec<LoreEmailInfo>, what: Option<&str>) -> (list: Vec<(String, String)>)
    ensures
        text_pairs(list@) == parts_of(
            emails_view(emails@),
            match what {
                Some(what) => Some(what@),
                None => None,
            },
        ),
{
    let ghost named = match what {
        Some(what) => Some(what@),
        None => None,
    };
    let ghost expected = parts_of(emails_view(emails@), named);
    let count: usize = emails.len();
    let mut list: Vec<(String, String)> = Vec::new();
    let mut i: usize = 0;
    while i < emails.len()
        invariant
            i <= emails@.len(),
            count == emails@.len(),
            named == (match what {
                Some(what) => Some(what@),
                None => None,
            }),
            expected == parts_of(emails_view(emails@), named),
            text_pairs(list@) == expected.take(i as int),
        decreases emails@.len() - i,
    {
        let ghost before = text_pairs(list@);
        let line = if i > 0 {
            write_divider()
        } else {
            String::from_str("")
        };
        let text = match what {
            Some(what) => line.concat(cyan(bold("===>").as_str()).as_str()).concat(" ").concat(
                what,
            ).concat(" ").concat(number(i + 1).as_str()).concat(" of ").concat(
                number(count).as_str(),
            ).concat(":\n"),
            None => line,
        };
        let id = emails[i].message_id.clone();
        assert(emails_view(emails@)[i as int] == emails@[i as int]@);
        assert((text@, id@) == expected[i as int]);
        list.push((text, id));
        assert(text_pairs(list@) =~= before.push(expected[i as int]));
        assert(expected.take(i + 1) =~= before.push(expected[i as int]));
        i = i + 1;
    }
    assert(expected.take(i as int) =~= expected);
    list
}

fn write_matches_line(count: usize, rest: &str) -> (text: String)
    ensures
        text@ == matches_line(count as nat, rest@),
{
    String::from_str("\n").concat(green(number(count).as_str()).as_str()).concat(
        " matches found",
    ).concat(rest).concat(":\n\n")
}

/// What a search asks of the archive.
#[derive(Debug)]
pub enum LoreQuery {
    /// Emails with this pattern in this field.
    Field {
        field: String,
        pattern: String,
        /// How many emails at most.
        limit: usize,
        /// The dates that they may have.
        since: Option<String>,
        until: Option<String>,
    },
    /// Emails with these patterns, each in its field.
    Fields {
        field_patterns: Vec<(String, String)>,
        limit: usize,
        since: Option<String>,
        until: Option<String>,
    },
}

#[verifier::ext_equal]
pub enum LoreQueryView {
    Field {
        field: Seq<char>,
        pattern: Seq<char>,
        limit: nat,
        since: Option<Seq<char>>,
        until: Option<Seq<char>>,
    },
    Fields {
        field_patterns: Seq<(Seq<char>, Seq<char>)>,
        limit: nat,
        since: Option<Seq<char>>,
        until: Option<Seq<char>>,
    },
}

impl View for LoreQuery {
    type V = LoreQueryView;

    open spec fn view(&self) -> LoreQueryView {
        match *self {
            LoreQuery::Field { field, pattern, limit, since, until } => LoreQueryView::Field {
                field: field@,
                pattern: pattern@,
                limit: limit as nat,
                since: text_or_none(since),
                until: text_or_none(until),
            },
            LoreQuery::Fields { field_patterns, limit, since, until } => LoreQueryView::Fields {
                field_patterns: text_pairs(field_patterns@),
                limit: limit as nat,
                since: text_or_none(since),
                until: text_or_none(until),
            },
        }
    }
}

fn own_text(text: Option<&str>) -> (own: Option<String>)
    ensures
        text_or_none(own) == str_or_none(text),
{
    match text {
        Some(text) => Some(text.to_string()),
        None => None,
    }
}

fn copy_pairs(pairs: &Vec<(String, String)>) -> (copy: Vec<(String, String)>)
    ensures
        text_pairs(copy@) == text_pairs(pairs@),
{
    let mut copy: Vec<(String, String)> = Vec::new();
    let mut i: usize = 0;
    while i < pairs.len()
        invariant
            i <= pairs@.len(),
            copy@.len() == i,
            forall|k: int|
                0 <= k < i ==> (#[trigger] copy@[k]).0@ == pairs@[k].0@ && copy@[k].1@
                    == pairs@[k].1@,
        decreases pairs@.len() - i,
    {
        copy.push((pairs[i].0.clone(), pairs[i].1.clone()));
        i = i + 1;
    }
    assert(text_pairs(copy@) =~= text_pairs(pairs@));
    copy
}

/// A search that waits for the emails that were found.
pub struct LoreSearch {
    manner: Manner,
    query: LoreQuery,
}

impl LoreSearch {
    pub closed spec fn manner(&self) -> Manner {
        self.manner
    }

    /// What is asked of the archive.
    pub closed spec fn asked(&self) -> LoreQueryView {
        self.query@
    }

    pub open spec fn several_fields(&self) -> bool {
        self.asked() is Fields
    }

    pub open spec fn limit(&self) -> nat {
        match self.asked() {
            LoreQueryView::Field { limit, .. } => limit,
            LoreQueryView::Fields { limit, .. } => limit,
        }
    }

    /// What is asked of the archive.
    pub fn query(&self) -> (query: &LoreQuery)
        ensures
            query@ == self.asked(),
    {
        &self.query
    }

    /// The emails that were found, oldest first.
    pub fn found(self, emails: Vec<LoreEmailInfo>) -> (show: LoreShow)
        ensures
            show@ == search_shown(
                emails_view(emails@),
                self.manner(),
                self.several_fields(),
                self.limit(),
            ),
    {
        assert(emails_view(emails@).len() == emails@.len());
        let count: usize = emails.len();
        let (several_fields, limit) = match self.query {
            LoreQuery::Field { limit, .. } => (false, limit),
            LoreQuery::Fields { limit, .. } => (true, limit),
        };
        if count == 0 {
            if self.manner.mbox {
                LoreShow::Text(String::from_str(""))
            } else {
                LoreShow::Text(yellow("Info:").concat(" No matching emails found\n"))
            }
        } else if self.manner.mbox {
            LoreShow::Mbox(emails)
        } else if self.manner.threads {
            let what = if several_fields {
                None
            } else {
                Some("Thread")
            };
            LoreShow::Threads(
                write_matches_line(count, ", showing threads"),
                write_parts(&emails, what),
                self.manner.verbose,
            )
        } else if self.manner.replies {
            LoreShow::Replies(
                write_matches_line(count, ", showing replies"),
                write_parts(&emails, Some("Replies")),
                self.manner.verbose,
            )
        } else {
            let tail = if !several_fields && limit > 0 && count >= limit {
                yellow("Note:").concat(" Result limit of ").concat(
                    number(limit).as_str(),
                ).concat(" reached. There may be more matches.\n")
            } else {
                String::from_str("")
            };
            let entries = Entries::new(
                write_matches_line(count, ""),
                emails,
                true,
                !several_fields,
                tail,
            );
            show_entries(entries, self.manner.verbose >= 1)
        }
    }
}

/// A look-up that waits for the email that was found.
pub struct LoreLookup {
    message_id: String,
    manner: Manner,
}

impl LoreLookup {
    pub closed spec fn message_id(&self) -> Seq<char> {
        self.message_id@
    }

    pub closed spec fn manner(&self) -> Manner {
        self.manner
    }

    /// The message that is looked up.
    pub fn wanted(&self) -> (message_id: &str)
        ensures
            message_id@ == self.message_id(),
    {
        self.message_id.as_str()
    }

    /// The email that was found.
    pub fn found(self, email: Option<LoreEmailInfo>) -> (show: LoreShow)
        ensures
            show@ == lookup_shown(
                self.message_id(),
                match email {
                    Some(email) => Some(email@),
                    None => None,
                },
                self.manner(),
            ),
    {
        match email {
            None => LoreShow::Text(
                yellow("Info:").concat(" Email not found with message_id: ").concat(
                    self.message_id.as_str(),
                ).concat("\n"),
            ),
            Some(email) => {
                let ghost it = email@;
                if self.manner.threads || self.manner.replies {
                    if !self.manner.mbox {
                        let mut list: Vec<(String, String)> = Vec::new();
                        list.push((String::from_str(""), email.message_id.clone()));
                        assert(text_pairs(list@) =~= seq![(""@, it.message_id)]);
                        return if self.manner.threads {
                            LoreShow::Threads(String::from_str("\n"), list, self.manner.verbose)
                        } else {
                            LoreShow::Replies(String::from_str("\n"), list, self.manner.verbose)
                        };
                    }
                }
                let mut list: Vec<LoreEmailInfo> = Vec::new();
                list.push(email);
                assert(emails_view(list@) =~= seq![it]);
                if self.manner.mbox {
                    return LoreShow::Mbox(list);
                }
                let head = String::from_str("\n").concat(green("Email found:").as_str()).concat(
                    "\n\n",
                );
                let entries = Entries::new(head, list, false, true, String::from_str(""));
                show_entries(entries, self.manner.verbose >= 1)
            },
        }
    }
}

/// The text with which a search in one field starts.
pub open spec fn search_text(field: Seq<char>, pattern: Seq<char>, mbox: bool) -> Seq<char> {
    if mbox {
        ""@
    } else {
        "Searching lore emails where "@ + in_cyan(field) + " matches pattern: "@ + in_yellow(
            pattern,
        ) + "\n"@
    }
}

/// Starts a search in one field. Gives the text to show, and the search that says what to
/// ask of the archive and goes on with the emails that are found.
pub fn lore_search_with_thread(
    field: &str,
    pattern: &str,
    limit: usize,
    options: &LoreSearchOptions<'_>,
) -> (started: (String, LoreSearch))
    ensures
        started.0@ == search_text(field@, pattern@, options.mbox_output),
        started.1.manner() == options.manner(),
        started.1.asked() == (LoreQueryView::Field {
            field: field@,
            pattern: pattern@,
            limit: limit as nat,
            since: str_or_none(options.since_date),
            until: str_or_none(options.until_date),
        }),
{
    let text = if options.mbox_output {
        String::from_str("")
    } else {
        String::from_str("Searching lore emails where ").concat(cyan(field).as_str()).concat(
            " matches pattern: ",
        ).concat(yellow(pattern).as_str()).concat("\n")
    };
    let query = LoreQuery::Field {
        field: field.to_string(),
        pattern: pattern.to_string(),
        limit,
        since: own_text(options.since_date),
        until: own_text(options.until_date),
    };
    (text, LoreSearch { manner: manner_of(options), query })
}

/// Starts a search in one field that lists the emails.
pub fn lore_search(field: &str, pattern: &str, limit: usize, verbose: usize) -> (started: (
    String,
    LoreSearch,
))
    ensures
        started.0@ == search_text(field@, pattern@, false),
        started.1.manner() == (Manner { verbose, threads: false, replies: false, mbox: false }),
        started.1.asked() == (LoreQueryView::Field {
            field: field@,
            pattern: pattern@,
            limit: limit as nat,
            since: None,
            until: None,
        }),
{
    let options = LoreSearchOptions {
        verbose,
        show_thread: false,
        show_replies: false,
        replies_only: false,
        since_date: None,
        until_date: None,
        mbox_output: false,
        snip_output: false,
    };
    lore_search_with_thread(field, pattern, limit, &options)
}

/// The patterns that are given for a field.
pub open spec fn patterns_for(pairs: Seq<(Seq<char>, Seq<char>)>, field: Seq<char>) -> Seq<
    Seq<char>,
>
    decreases pairs.len(),
{
    if pairs.len() == 0 {
        seq![]
    } else {
        let before = patterns_for(pairs.drop_last(), field);
        if pairs.last().0 == field {
            before.push(pairs.last().1)
        } else {
            before
        }
    }
}

/// The fields, each once.
pub open spec fn fields_of(pairs: Seq<(Seq<char>, Seq<char>)>) -> Seq<Seq<char>> {
    distinct(pairs.map_values(|pair: (Seq<char>, Seq<char>)| pair.0))
}

/// The line that tells what is asked of a field.
pub open spec fn condition_line(field: Seq<char>, patterns: Seq<Seq<char>>) -> Seq<char> {
    if patterns.len() == 1 {
        "  "@ + in_cyan(field) + " matches: "@ + in_yellow(patterns[0]) + "\n"@
    } else {
        "  "@ + in_cyan(field) + " matches (OR): "@ + in_yellow(joined(patterns, " OR "@)) + "\n"@
    }
}

/// The text with which a search in several fields starts. The fields stand as they were
/// first given.
pub open spec fn conditions_text(pairs: Seq<(Seq<char>, Seq<char>)>, mbox: bool) -> Seq<char> {
    if mbox {
        ""@
    } else {
        "Searching lore emails with conditions:\n"@ + together(
            fields_of(pairs).map_values(
                |field: Seq<char>| condition_line(field, patterns_for(pairs, field)),
            ),
        )
    }
}

fn collect_patterns(pairs: &Vec<(String, String)>, field: &str) -> (patterns: Vec<String>)
    ensures
        texts(patterns@) == patterns_for(text_pairs(pairs@), field@),
{
    let ghost all = text_pairs(pairs@);
    let mut patterns: Vec<String> = Vec::new();
    let mut i: usize = 0;
    assert(texts(patterns@) =~= seq![]);
    while i < pairs.len()
        invariant
            i <= pairs@.len(),
            all == text_pairs(pairs@),
            texts(patterns@) == patterns_for(all.take(i as int), field@),
        decreases pairs@.len() - i,
    {
        let ghost before = texts(patterns@);
        assert(all.take(i + 1).drop_last() =~= all.take(i as int));
        assert(all[i as int] == (pairs@[i as int].0@, pairs@[i as int].1@));
        if same_text(pairs[i].0.as_str(), field) {
            patterns.push(pairs[i].1.clone());
            assert(texts(patterns@) =~= before.push(all[i as int].1));
        }
        i = i + 1;
    }
    assert(all.take(i as int) =~= all);
    patterns
}

fn collect_fields(pairs: &Vec<(String, String)>) -> (fields: Vec<String>)
    ensures
        texts(fields@) == fields_of(text_pairs(pairs@)),
{
    let ghost named = text_pairs(pairs@).map_values(|pair: (Seq<char>, Seq<char>)| pair.0);
    let mut list: Vec<String> = Vec::new();
    let mut i: usize = 0;
    while i < pairs.len()
        invariant
            i <= pairs@.len(),
            named == text_pairs(pairs@).map_values(|pair: (Seq<char>, Seq<char>)| pair.0),
            texts(list@) == named.take(i as int),
        decreases pairs@.len() - i,
    {
        let ghost before = texts(list@);
        list.push(pairs[i].0.clone());
        assert(texts(list@) =~= before.push(named[i as int]));
        assert(named.take(i + 1) =~= before.push(named[i as int]));
        i = i + 1;
    }
    assert(named.take(i as int) =~= named);
    distinct_texts(&list)
}

fn write_condition(field: &str, patterns: &Vec<String>) -> (text: String)
    ensures
        text@ == condition_line(field@, texts(patterns@)),
{
    assert(texts(patterns@).len() == patterns@.len());
    let head = String::from_str("  ").concat(cyan(field).as_str());
    if patterns.len() == 1 {
        head.concat(" matches: ").concat(yellow(patterns[0].as_str()).as_str()).concat("\n")
    } else {
        head.concat(" matches (OR): ").concat(yellow(join(patterns, " OR ").as_str()).as_str()).concat(
            "\n",
        )
    }
}

/// Starts a search in several fields, each with its patterns. Gives the text to show, and
/// the search that says what to ask of the archive and goes on with the emails that are
/// found.
pub fn lore_search_multi_field(
    field_patterns: &Vec<(String, String)>,
    limit: usize,
    options: &LoreSearchOptions<'_>,
) -> (started: (String, LoreSearch))
    ensures
        started.0@ == conditions_text(text_pairs(field_patterns@), options.mbox_output),
        started.1.manner() == options.manner(),
        started.1.asked() == (LoreQueryView::Fields {
            field_patterns: text_pairs(field_patterns@),
            limit: limit as nat,
            since: str_or_none(options.since_date),
            until: str_or_none(options.until_date),
        }),
{
    let query = LoreQuery::Fields {
        field_patterns: copy_pairs(field_patterns),
        limit,
        since: own_text(options.since_date),
        until: own_text(options.until_date),
    };
    let search = LoreSearch { manner: manner_of(options), query };
    if options.mbox_output {
        return (String::from_str(""), search);
    }
    let ghost pairs = text_pairs(field_patterns@);
    let ghost expected = fields_of(pairs).map_values(
        |field: Seq<char>| condition_line(field, patterns_for(pairs, field)),
    );
    let fields = collect_fields(field_patterns);
    assert(texts(fields@).len() == fields@.len());
    let mut rows: Vec<String> = Vec::new();
    let mut i: usize = 0;
    while i < fields.len()
        invariant
            i <= fields@.len(),
            pairs == text_pairs(field_patterns@),
            texts(fields@) == fields_of(pairs),
            texts(fields@).len() == fields@.len(),
            expected == fields_of(pairs).map_values(
                |field: Seq<char>| condition_line(field, patterns_for(pairs, field)),
            ),
            texts(rows@) == expected.take(i as int),
        decreases fields@.len() - i,
    {
        let ghost before = texts(rows@);
        let patterns = collect_patterns(field_patterns, fields[i].as_str());
        let row = write_condition(fields[i].as_str(), &patterns);
        assert(texts(fields@)[i as int] == fields@[i as int]@);
        assert(row@ == expected[i as int]);
        rows.push(row);
        assert(texts(rows@) =~= before.push(expected[i as int]));
        assert(expected.take(i + 1) =~= before.push(expected[i as int]));
        i = i + 1;
    }
    assert(expected.take(i as int) =~= expected);
    (
        String::from_str("Searching lore emails with conditions:\n").concat(
            put_together(&rows).as_str(),
        ),
        search,
    )
}

/// The text with which a look-up starts.
pub open spec fn lookup_text(message_id: Seq<char>, mbox: bool) -> Seq<char> {
    if mbox {
        ""@
    } else {
        "Looking up email with message_id: "@ + in_cyan(message_id) + "\n"@
    }
}

fn start_lookup(message_id: &str, manner: Manner) -> (started: (String, LoreLookup))
    ensures
        started.0@ == lookup_text(message_id@, manner.mbox),
        started.1.message_id() == message_id@,
        started.1.manner() == manner,
{
    let text = if manner.mbox {
        String::from_str("")
    } else {
        String::from_str("Looking up email with message_id: ").concat(
            cyan(message_id).as_str(),
        ).concat("\n")
    };
    (text, LoreLookup { message_id: message_id.to_string(), manner })
}

/// Starts to look an email up by its message id. Gives the text to show, and the look-up
/// that goes on with the email that is found.
pub fn lore_get_by_message_id(
    message_id: &str,
    verbose: usize,
    show_thread: bool,
    show_replies: bool,
) -> (started: (String, LoreLookup))
    ensures
        started.0@ == lookup_text(message_id@, false),
        started.1.message_id() == message_id@,
        started.1.manner() == (Manner {
            verbose,
            threads: show_thread,
            replies: show_replies,
            mbox: false,
        }),
{
    start_lookup(
        message_id,
        Manner { verbose, threads: show_thread, replies: show_replies, mbox: false },
    )
}

/// Starts to look an email up by its message id, as the options say.
pub fn lore_get_by_message_id_with_options(
    message_id: &str,
    options: &LoreSearchOptions<'_>,
) -> (started: (String, LoreLookup))
    ensures
        started.0@ == lookup_text(message_id@, options.mbox_output),
        started.1.message_id() == message_id@,
        started.1.manner() == options.manner(),
{
    start_lookup(message_id, manner_of(options))
}

} // verus!
