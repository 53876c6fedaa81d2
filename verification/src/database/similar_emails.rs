//! Emails by similarity, with filters for their fields and dates.
//!
//! A search is a chain of steps. Each step asks something of the database, and what
//! comes back leads to the next step.

use vstd::prelude::*;
use vstd::string::*;

use crate::database::conditions::{any_of, lemma_text_pieces, write_any_of};
use crate::database::lore_fields::{
    after_candidates, fields_start, patterns_view, str_or_none, Candidate, FieldState, FieldStep,
    FieldStepView, FieldWait, FiltersView, FullTextQuery, FullTextQueryView, LoreEmailFilters,
};
use crate::database::similar::VectorSearchManager;
use crate::json::{json_text_list, parse_text_list};
use crate::lists::{
    cut, find_first_places, first_places, lemma_first_below, lists, pick, picked, pieces,
};
use crate::order::{keys_of, places, text_key, TextKey};
use crate::pattern::{
    bound_moment, is_within, parse_moment, rfc2822_moment, within,
};
use crate::scores::{
    by_score, names_of, pairs_view, score_map, score_of, scored_view, sort_by_score, Scores,
};
use crate::text::texts;
use crate::types::{
    copy_option, copy_slice, text_or_none, texts_or_none, LoreEmailInfo, LoreEmailInfoView,
};

verus! {

/// How many message ids one condition names.
pub const EMAIL_CHUNK: usize = 500;

/// How many times more neighbours are asked for than emails are wanted.
pub const FETCH_FACTOR: usize = 2;

/// How many times more where some will be dropped for their date.
pub const FETCH_FACTOR_DATED: usize = 50;

/// A row of the table of emails.
#[derive(Debug)]
pub struct EmailRow {
    pub git_commit_sha: String,
    pub message_id: String,
    pub from: String,
    pub date: String,
    /// Absent in tables that have no such column.
    pub date_timestamp: Option<i64>,
    pub subject: String,
    pub in_reply_to: Option<String>,
    pub references: Option<String>,
    pub recipients: String,
    pub body: String,
    /// A list of texts in JSON.
    pub symbols: String,
}

/// The list of texts that a JSON text stands for; none where it stands for no list.
pub open spec fn listed_symbols(text: Seq<char>) -> Seq<Seq<char>> {
    match json_text_list(text) {
        Ok(list) => list,
        Err(_) => seq![],
    }
}

/// The email of a row with this date.
pub open spec fn email_of(row: EmailRow, moment: (i64, u32)) -> LoreEmailInfoView {
    LoreEmailInfoView {
        git_commit_sha: row.git_commit_sha@,
        message_id: row.message_id@,
        from: row.from@,
        date: row.date@,
        date_timestamp: match row.date_timestamp {
            Some(timestamp) => timestamp,
            None => moment.0,
        },
        subject: row.subject@,
        in_reply_to: text_or_none(row.in_reply_to),
        references: text_or_none(row.references),
        recipients: row.recipients@,
        body: row.body@,
        symbols: listed_symbols(row.symbols@),
    }
}

/// The condition for emails with one of these ids.
pub open spec fn ids_filter(ids: Seq<Seq<char>>) -> Seq<char> {
    "("@ + any_of("message_id"@, ids, true) + ")"@
}

/// The conditions that find the emails with these ids, one after the other.
pub open spec fn ids_filters(ids: Seq<Seq<char>>) -> Seq<Seq<char>> {
    pieces(ids, EMAIL_CHUNK as nat).map_values(|piece: Seq<Seq<char>>| ids_filter(piece))
}

/// The fetching of emails by their ids.
pub struct Fetch {
    filters: Vec<String>,
    next: usize,
    scores: Scores,
    limit: usize,
    since: Option<(i64, u32)>,
    until: Option<(i64, u32)>,
    found: Vec<(LoreEmailInfo, u32)>,
}

#[verifier::ext_equal]
pub struct FetchView {
    /// The conditions that find the emails.
    pub filters: Seq<Seq<char>>,
    /// The condition that comes next.
    pub next: nat,
    pub scores: Map<Seq<char>, u32>,
    pub limit: nat,
    pub since: Option<(i64, u32)>,
    pub until: Option<(i64, u32)>,
    pub found: Seq<(LoreEmailInfoView, u32)>,
}

impl View for Fetch {
    type V = FetchView;

    closed spec fn view(&self) -> FetchView {
        FetchView {
            filters: texts(self.filters@),
            next: self.next as nat,
            scores: self.scores@,
            limit: self.limit as nat,
            since: self.since,
            until: self.until,
            found: scored_view(self.found@),
        }
    }
}

/// Whether a row is handed out: its date is one, and lies within the bounds.
pub open spec fn row_kept(
    row: EmailRow,
    since: Option<(i64, u32)>,
    until: Option<(i64, u32)>,
) -> bool {
    rfc2822_moment(row.date@) is Some && within(rfc2822_moment(row.date@), since, until)
}

/// What was fetched after rows came, up to the limit.
pub open spec fn with_rows(fetch: FetchView, rows: Seq<EmailRow>) -> Seq<(LoreEmailInfoView, u32)>
    decreases rows.len(),
{
    if rows.len() == 0 {
        fetch.found
    } else {
        let before = with_rows(fetch, rows.drop_last());
        let row = rows.last();
        if before.len() < fetch.limit && row_kept(row, fetch.since, fetch.until) {
            before.push(
                (
                    email_of(row, rfc2822_moment(row.date@)->Some_0),
                    score_of(fetch.scores, row.message_id@),
                ),
            )
        } else {
            before
        }
    }
}

/// The condition for the next emails, or what was fetched: no more is asked once
/// the limit is reached.
#[verifier::ext_equal]
pub enum FetchStepView {
    Ask(Seq<char>, FetchView),
    Done(Seq<(LoreEmailInfoView, u32)>),
}

/// The step when the next emails are due.
pub open spec fn fetch_next(fetch: FetchView) -> FetchStepView {
    if fetch.next < fetch.filters.len() && fetch.found.len() < fetch.limit {
        FetchStepView::Ask(
            fetch.filters[fetch.next as int],
            FetchView { next: fetch.next + 1, ..fetch },
        )
    } else {
        FetchStepView::Done(by_score(fetch.found))
    }
}

/// The step after rows came.
pub open spec fn after_email_rows(fetch: FetchView, rows: Seq<EmailRow>) -> FetchStepView {
    fetch_next(FetchView { found: with_rows(fetch, rows), ..fetch })
}

/// The first step of fetching emails by their ids.
pub open spec fn fetch_start(
    ids: Seq<Seq<char>>,
    scores: Map<Seq<char>, u32>,
    limit: nat,
    since: Option<(i64, u32)>,
    until: Option<(i64, u32)>,
) -> FetchStepView {
    fetch_next(
        FetchView { filters: ids_filters(ids), next: 0, scores, limit, since, until, found: seq![] },
    )
}

/// What is to be done next to fetch emails.
pub enum FetchStep {
    /// Ask for emails; then [`Fetch::rows`].
    Ask(String, Fetch),
    /// Nothing more: these were fetched.
    Done(Vec<(LoreEmailInfo, u32)>),
}

impl View for FetchStep {
    type V = FetchStepView;

    open spec fn view(&self) -> FetchStepView {
        match *self {
            FetchStep::Ask(filter, fetch) => FetchStepView::Ask(filter@, fetch@),
            FetchStep::Done(found) => FetchStepView::Done(scored_view(found@)),
        }
    }
}

fn write_ids_filters(ids: Vec<String>) -> (filters: Vec<String>)
    ensures
        texts(filters@) == ids_filters(texts(ids@)),
{
    let ghost names = ids@;
    let ghost all = texts(ids@);
    let ghost size = EMAIL_CHUNK as nat;
    let ghost expected = ids_filters(all);
    let parts = cut(ids, EMAIL_CHUNK);
    let mut filters: Vec<String> = Vec::new();
    proof {
        lemma_text_pieces(names, size);
    }
    let mut i: usize = 0;
    while i < parts.len()
        invariant
            i <= parts@.len(),
            size == EMAIL_CHUNK as nat,
            all == texts(names),
            lists(parts@) == pieces(names, size),
            pieces(all, size) == pieces(names, size).map_values(
                |piece: Seq<String>| texts(piece),
            ),
            expected == ids_filters(all),
            texts(filters@) == expected.take(i as int),
        decreases parts@.len() - i,
    {
        let ghost before = texts(filters@);
        let filter = String::from_str("(").concat(
            write_any_of("message_id", &parts[i], true).as_str(),
        ).concat(")");
        proof {
            assert(lists(parts@)[i as int] == parts@[i as int]@);
            assert(expected[i as int] == filter@);
        }
        filters.push(filter);
        assert(texts(filters@) =~= before.push(expected[i as int]));
        assert(expected.take(i + 1) =~= before.push(expected[i as int]));
        i = i + 1;
    }
    proof {
        assert(lists(parts@).len() == parts@.len());
        assert(expected.take(i as int) =~= expected);
    }
    filters
}

/// The email of a row with this date.
fn make_email(row: &EmailRow, moment: (i64, u32)) -> (email: LoreEmailInfo)
    ensures
        email@ == email_of(*row, moment),
{
    let symbols = match parse_text_list(row.symbols.as_str()) {
        Ok(list) => list,
        Err(_) => Vec::new(),
    };
    assert(texts(symbols@) =~= listed_symbols(row.symbols@));
    LoreEmailInfo {
        git_commit_sha: row.git_commit_sha.clone(),
        message_id: row.message_id.clone(),
        from: row.from.clone(),
        date: row.date.clone(),
        date_timestamp: match row.date_timestamp {
            Some(timestamp) => timestamp,
            None => moment.0,
        },
        subject: row.subject.clone(),
        in_reply_to: copy_option(&row.in_reply_to),
        references: copy_option(&row.references),
        recipients: row.recipients.clone(),
        body: row.body.clone(),
        symbols,
    }
}

impl Fetch {
    /// The rows that were asked for.
    pub fn rows(self, rows: Vec<EmailRow>) -> (step: FetchStep)
        ensures
            step@ == after_email_rows(self@, rows@),
    {
        let ghost start = self@;
        let Fetch { filters, next, scores, limit, since, until, found } = self;
        let mut found = found;
        let mut i: usize = 0;
        assert(rows@.take(0) =~= seq![]);
        while i < rows.len()
            invariant
                i <= rows@.len(),
                start.scores == scores@,
                start.limit == limit,
                start.since == since,
                start.until == until,
                scored_view(found@) == with_rows(start, rows@.take(i as int)),
            decreases rows@.len() - i,
        {
            let row = &rows[i];
            let ghost before = scored_view(found@);
            proof {
                assert(rows@.take(i + 1).drop_last() =~= rows@.take(i as int));
                assert(rows@.take(i + 1).last() == row);
                assert(before.len() == found@.len());
            }
            if found.len() < limit {
                let date = parse_moment(row.date.as_str());
                if let Some(moment) = date {
                    if is_within(date, since, until) {
                        let email = make_email(row, moment);
                        let score = scores.of_name(row.message_id.as_str());
                        let ghost entry = (email@, score);
                        found.push((email, score));
                        assert(scored_view(found@) =~= before.push(entry));
                    }
                }
            }
            i = i + 1;
        }
        proof {
            assert(rows@.take(i as int) =~= rows@);
        }
        Fetch { filters, next, scores, limit, since, until, found }.advance()
    }

    fn advance(self) -> (step: FetchStep)
        ensures
            step@ == fetch_next(self@),
    {
        assert(self@.found.len() == self.found@.len());
        if self.next < self.filters.len() && self.found.len() < self.limit {
            let filter = self.filters[self.next].clone();
            assert(filter@ == self@.filters[self.next as int]);
            let Fetch { filters, next, scores, limit, since, until, found } = self;
            FetchStep::Ask(
                filter,
                Fetch { filters, next: next + 1, scores, limit, since, until, found },
            )
        } else {
            FetchStep::Done(sort_by_score(self.found))
        }
    }
}

/// Starts the fetching of emails by their ids.
fn fetch_emails_by_ids(
    ids: Vec<String>,
    scores: Scores,
    limit: usize,
    since: Option<(i64, u32)>,
    until: Option<(i64, u32)>,
) -> (step: FetchStep)
    ensures
        step@ == fetch_start(texts(ids@), scores@, limit as nat, since, until),
{
    let filters = write_ids_filters(ids);
    let found: Vec<(LoreEmailInfo, u32)> = Vec::new();
    assert(scored_view(found@) =~= seq![]);
    Fetch { filters, next: 0, scores, limit, since, until, found }.advance()
}

/// How many candidates are looked at, round by round, until enough are found.
pub open spec fn rounds() -> Seq<nat> {
    seq![1_000, 10_000, 50_000, 100_000]
}

fn round_limit(round: usize) -> (limit: usize)
    requires
        round < 4,
    ensures
        limit == rounds()[round as int],
{
    match round {
        0 => 1_000,
        1 => 10_000,
        2 => 50_000,
        _ => 100_000,
    }
}

/// Filter patterns of which a search keeps a copy.
struct OwnFilters {
    from: Option<Vec<String>>,
    subject: Option<Vec<String>>,
    body: Option<Vec<String>>,
    symbols: Option<Vec<String>>,
    recipients: Option<Vec<String>>,
    since: Option<String>,
    until: Option<String>,
}

impl OwnFilters {
    spec fn view(&self) -> FiltersView {
        FiltersView {
            from: texts_or_none(self.from),
            subject: texts_or_none(self.subject),
            body: texts_or_none(self.body),
            symbols: texts_or_none(self.symbols),
            recipients: texts_or_none(self.recipients),
            since: text_or_none(self.since),
            until: text_or_none(self.until),
        }
    }
}

fn own_patterns(patterns: Option<&[String]>) -> (own: Option<Vec<String>>)
    ensures
        texts_or_none(own) == patterns_view(patterns),
{
    match patterns {
        Some(list) => Some(copy_slice(list)),
        None => None,
    }
}

fn own_text(text: Option<&str>) -> (own: Option<String>)
    ensures
        text_or_none(own) == str_or_none(text),
{
    match text {
        Some(t) => Some(t.to_string()),
        None => None,
    }
}

fn lend_patterns(own: &Option<Vec<String>>) -> (patterns: Option<&[String]>)
    ensures
        patterns_view(patterns) == texts_or_none(*own),
{
    match own {
        Some(list) => Some(list.as_slice()),
        None => None,
    }
}

fn lend_text(own: &Option<String>) -> (text: Option<&str>)
    ensures
        str_or_none(text) == text_or_none(*own),
{
    match own {
        Some(t) => Some(t.as_str()),
        None => None,
    }
}

/// A search by similarity that has filters for fields.
pub struct EmailSearch {
    filters: OwnFilters,
    limit: usize,
    round: usize,
    found: Vec<(LoreEmailInfo, u32)>,
}

#[verifier::ext_equal]
pub struct EmailSearchView {
    pub filters: FiltersView,
    /// How many emails are wanted.
    pub limit: nat,
    /// The round at hand.
    pub round: nat,
    pub found: Seq<(LoreEmailInfoView, u32)>,
}

impl View for EmailSearch {
    type V = EmailSearchView;

    closed spec fn view(&self) -> EmailSearchView {
        EmailSearchView {
            filters: self.filters.view(),
            limit: self.limit as nat,
            round: self.round as nat,
            found: scored_view(self.found@),
        }
    }
}

/// A search without filters for fields, or one with them.
pub enum Kind {
    /// One without: the bounds for the date are applied to what is fetched.
    Plain { limit: usize, since: Option<(i64, u32)>, until: Option<(i64, u32)> },
    Filtered(EmailSearch),
}

#[verifier::ext_equal]
pub enum KindView {
    Plain { limit: nat, since: Option<(i64, u32)>, until: Option<(i64, u32)> },
    Filtered(EmailSearchView),
}

impl View for Kind {
    type V = KindView;

    open spec fn view(&self) -> KindView {
        match *self {
            Kind::Plain { limit, since, until } => KindView::Plain {
                limit: limit as nat,
                since,
                until,
            },
            Kind::Filtered(search) => KindView::Filtered(search@),
        }
    }
}

/// A search that waits for full-text candidates.
pub struct AwaitFields {
    search: EmailSearch,
    fields: FieldWait,
}

/// A search without filters for fields that waits for neighbours.
pub struct AwaitNearest {
    limit: usize,
    since: Option<(i64, u32)>,
    until: Option<(i64, u32)>,
}

/// A search with filters for fields that waits for neighbours.
pub struct AwaitNearestOf {
    search: EmailSearch,
    ids: Vec<String>,
}

/// A search that waits for emails.
pub struct AwaitEmails {
    kind: Kind,
    fetch: Fetch,
}

/// What is to be done next.
pub enum EmailStep {
    /// Nothing more: these emails were found.
    Done(Vec<(LoreEmailInfo, u32)>),
    /// Give up, with this message: a pattern cannot be compiled.
    Failed(String),
    /// Ask the full-text index; then [`AwaitFields::candidates`].
    FullText(FullTextQuery, AwaitFields),
    /// Ask for this many nearest neighbours; then [`AwaitNearest::neighbours`].
    Nearest(usize, AwaitNearest),
    /// Ask for this many nearest neighbours; then [`AwaitNearestOf::neighbours`].
    NearestOf(usize, AwaitNearestOf),
    /// Ask for emails; then [`AwaitEmails::rows`].
    Emails(String, AwaitEmails),
}

#[verifier::ext_equal]
pub enum EmailStepView {
    Done(Seq<(LoreEmailInfoView, u32)>),
    Failed(Seq<char>),
    FullText(FullTextQueryView, EmailSearchView, FieldState),
    Nearest(nat, nat, Option<(i64, u32)>, Option<(i64, u32)>),
    NearestOf(nat, EmailSearchView, Seq<Seq<char>>),
    Emails(Seq<char>, KindView, FetchView),
}

impl AwaitFields {
    pub closed spec fn search(&self) -> EmailSearchView {
        self.search@
    }

    pub closed spec fn fields(&self) -> FieldState {
        self.fields.state()
    }

    #[verifier::type_invariant]
    spec fn valid(self) -> bool {
        self.search.round < 4
    }
}

impl AwaitNearest {
    pub closed spec fn wanted(&self) -> nat {
        self.limit as nat
    }

    pub closed spec fn since(&self) -> Option<(i64, u32)> {
        self.since
    }

    pub closed spec fn until(&self) -> Option<(i64, u32)> {
        self.until
    }
}

impl AwaitNearestOf {
    pub closed spec fn search(&self) -> EmailSearchView {
        self.search@
    }

    pub closed spec fn ids(&self) -> Seq<Seq<char>> {
        texts(self.ids@)
    }

    #[verifier::type_invariant]
    spec fn valid(self) -> bool {
        self.search.round < 4
    }
}

impl AwaitEmails {
    pub closed spec fn kind(&self) -> KindView {
        self.kind@
    }

    pub closed spec fn fetch(&self) -> FetchView {
        self.fetch@
    }

    #[verifier::type_invariant]
    spec fn valid(self) -> bool {
        match self.kind {
            Kind::Filtered(search) => search.round < 4,
            _ => true,
        }
    }
}

impl View for EmailStep {
    type V = EmailStepView;

    open spec fn view(&self) -> EmailStepView {
        match *self {
            EmailStep::Done(found) => EmailStepView::Done(scored_view(found@)),
            EmailStep::Failed(message) => EmailStepView::Failed(message@),
            EmailStep::FullText(query, wait) => EmailStepView::FullText(
                query@,
                wait.search(),
                wait.fields(),
            ),
            EmailStep::Nearest(count, wait) => EmailStepView::Nearest(
                count as nat,
                wait.wanted(),
                wait.since(),
                wait.until(),
            ),
            EmailStep::NearestOf(count, wait) => EmailStepView::NearestOf(
                count as nat,
                wait.search(),
                wait.ids(),
            ),
            EmailStep::Emails(filter, wait) => EmailStepView::Emails(
                filter@,
                wait.kind(),
                wait.fetch(),
            ),
        }
    }
}

/// The keys of emails by message id.
pub open spec fn message_keys(found: Seq<(LoreEmailInfoView, u32)>) -> Seq<Seq<Seq<int>>> {
    found.map_values(|entry: (LoreEmailInfoView, u32)| text_key(entry.0.message_id))
}

/// Emails without those whose id occurred before.
pub open spec fn distinct_emails(found: Seq<(LoreEmailInfoView, u32)>) -> Seq<
    (LoreEmailInfoView, u32),
> {
    picked(found, first_places(message_keys(found)))
}

/// A list without what lies beyond the limit.
pub open spec fn cut_off<V>(list: Seq<V>, limit: nat) -> Seq<V> {
    if list.len() <= limit {
        list
    } else {
        list.take(limit as int)
    }
}

/// What a search with filters hands out of what it found: each email once, with the
/// highest score it was found with, the most similar first, no more than wanted.
pub open spec fn best(found: Seq<(LoreEmailInfoView, u32)>, limit: nat) -> Seq<
    (LoreEmailInfoView, u32),
> {
    cut_off(distinct_emails(by_score(found)), limit)
}

/// The step when the next round is due; none is once enough were found.
pub open spec fn next_round(search: EmailSearchView) -> EmailStepView
    decreases rounds().len() - search.round, 1int,
{
    if search.round >= rounds().len() || search.found.len() >= search.limit {
        EmailStepView::Done(best(search.found, search.limit))
    } else {
        within_fields(search, fields_start(search.filters, rounds()[search.round as int]))
    }
}

/// The step that a step of the search of fields leads to. A round without matches
/// is followed by the next.
pub open spec fn within_fields(search: EmailSearchView, step: FieldStepView) -> EmailStepView
    decreases rounds().len() - search.round, 0int,
{
    match step {
        FieldStepView::Done(ids) => if search.round >= rounds().len() {
            EmailStepView::Done(best(search.found, search.limit))
        } else if ids.len() == 0 {
            next_round(EmailSearchView { round: search.round + 1, ..search })
        } else {
            EmailStepView::NearestOf(rounds()[search.round as int], search, ids)
        },
        FieldStepView::Failed(message) => EmailStepView::Failed(message),
        FieldStepView::Ask(query, fields) => EmailStepView::FullText(query, search, fields),
    }
}

/// Of `ids`, those that have a score, with it.
pub open spec fn scored_ids(ids: Seq<Seq<char>>, scores: Map<Seq<char>, u32>) -> Seq<
    (Seq<char>, u32),
>
    decreases ids.len(),
{
    if ids.len() == 0 {
        seq![]
    } else {
        let before = scored_ids(ids.drop_last(), scores);
        if scores.dom().contains(ids.last()) {
            before.push((ids.last(), scores[ids.last()]))
        } else {
            before
        }
    }
}

/// The step that a step of fetching leads to.
pub open spec fn within_fetch(kind: KindView, step: FetchStepView) -> EmailStepView {
    match step {
        FetchStepView::Ask(filter, fetch) => EmailStepView::Emails(filter, kind, fetch),
        FetchStepView::Done(found) => match kind {
            KindView::Plain { .. } => EmailStepView::Done(found),
            KindView::Filtered(search) => next_round(
                EmailSearchView {
                    round: search.round + 1,
                    found: search.found + found,
                    ..search
                },
            ),
        },
    }
}

/// The step after the neighbours came in a search with filters: of the emails that
/// match, the most similar are fetched.
pub open spec fn after_neighbours(
    search: EmailSearchView,
    ids: Seq<Seq<char>>,
    neighbours: Seq<(Seq<char>, u32)>,
) -> EmailStepView {
    let scores = score_map(neighbours);
    let matching = by_score(scored_ids(ids, scores));
    if matching.len() == 0 {
        next_round(EmailSearchView { round: search.round + 1, ..search })
    } else {
        within_fetch(
            KindView::Filtered(search),
            fetch_start(
                cut_off(names_of(matching), search.limit),
                scores,
                search.limit,
                None,
                None,
            ),
        )
    }
}

/// The step after the neighbours came in a search without filters for fields.
pub open spec fn after_plain_neighbours(
    limit: nat,
    since: Option<(i64, u32)>,
    until: Option<(i64, u32)>,
    neighbours: Seq<(Seq<char>, u32)>,
) -> EmailStepView {
    within_fetch(
        KindView::Plain { limit, since, until },
        fetch_start(names_of(neighbours), score_map(neighbours), limit, since, until),
    )
}

/// Whether there are filters for fields.
pub open spec fn has_field_filters(filters: FiltersView) -> bool {
    filters.from is Some || filters.subject is Some || filters.body is Some || filters.symbols
        is Some || filters.recipients is Some
}

/// How many neighbours a search without filters for fields asks for.
pub open spec fn neighbours_wanted(filters: FiltersView, limit: nat) -> nat {
    if filters.since is Some || filters.until is Some {
        limit * FETCH_FACTOR_DATED as nat
    } else {
        limit * FETCH_FACTOR as nat
    }
}

/// The first step of a search.
pub open spec fn emails_start(filters: FiltersView, limit: nat) -> EmailStepView {
    if has_field_filters(filters) {
        next_round(EmailSearchView { filters, limit, round: 0, found: seq![] })
    } else {
        EmailStepView::Nearest(
            neighbours_wanted(filters, limit),
            limit,
            bound_moment(filters.since),
            bound_moment(filters.until),
        )
    }
}

/// The names of a list of names with scores.
fn list_names(pairs: &Vec<(String, u32)>, count: usize) -> (names: Vec<String>)
    ensures
        texts(names@) == cut_off(names_of(pairs_view(pairs@)), count as nat),
{
    let ghost all = names_of(pairs_view(pairs@));
    let mut names: Vec<String> = Vec::new();
    let mut i: usize = 0;
    while i < pairs.len() && i < count
        invariant
            i <= pairs@.len(),
            i <= count,
            all == names_of(pairs_view(pairs@)),
            texts(names@) == all.take(i as int),
        decreases pairs@.len() - i,
    {
        let ghost before = texts(names@);
        names.push(pairs[i].0.clone());
        assert(texts(names@) =~= before.push(all[i as int]));
        assert(all.take(i + 1) =~= before.push(all[i as int]));
        i = i + 1;
    }
    assert(all.take(all.len() as int) =~= all);
    names
}

/// Of `ids`, those that have a score, with it, by score.
fn match_scores(ids: &Vec<String>, scores: &Scores) -> (matching: Vec<(String, u32)>)
    ensures
        pairs_view(matching@) == by_score(scored_ids(texts(ids@), scores@)),
{
    let ghost all = texts(ids@);
    let mut matching: Vec<(String, u32)> = Vec::new();
    let mut i: usize = 0;
    assert(all.take(0) =~= seq![]);
    assert(pairs_view(matching@) =~= scored_ids(all.take(0), scores@));
    while i < ids.len()
        invariant
            i <= ids@.len(),
            all == texts(ids@),
            pairs_view(matching@) == scored_ids(all.take(i as int), scores@),
        decreases ids@.len() - i,
    {
        let ghost before = pairs_view(matching@);
        assert(all.take(i + 1).drop_last() =~= all.take(i as int));
        if let Some(score) = scores.get(ids[i].as_str()) {
            matching.push((ids[i].clone(), score));
            assert(pairs_view(matching@) =~= before.push((all[i as int], score)));
        }
        i = i + 1;
    }
    assert(all.take(i as int) =~= all);
    assert(scored_view(matching@) =~= pairs_view(matching@));
    let sorted = sort_by_score(matching);
    assert(scored_view(sorted@) =~= pairs_view(sorted@));
    sorted
}

/// What a search with filters hands out of what it found.
fn pick_best(found: Vec<(LoreEmailInfo, u32)>, limit: usize) -> (chosen: Vec<(LoreEmailInfo, u32)>)
    ensures
        scored_view(chosen@) == best(scored_view(found@), limit as nat),
{
    let found = sort_by_score(found);
    let ghost all = scored_view(found@);
    let mut keys: Vec<TextKey> = Vec::new();
    let mut i: usize = 0;
    while i < found.len()
        invariant
            i <= found@.len(),
            all == scored_view(found@),
            keys@.len() == i,
            forall|k: int| 0 <= k < i ==> (#[trigger] keys@[k]).text@ == all[k].0.message_id,
        decreases found@.len() - i,
    {
        keys.push(TextKey { text: found[i].0.message_id.as_str() });
        i = i + 1;
    }
    let order = find_first_places(&keys);
    proof {
        assert(keys_of(keys@) =~= message_keys(all));
        lemma_first_below(message_keys(all), message_keys(all).len() as int);
    }
    let kept = pick(found, &order);
    proof {
        assert(scored_view(kept@) =~= distinct_emails(all)) by {
            assert forall|a: int| 0 <= a < kept@.len() implies scored_view(kept@)[a]
                == distinct_emails(all)[a] by {
                assert(places(order@)[a] == order@[a] as int);
            }
        }
    }
    let mut chosen = kept;
    chosen.truncate(limit);
    assert(scored_view(chosen@) =~= cut_off(distinct_emails(all), limit as nat));
    chosen
}

/// The step that a step of fetching leads to.
fn go_within_fetch(kind: Kind, step: FetchStep) -> (next: EmailStep)
    requires
        kind matches Kind::Filtered(search) ==> search@.round < 4,
    ensures
        next@ == within_fetch(kind@, step@),
{
    match step {
        FetchStep::Ask(filter, fetch) => EmailStep::Emails(filter, AwaitEmails { kind, fetch }),
        FetchStep::Done(emails) => match kind {
            Kind::Plain { .. } => EmailStep::Done(emails),
            Kind::Filtered(search) => {
                let mut emails = emails;
                let ghost before = search@;
                let ghost more = scored_view(emails@);
                let EmailSearch { filters, limit, round, found } = search;
                let mut found = found;
                found.append(&mut emails);
                assert(scored_view(found@) =~= before.found + more);
                go_to_round(EmailSearch { filters, limit, round: round + 1, found })
            },
        },
    }
}

/// The step when the next round is due.
fn go_to_round(search: EmailSearch) -> (step: EmailStep)
    ensures
        step@ == next_round(search@),
    decreases 5 - search@.round,
{
    assert(search@.found.len() == search.found@.len());
    if search.round >= 4 || search.found.len() >= search.limit {
        return EmailStep::Done(pick_best(search.found, search.limit));
    }
    let filters = LoreEmailFilters {
        from_patterns: lend_patterns(&search.filters.from),
        subject_patterns: lend_patterns(&search.filters.subject),
        body_patterns: lend_patterns(&search.filters.body),
        symbols_patterns: lend_patterns(&search.filters.symbols),
        recipients_patterns: lend_patterns(&search.filters.recipients),
        since_date: lend_text(&search.filters.since),
        until_date: lend_text(&search.filters.until),
    };
    let limit = round_limit(search.round);
    assert(filters@ =~= search@.filters);
    let manager = VectorSearchManager::new();
    let step = manager.query_lore_fields_intersection(&filters, limit);
    match step {
        FieldStep::Done(ids) => {
            assert(texts(ids@).len() == ids@.len());
            if ids.len() == 0 {
                let EmailSearch { filters, limit, round, found } = search;
                return go_to_round(EmailSearch { filters, limit, round: round + 1, found });
            }
            EmailStep::NearestOf(limit, AwaitNearestOf { search, ids })
        },
        FieldStep::Failed(message) => EmailStep::Failed(message),
        FieldStep::Ask(query, fields) => EmailStep::FullText(
            query,
            AwaitFields { search, fields },
        ),
    }
}

impl AwaitFields {
    /// The candidates of the full-text index.
    pub fn candidates(self, candidates: Vec<Candidate>) -> (step: EmailStep)
        ensures
            step@ == within_fields(
                self.search(),
                after_candidates(self.fields(), candidates@),
            ),
    {
        proof {
            use_type_invariant(&self);
        }
        let AwaitFields { search, fields } = self;
        match fields.candidates(candidates) {
            FieldStep::Done(ids) => {
                assert(texts(ids@).len() == ids@.len());
                if ids.len() == 0 {
                    let EmailSearch { filters, limit, round, found } = search;
                    return go_to_round(EmailSearch { filters, limit, round: round + 1, found });
                }
                let limit = round_limit(search.round);
                EmailStep::NearestOf(limit, AwaitNearestOf { search, ids })
            },
            FieldStep::Failed(message) => EmailStep::Failed(message),
            FieldStep::Ask(query, fields) => EmailStep::FullText(
                query,
                AwaitFields { search, fields },
            ),
        }
    }
}

impl AwaitNearest {
    /// The nearest neighbours, with their scores.
    pub fn neighbours(self, neighbours: Vec<(String, u32)>) -> (step: EmailStep)
        ensures
            step@ == after_plain_neighbours(
                self.wanted(),
                self.since(),
                self.until(),
                pairs_view(neighbours@),
            ),
    {
        let scores = Scores::of(&neighbours);
        let ids = list_names(&neighbours, neighbours.len());
        proof {
            let all = names_of(pairs_view(neighbours@));
            assert(texts(ids@) =~= all);
        }
        let AwaitNearest { limit, since, until } = self;
        go_within_fetch(
            Kind::Plain { limit, since, until },
            fetch_emails_by_ids(ids, scores, limit, since, until),
        )
    }
}

impl AwaitNearestOf {
    /// The nearest neighbours, with their scores.
    pub fn neighbours(self, neighbours: Vec<(String, u32)>) -> (step: EmailStep)
        ensures
            step@ == after_neighbours(self.search(), self.ids(), pairs_view(neighbours@)),
    {
        proof {
            use_type_invariant(&self);
        }
        let AwaitNearestOf { search, ids } = self;
        let scores = Scores::of(&neighbours);
        let matching = match_scores(&ids, &scores);
        assert(pairs_view(matching@).len() == matching@.len());
        if matching.len() == 0 {
            let EmailSearch { filters, limit, round, found } = search;
            return go_to_round(EmailSearch { filters, limit, round: round + 1, found });
        }
        let limit = search.limit;
        let names = list_names(&matching, limit);
        let step = fetch_emails_by_ids(names, scores, limit, None, None);
        go_within_fetch(Kind::Filtered(search), step)
    }
}

impl AwaitEmails {
    /// The rows that were asked for.
    pub fn rows(self, rows: Vec<EmailRow>) -> (step: EmailStep)
        ensures
            step@ == within_fetch(self.kind(), after_email_rows(self.fetch(), rows@)),
    {
        proof {
            use_type_invariant(&self);
        }
        let AwaitEmails { kind, fetch } = self;
        let step = fetch.rows(rows);
        go_within_fetch(kind, step)
    }
}

/// Whether there are filters for fields.
fn filters_fields(filters: &LoreEmailFilters) -> (yes: bool)
    ensures
        yes == has_field_filters(filters@),
{
    filters.from_patterns.is_some() || filters.subject_patterns.is_some()
        || filters.body_patterns.is_some() || filters.symbols_patterns.is_some()
        || filters.recipients_patterns.is_some()
}

/// Whether a search for emails asks for no more neighbours than can be counted.
pub open spec fn countable(filters: FiltersView, limit: nat) -> bool {
    has_field_filters(filters) || neighbours_wanted(filters, limit) <= usize::MAX
}

impl VectorSearchManager {
    /// Whether a search for emails asks for no more neighbours than can be counted.
    pub fn can_search_emails(&self, limit: usize, filters: &LoreEmailFilters) -> (yes: bool)
        ensures
            yes == countable(filters@, limit as nat),
    {
        let factor: usize = if filters.since_date.is_some() || filters.until_date.is_some() {
            FETCH_FACTOR_DATED
        } else {
            FETCH_FACTOR
        };
        filters_fields(filters) || limit.checked_mul(factor).is_some()
    }

    /// Searches for emails by similarity.
    pub fn search_similar_lore_emails(&self, limit: usize, filters: &LoreEmailFilters) -> (step:
        EmailStep)
        requires
            countable(filters@, limit as nat),
        ensures
            step@ == emails_start(filters@, limit as nat),
    {
        if filters_fields(filters) {
            let own = OwnFilters {
                from: own_patterns(filters.from_patterns),
                subject: own_patterns(filters.subject_patterns),
                body: own_patterns(filters.body_patterns),
                symbols: own_patterns(filters.symbols_patterns),
                recipients: own_patterns(filters.recipients_patterns),
                since: own_text(filters.since_date),
                until: own_text(filters.until_date),
            };
            assert(own.view() =~= filters@);
            let found: Vec<(LoreEmailInfo, u32)> = Vec::new();
            assert(scored_view(found@) =~= seq![]);
            go_to_round(EmailSearch { filters: own, limit, round: 0, found })
        } else {
            let since = match filters.since_date {
                Some(date) => parse_moment(date),
                None => None,
            };
            let until = match filters.until_date {
                Some(date) => parse_moment(date),
                None => None,
            };
            let count: usize = if filters.since_date.is_some() || filters.until_date.is_some() {
                limit * FETCH_FACTOR_DATED
            } else {
                limit * FETCH_FACTOR
            };
            EmailStep::Nearest(count, AwaitNearest { limit, since, until })
        }
    }
}

} // verus!
