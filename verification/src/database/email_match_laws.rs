//! Which emails a search by similarity hands out, in terms of what the database holds.

use vstd::prelude::*;

use crate::database::conditions::equals;
use crate::database::field_laws::{admits, finds, given, keeps};
use crate::database::lore_fields::{
    after_candidates, candidate_kept, fields_start, patterns_compile, queried_fields, Candidate,
    FieldStepView, FiltersView, FullTextQueryView,
};
use crate::database::match_record_laws::{has_score, lemma_score_map};
use crate::database::similar_emails::{
    best, cut_off, emails_start, fetch_next, ids_filter, ids_filters, next_round, rounds,
    scored_ids, with_rows, within_fetch, within_fields, EmailRow, EmailSearchView, EmailStepView,
    FetchStepView, FetchView, KindView, EMAIL_CHUNK,
};
use crate::database::similar_field_laws::{admitted, law_similar_emails_fit, rows_by_id};
use crate::database::similar_laws::{
    dated_within, email_answered, email_run, law_best, law_similar_emails, EmailAnswers,
};
use crate::json::json_text_list;
use crate::lists::pieces;
use crate::pattern::{
    bound_moment, earlier, full_text_words, regex_fault, regex_found, rfc2822_moment, within,
};
use crate::scores::{by_score, law_by_score, names_of, score_map};
use crate::text::{escaped, joined};
use crate::types::{text_or_none, LoreEmailInfoView};

verus! {

/// Whether patterns are given for one of the five fields.
pub open spec fn fields_given(filters: FiltersView) -> bool {
    !(filters.from is None && filters.subject is None && filters.body is None
        && filters.symbols is None && filters.recipients is None)
}

/// Whether a date lies from one on and up to another, as far as these are dates.
pub open spec fn lies_within(
    date: Seq<char>,
    since: Option<Seq<char>>,
    until: Option<Seq<char>>,
) -> bool {
    &&& (since matches Some(text) ==> (rfc2822_moment(text) matches Some(s) ==> (rfc2822_moment(
        date,
    ) matches Some(m) && !earlier(m, s))))
    &&& (until matches Some(text) ==> (rfc2822_moment(text) matches Some(u) ==> (rfc2822_moment(
        date,
    ) matches Some(m) && !earlier(u, m))))
}

/// Whether a pattern can be compiled and is found in a text, upper and lower case taken as the
/// same.
pub open spec fn found_in(pattern: Seq<char>, text: Seq<char>) -> bool {
    regex_fault(pattern, true, usize::BITS) is None && regex_found(pattern, true, text)
}

/// Whether one of the emails that full-text search finds for a pattern in a field has this id,
/// the pattern in that field, and a date within the bounds.
pub open spec fn pattern_admits(
    column: Seq<char>,
    pattern: Seq<char>,
    filters: FiltersView,
    limit: nat,
    candidates: spec_fn(FullTextQueryView) -> Seq<Candidate>,
    id: Seq<char>,
) -> bool {
    let list = candidates(FullTextQueryView { column, words: full_text_words(pattern), limit });
    exists|k: int|
        0 <= k < list.len() && (#[trigger] list[k]).message_id@ == id && found_in(
            pattern,
            list[k].text@,
        ) && lies_within(list[k].date@, filters.since, filters.until)
}

/// Whether a field admits an id: one of its patterns does, where there are some.
pub open spec fn patterns_admit(
    column: Seq<char>,
    patterns: Option<Seq<Seq<char>>>,
    filters: FiltersView,
    limit: nat,
    candidates: spec_fn(FullTextQueryView) -> Seq<Candidate>,
    id: Seq<char>,
) -> bool {
    patterns matches Some(list) ==> list.len() > 0 ==> exists|p: int|
        0 <= p < list.len() && #[trigger] pattern_admits(
            column,
            list[p],
            filters,
            limit,
            candidates,
            id,
        )
}

/// Whether all five fields admit an id.
pub open spec fn all_admit(
    filters: FiltersView,
    limit: nat,
    candidates: spec_fn(FullTextQueryView) -> Seq<Candidate>,
    id: Seq<char>,
) -> bool {
    &&& patterns_admit("from"@, filters.from, filters, limit, candidates, id)
    &&& patterns_admit("subject"@, filters.subject, filters, limit, candidates, id)
    &&& patterns_admit("body"@, filters.body, filters, limit, candidates, id)
    &&& patterns_admit("symbols"@, filters.symbols, filters, limit, candidates, id)
    &&& patterns_admit("recipients"@, filters.recipients, filters, limit, candidates, id)
}

/// Whether all patterns of a field can be compiled.
pub open spec fn can_compile(patterns: Option<Seq<Seq<char>>>) -> bool {
    patterns matches Some(list) ==> forall|p: int|
        0 <= p < list.len() ==> regex_fault(#[trigger] list[p], true, usize::BITS) is None
}

/// Whether all patterns can be compiled.
pub open spec fn all_compile(filters: FiltersView) -> bool {
    &&& can_compile(filters.from)
    &&& can_compile(filters.subject)
    &&& can_compile(filters.body)
    &&& can_compile(filters.symbols)
    &&& can_compile(filters.recipients)
}

/// The condition that an email has one of some ids.
pub open spec fn ids_condition(ids: Seq<Seq<char>>) -> Seq<char> {
    "("@ + joined(
        ids.map_values(|id: Seq<char>| "message_id"@ + " = '"@ + escaped(id) + "'"@),
        " OR "@,
    ) + ")"@
}

pub proof fn lemma_ids_condition(ids: Seq<Seq<char>>)
    ensures
        ids_condition(ids) == ids_filter(ids),
{
    assert(ids.map_values(|id: Seq<char>| "message_id"@ + " = '"@ + escaped(id) + "'"@)
        =~= ids.map_values(|value: Seq<char>| equals("message_id"@, value, true)));
}

/// Whether the emails that a condition on ids finds have one of the ids.
pub open spec fn finds_by_id(rows: spec_fn(Seq<char>) -> Seq<EmailRow>) -> bool {
    forall|ids: Seq<Seq<char>>, k: int|
        0 <= k < rows(ids_condition(ids)).len() ==> ids.contains(
            (#[trigger] rows(ids_condition(ids))[k]).message_id@,
        )
}

pub proof fn lemma_within(date: Seq<char>, since: Option<Seq<char>>, until: Option<Seq<char>>)
    ensures
        within(rfc2822_moment(date), bound_moment(since), bound_moment(until)) <==> lies_within(
            date,
            since,
            until,
        ),
{
}

proof fn lemma_finds(
    column: Seq<char>,
    pattern: Seq<char>,
    filters: FiltersView,
    limit: nat,
    candidates: spec_fn(FullTextQueryView) -> Seq<Candidate>,
    id: Seq<char>,
)
    requires
        limit > 0,
    ensures
        finds(column, pattern, filters, limit, candidates, id) <==> pattern_admits(
            column,
            pattern,
            filters,
            limit,
            candidates,
            id,
        ),
{
    let query = FullTextQueryView { column, words: full_text_words(pattern), limit };
    let list = candidates(query);
    let since = bound_moment(filters.since);
    let until = bound_moment(filters.until);
    assert forall|k: int| 0 <= k < list.len() implies (candidate_kept(
        #[trigger] list[k],
        pattern,
        since,
        until,
    ) <==> found_in(pattern, list[k].text@) && lies_within(
        list[k].date@,
        filters.since,
        filters.until,
    )) by {
        lemma_within(list[k].date@, filters.since, filters.until);
    }
    assert(crate::database::lore_fields::question(column, pattern, limit) == query);
    if keeps(list, pattern, since, until, id) {
        let k = choose|k: int|
            0 <= k < list.len() && candidate_kept(#[trigger] list[k], pattern, since, until)
                && list[k].message_id@ == id;
        assert(list[k].message_id@ == id);
    }
    if pattern_admits(column, pattern, filters, limit, candidates, id) {
        let k = choose|k: int|
            0 <= k < list.len() && (#[trigger] list[k]).message_id@ == id && found_in(
                pattern,
                list[k].text@,
            ) && lies_within(list[k].date@, filters.since, filters.until);
        assert(candidate_kept(list[k], pattern, since, until));
    }
}

proof fn lemma_field(
    column: Seq<char>,
    patterns: Option<Seq<Seq<char>>>,
    filters: FiltersView,
    limit: nat,
    candidates: spec_fn(FullTextQueryView) -> Seq<Candidate>,
    id: Seq<char>,
)
    requires
        limit > 0,
    ensures
        crate::database::field_laws::field_admits(
            column,
            patterns,
            filters,
            limit,
            candidates,
            id,
        ) <==> patterns_admit(column, patterns, filters, limit, candidates, id),
{
    if given(patterns) {
        let list = patterns->0;
        assert forall|p: int| 0 <= p < list.len() implies (#[trigger] finds(
            column,
            list[p],
            filters,
            limit,
            candidates,
            id,
        ) <==> pattern_admits(column, list[p], filters, limit, candidates, id)) by {
            lemma_finds(column, list[p], filters, limit, candidates, id);
        }
        if crate::database::field_laws::field_admits(column, patterns, filters, limit, candidates, id) {
            let p = choose|p: int|
                0 <= p < list.len() && #[trigger] finds(column, list[p], filters, limit, candidates, id);
            assert(pattern_admits(column, list[p], filters, limit, candidates, id));
        }
        if patterns_admit(column, patterns, filters, limit, candidates, id) {
            let p = choose|p: int|
                0 <= p < list.len() && #[trigger] pattern_admits(
                    column,
                    list[p],
                    filters,
                    limit,
                    candidates,
                    id,
                );
            assert(finds(column, list[p], filters, limit, candidates, id));
        }
    }
}

pub proof fn lemma_admits(
    filters: FiltersView,
    limit: nat,
    candidates: spec_fn(FullTextQueryView) -> Seq<Candidate>,
    id: Seq<char>,
)
    requires
        limit > 0,
    ensures
        admits(filters, limit, candidates, id) <==> all_admit(filters, limit, candidates, id),
{
    lemma_field("from"@, filters.from, filters, limit, candidates, id);
    lemma_field("subject"@, filters.subject, filters, limit, candidates, id);
    lemma_field("body"@, filters.body, filters, limit, candidates, id);
    lemma_field("symbols"@, filters.symbols, filters, limit, candidates, id);
    lemma_field("recipients"@, filters.recipients, filters, limit, candidates, id);
}

proof fn lemma_compile(filters: FiltersView)
    requires
        all_compile(filters),
    ensures
        patterns_compile(queried_fields(filters)),
{
}

/// Whether an id is admitted by all fields among the candidates of a round.
pub open spec fn admitted_in_a_round(
    filters: FiltersView,
    candidates: spec_fn(FullTextQueryView) -> Seq<Candidate>,
    id: Seq<char>,
) -> bool {
    all_admit(filters, 1_000, candidates, id) || all_admit(filters, 10_000, candidates, id)
        || all_admit(filters, 50_000, candidates, id) || all_admit(
        filters,
        100_000,
        candidates,
        id,
    )
}

/// Each email that a search by similarity hands out is admitted by every field for which
/// patterns are given; without patterns, its date lies within the bounds.
pub proof fn law_emails_are_admitted(
    filters: FiltersView,
    limit: nat,
    answers: EmailAnswers,
    steps: nat,
)
    requires
        all_compile(filters),
        finds_by_id(answers.rows),
    ensures
        email_run(emails_start(filters, limit), answers, steps) matches EmailStepView::Done(found)
            ==> forall|a: int|
            0 <= a < found.len() ==> if fields_given(filters) {
                admitted_in_a_round(
                    filters,
                    answers.candidates,
                    (#[trigger] found[a]).0.message_id,
                )
            } else {
                rfc2822_moment(found[a].0.date) is Some && lies_within(
                    found[a].0.date,
                    filters.since,
                    filters.until,
                )
            },
{
    lemma_compile(filters);
    assert(rows_by_id(answers)) by {
        assert forall|ids: Seq<Seq<char>>, k: int|
            0 <= k < (answers.rows)(ids_filter(ids)).len() implies ids.contains(
            (#[trigger] (answers.rows)(ids_filter(ids))[k]).message_id@,
        ) by {
            lemma_ids_condition(ids);
            assert((answers.rows)(ids_condition(ids))[k] == (answers.rows)(ids_filter(ids))[k]);
        }
    }
    law_similar_emails_fit(filters, limit, answers, steps);
    if let EmailStepView::Done(found) = email_run(emails_start(filters, limit), answers, steps) {
        assert forall|a: int| 0 <= a < found.len() implies if fields_given(filters) {
            admitted_in_a_round(filters, answers.candidates, (#[trigger] found[a]).0.message_id)
        } else {
            rfc2822_moment(found[a].0.date) is Some && lies_within(
                found[a].0.date,
                filters.since,
                filters.until,
            )
        } by {
            if fields_given(filters) {
                let id = found[a].0.message_id;
                assert(admitted(filters, answers, found[a].0.message_id));
                let r = choose|r: int|
                    0 <= r < rounds().len() && #[trigger] admits(
                        filters,
                        rounds()[r],
                        answers.candidates,
                        id,
                    );
                lemma_admits(filters, rounds()[r], answers.candidates, id);
            } else {
                assert(dated_within(
                    found[a].0,
                    bound_moment(filters.since),
                    bound_moment(filters.until),
                ));
                lemma_within(found[a].0.date, filters.since, filters.until);
            }
        }
    }
}

/// Whether a search comes to ask for so many neighbours: with patterns for fields round by
/// round, without twice as many as wanted, or fifty times as many where dates are bound.
pub open spec fn neighbours_asked(filters: FiltersView, limit: nat, count: nat) -> bool {
    if fields_given(filters) {
        count == 1_000 || count == 10_000 || count == 50_000 || count == 100_000
    } else if filters.since is None && filters.until is None {
        count == limit * 2
    } else {
        count == limit * 50
    }
}

/// Whether an email is that of a row, whose date is one.
pub open spec fn is_email(email: LoreEmailInfoView, row: EmailRow) -> bool {
    &&& email.git_commit_sha == row.git_commit_sha@
    &&& email.message_id == row.message_id@
    &&& email.from == row.from@
    &&& email.date == row.date@
    &&& email.subject == row.subject@
    &&& email.in_reply_to == text_or_none(row.in_reply_to)
    &&& email.references == text_or_none(row.references)
    &&& email.recipients == row.recipients@
    &&& email.body == row.body@
    &&& email.symbols == (match json_text_list(row.symbols@) {
        Ok(list) => list,
        Err(_) => seq![],
    })
    &&& rfc2822_moment(row.date@) matches Some(moment) && email.date_timestamp == (
    match row.date_timestamp {
        Some(timestamp) => timestamp,
        None => moment.0,
    })
}

/// Whether an entry is the email of a row that a condition on ids finds, with the score that it
/// has among the neighbours that the search asks for.
pub open spec fn stems_from(
    filters: FiltersView,
    limit: nat,
    answers: EmailAnswers,
    entry: (LoreEmailInfoView, u32),
) -> bool {
    exists|count: nat, ids: Seq<Seq<char>>, k: int|
        neighbours_asked(filters, limit, count) && 0 <= k < (answers.rows)(
            ids_condition(ids),
        ).len() && is_email(entry.0, #[trigger] (answers.rows)(ids_condition(ids))[k])
            && #[trigger] has_score(
            (answers.neighbours)(count),
            entry.0.message_id,
            entry.1,
        )
}

spec fn all_stem(
    filters: FiltersView,
    limit: nat,
    answers: EmailAnswers,
    found: Seq<(LoreEmailInfoView, u32)>,
) -> bool {
    forall|a: int| 0 <= a < found.len() ==> stems_from(filters, limit, answers, #[trigger] found[a])
}

/// Whether fetching goes by the scores of neighbours that were asked for.
spec fn fetch_stems(filters: FiltersView, limit: nat, answers: EmailAnswers, fetch: FetchView) -> bool {
    &&& all_stem(filters, limit, answers, fetch.found)
    &&& exists|count: nat|
        neighbours_asked(filters, limit, count) && fetch.scores == #[trigger] score_map(
            (answers.neighbours)(count),
        )
    &&& exists|ids: Seq<Seq<char>>| fetch.filters == #[trigger] ids_filters(ids)
}

spec fn search_stems(filters: FiltersView, limit: nat, answers: EmailAnswers, search: EmailSearchView) -> bool {
    search.limit == limit && all_stem(filters, limit, answers, search.found)
}

/// What every step of a search keeps to.
spec fn stems(filters: FiltersView, limit: nat, answers: EmailAnswers, step: EmailStepView) -> bool {
    match step {
        EmailStepView::Done(found) => all_stem(filters, limit, answers, found),
        EmailStepView::Failed(_) => true,
        EmailStepView::FullText(_, search, _) => fields_given(filters) && search.round
            < rounds().len() && search_stems(filters, limit, answers, search),
        EmailStepView::Nearest(count, _, _, _) => neighbours_asked(filters, limit, count),
        EmailStepView::NearestOf(count, search, _) => fields_given(filters) && neighbours_asked(
            filters,
            limit,
            count,
        ) && search_stems(filters, limit, answers, search),
        EmailStepView::Emails(filter, kind, fetch) => fetch_stems(filters, limit, answers, fetch)
            && fetch.filters.contains(filter) && match kind {
            KindView::Plain { .. } => true,
            KindView::Filtered(search) => fields_given(filters) && search_stems(
                filters,
                limit,
                answers,
                search,
            ),
        },
    }
}

proof fn lemma_sorted_stem(
    filters: FiltersView,
    limit: nat,
    answers: EmailAnswers,
    found: Seq<(LoreEmailInfoView, u32)>,
    some: Seq<(LoreEmailInfoView, u32)>,
)
    requires
        all_stem(filters, limit, answers, found),
        forall|a: int| 0 <= a < some.len() ==> found.contains(#[trigger] some[a]),
    ensures
        all_stem(filters, limit, answers, some),
{
    assert forall|a: int| 0 <= a < some.len() implies stems_from(
        filters,
        limit,
        answers,
        #[trigger] some[a],
    ) by {
        assert(found.contains(some[a]));
        let q = choose|q: int| 0 <= q < found.len() && found[q] == some[a];
        assert(stems_from(filters, limit, answers, found[q]));
    }
}

proof fn lemma_round_stems(
    filters: FiltersView,
    limit: nat,
    answers: EmailAnswers,
    search: EmailSearchView,
)
    requires
        fields_given(filters),
        search_stems(filters, limit, answers, search),
    ensures
        stems(filters, limit, answers, next_round(search)),
    decreases rounds().len() - search.round, 1int,
{
    if search.round >= rounds().len() || search.found.len() >= search.limit {
        law_best(search.found, search.limit);
        lemma_sorted_stem(filters, limit, answers, search.found, best(search.found, search.limit));
    } else {
        lemma_fields_stem(
            filters,
            limit,
            answers,
            search,
            fields_start(search.filters, rounds()[search.round as int]),
        );
    }
}

proof fn lemma_fields_stem(
    filters: FiltersView,
    limit: nat,
    answers: EmailAnswers,
    search: EmailSearchView,
    step: FieldStepView,
)
    requires
        fields_given(filters),
        search.round < rounds().len(),
        search_stems(filters, limit, answers, search),
    ensures
        stems(filters, limit, answers, within_fields(search, step)),
    decreases rounds().len() - search.round, 0int,
{
    match step {
        FieldStepView::Done(ids) => {
            if ids.len() == 0 {
                lemma_round_stems(
                    filters,
                    limit,
                    answers,
                    EmailSearchView { round: search.round + 1, ..search },
                );
            }
        },
        _ => {},
    }
}

proof fn lemma_fetch_stems(
    filters: FiltersView,
    limit: nat,
    answers: EmailAnswers,
    kind: KindView,
    fetch: FetchView,
)
    requires
        fetch_stems(filters, limit, answers, fetch),
        match kind {
            KindView::Plain { .. } => true,
            KindView::Filtered(search) => fields_given(filters) && search_stems(
                filters,
                limit,
                answers,
                search,
            ),
        },
    ensures
        stems(filters, limit, answers, within_fetch(kind, fetch_next(fetch))),
{
    match fetch_next(fetch) {
        FetchStepView::Ask(filter, after) => {
            assert(fetch.filters.contains(fetch.filters[fetch.next as int]));
        },
        FetchStepView::Done(found) => {
            law_by_score(fetch.found);
            assert forall|a: int| 0 <= a < found.len() implies fetch.found.contains(
                #[trigger] found[a],
            ) by {
                assert(found.contains(found[a]));
            }
            lemma_sorted_stem(filters, limit, answers, fetch.found, found);
            if let KindView::Filtered(search) = kind {
                let all = search.found + found;
                assert forall|a: int| 0 <= a < all.len() implies stems_from(
                    filters,
                    limit,
                    answers,
                    #[trigger] all[a],
                ) by {
                    if a < search.found.len() {
                        assert(all[a] == search.found[a]);
                    } else {
                        assert(all[a] == found[a - search.found.len()]);
                    }
                }
                lemma_round_stems(
                    filters,
                    limit,
                    answers,
                    EmailSearchView { round: search.round + 1, found: all, ..search },
                );
            }
        },
    }
}

proof fn lemma_rows_stem(
    filters: FiltersView,
    limit: nat,
    answers: EmailAnswers,
    fetch: FetchView,
    ids: Seq<Seq<char>>,
    count: nat,
    rows: Seq<EmailRow>,
)
    requires
        all_stem(filters, limit, answers, fetch.found),
        neighbours_asked(filters, limit, count),
        fetch.scores == score_map((answers.neighbours)(count)),
        rows.len() <= (answers.rows)(ids_condition(ids)).len(),
        rows == (answers.rows)(ids_condition(ids)).take(rows.len() as int),
    ensures
        all_stem(filters, limit, answers, with_rows(fetch, rows)),
    decreases rows.len(),
{
    if rows.len() > 0 {
        let fewer = rows.drop_last();
        let whole = (answers.rows)(ids_condition(ids));
        assert(fewer =~= whole.take(fewer.len() as int));
        lemma_rows_stem(filters, limit, answers, fetch, ids, count, fewer);
        let before = with_rows(fetch, fewer);
        let after = with_rows(fetch, rows);
        let row = rows.last();
        assert forall|a: int| 0 <= a < after.len() implies stems_from(
            filters,
            limit,
            answers,
            #[trigger] after[a],
        ) by {
            if a < before.len() {
                assert(after[a] == before[a]);
            } else {
                lemma_score_map((answers.neighbours)(count), row.message_id@);
                assert(whole[rows.len() - 1] == row);
                assert(is_email(after[a].0, (answers.rows)(ids_condition(ids))[rows.len() - 1]));
                assert(has_score(
                    (answers.neighbours)(count),
                    after[a].0.message_id,
                    after[a].1,
                ));
            }
        }
    }
}

proof fn lemma_answer_stems(
    filters: FiltersView,
    limit: nat,
    answers: EmailAnswers,
    step: EmailStepView,
)
    requires
        stems(filters, limit, answers, step),
    ensures
        stems(filters, limit, answers, email_answered(step, answers)),
{
    match step {
        EmailStepView::FullText(query, search, fields) => {
            lemma_fields_stem(
                filters,
                limit,
                answers,
                search,
                after_candidates(fields, (answers.candidates)(query)),
            );
        },
        EmailStepView::Nearest(count, wanted, since, until) => {
            let neighbours = (answers.neighbours)(count);
            let fetch = FetchView {
                filters: ids_filters(names_of(neighbours)),
                next: 0,
                scores: score_map(neighbours),
                limit: wanted,
                since,
                until,
                found: seq![],
            };
            assert(fetch_stems(filters, limit, answers, fetch));
            lemma_fetch_stems(
                filters,
                limit,
                answers,
                KindView::Plain { limit: wanted, since, until },
                fetch,
            );
        },
        EmailStepView::NearestOf(count, search, ids) => {
            let scores = score_map((answers.neighbours)(count));
            let matching = by_score(scored_ids(ids, scores));
            if matching.len() == 0 {
                lemma_round_stems(
                    filters,
                    limit,
                    answers,
                    EmailSearchView { round: search.round + 1, ..search },
                );
            } else {
                let fetch = FetchView {
                    filters: ids_filters(cut_off(names_of(matching), search.limit)),
                    next: 0,
                    scores,
                    limit: search.limit,
                    since: None,
                    until: None,
                    found: seq![],
                };
                assert(fetch_stems(filters, limit, answers, fetch));
                lemma_fetch_stems(filters, limit, answers, KindView::Filtered(search), fetch);
            }
        },
        EmailStepView::Emails(filter, kind, fetch) => {
            let rows = (answers.rows)(filter);
            let count = choose|count: nat|
                neighbours_asked(filters, limit, count) && fetch.scores == #[trigger] score_map(
                    (answers.neighbours)(count),
                );
            let all = choose|ids: Seq<Seq<char>>| fetch.filters == #[trigger] ids_filters(ids);
            let f = choose|f: int| 0 <= f < fetch.filters.len() && fetch.filters[f] == filter;
            let ids = pieces(all, EMAIL_CHUNK as nat)[f];
            lemma_ids_condition(ids);
            assert(filter == ids_condition(ids));
            assert(rows =~= rows.take(rows.len() as int));
            lemma_rows_stem(filters, limit, answers, fetch, ids, count, rows);
            lemma_fetch_stems(
                filters,
                limit,
                answers,
                kind,
                FetchView { found: with_rows(fetch, rows), ..fetch },
            );
        },
        _ => {},
    }
}

proof fn lemma_run_stems(
    filters: FiltersView,
    limit: nat,
    answers: EmailAnswers,
    step: EmailStepView,
    steps: nat,
)
    requires
        stems(filters, limit, answers, step),
    ensures
        stems(filters, limit, answers, email_run(step, answers, steps)),
    decreases steps,
{
    if steps > 0 {
        lemma_answer_stems(filters, limit, answers, step);
        lemma_run_stems(
            filters,
            limit,
            answers,
            email_answered(step, answers),
            (steps - 1) as nat,
        );
    }
}

/// What a search by similarity hands out: no more than wanted, the most similar first, with
/// patterns for fields no email twice, and each the email of a row that the database finds by
/// its id, with the score that it has among the neighbours that were asked for.
pub proof fn law_emails_are_matched(
    filters: FiltersView,
    limit: nat,
    answers: EmailAnswers,
    steps: nat,
)
    ensures
        email_run(emails_start(filters, limit), answers, steps) matches EmailStepView::Done(found)
            ==> {
            &&& found.len() <= limit
            &&& forall|a: int, b: int|
                0 <= a < b < found.len() ==> (#[trigger] found[a]).1 >= (#[trigger] found[b]).1
            &&& forall|a: int, b: int|
                fields_given(filters) && 0 <= a < b < found.len() ==> (
                #[trigger] found[a]).0.message_id != (#[trigger] found[b]).0.message_id
            &&& forall|a: int|
                0 <= a < found.len() ==> stems_from(filters, limit, answers, #[trigger] found[a])
        },
{
    let start = emails_start(filters, limit);
    law_similar_emails(filters, limit, answers, steps);
    if fields_given(filters) {
        lemma_round_stems(
            filters,
            limit,
            answers,
            EmailSearchView { filters, limit, round: 0, found: seq![] },
        );
    }
    lemma_run_stems(filters, limit, answers, start, steps);
}

/// A search without patterns for fields asks for neighbours first; one with patterns asks
/// full-text search for a pattern of a field first, unless no pattern is given or none is
/// wanted.
pub proof fn law_emails_first_question(filters: FiltersView, limit: nat)
    ensures
        fields_given(filters) ==> !(emails_start(filters, limit) is Nearest),
        !fields_given(filters) ==> (emails_start(filters, limit) matches EmailStepView::Nearest(
            count,
            wanted,
            since,
            until,
        ) && neighbours_asked(filters, limit, count) && wanted == limit),
        (given(filters.from) || given(filters.subject) || given(filters.body) || given(
            filters.symbols,
        ) || given(filters.recipients)) && limit > 0 ==> emails_start(filters, limit) is FullText,
{
    if fields_given(filters) {
        let search = EmailSearchView { filters, limit, round: 0, found: seq![] };
        lemma_not_plain(search);
        if given(filters.from) || given(filters.subject) || given(filters.body) || given(
            filters.symbols,
        ) || given(filters.recipients) {
            assert(queried_fields(filters).len() > 0);
        }
    }
}

proof fn lemma_not_plain(search: EmailSearchView)
    ensures
        !(next_round(search) is Nearest),
    decreases rounds().len() - search.round,
{
    if search.round < rounds().len() && search.found.len() < search.limit {
        match fields_start(search.filters, rounds()[search.round as int]) {
            FieldStepView::Done(ids) => {
                if ids.len() == 0 {
                    lemma_not_plain(EmailSearchView { round: search.round + 1, ..search });
                }
            },
            _ => {},
        }
    }
}

} // verus!
