//! Which emails a search by similarity hands out: those that its filters admit.

use vstd::prelude::*;

use crate::database::field_laws::{admits, law_fields_admit};
use crate::database::lore_fields::{
    after_candidates, fields_start, law_fields_agree, matching_ids, patterns_compile,
    queried_fields, run_fields, Candidate, FieldStepView, FiltersView, FullTextQueryView,
};
use crate::database::similar_emails::{
    best, cut_off, emails_start, fetch_next, has_field_filters, ids_filter,
    ids_filters, next_round, rounds, scored_ids, with_rows, within_fetch, within_fields, EmailRow,
    EmailSearchView, EmailStepView, FetchStepView, FetchView, KindView, EMAIL_CHUNK,
};
use crate::database::similar_laws::{
    dated_within, email_answered, email_run, law_best, law_fetch_dates, EmailAnswers,
};
use crate::lists::{lemma_pieces_within, pieces};
use crate::pattern::bound_moment;
use crate::scores::{by_score, law_by_score, names_of, score_map};
use crate::types::LoreEmailInfoView;

verus! {

/// Whether the rows of emails are answered as they are asked for: each has one of the ids
/// that the condition names.
pub open spec fn rows_by_id(answers: EmailAnswers) -> bool {
    forall|ids: Seq<Seq<char>>, k: int|
        0 <= k < (answers.rows)(ids_filter(ids)).len() ==> ids.contains(
            (#[trigger] (answers.rows)(ids_filter(ids))[k]).message_id@,
        )
}

/// Whether the patterns of the fields, and the dates, admit a message id among the
/// candidates of some round.
pub open spec fn admitted(filters: FiltersView, answers: EmailAnswers, id: Seq<char>) -> bool {
    exists|r: int|
        0 <= r < rounds().len() && #[trigger] admits(
            filters,
            rounds()[r],
            answers.candidates,
            id,
        )
}

/// Whether each email of a list is admitted.
pub open spec fn emails_admitted(
    filters: FiltersView,
    answers: EmailAnswers,
    found: Seq<(LoreEmailInfoView, u32)>,
) -> bool {
    forall|a: int|
        0 <= a < found.len() ==> admitted(filters, answers, (#[trigger] found[a]).0.message_id)
}

/// Whether the date of each email of a list lies within the bounds of the filters.
pub open spec fn emails_dated(
    filters: FiltersView,
    found: Seq<(LoreEmailInfoView, u32)>,
) -> bool {
    forall|a: int|
        0 <= a < found.len() ==> dated_within(
            (#[trigger] found[a]).0,
            bound_moment(filters.since),
            bound_moment(filters.until),
        )
}

/// Whether each of some ids is admitted.
spec fn ids_admitted(filters: FiltersView, answers: EmailAnswers, ids: Seq<Seq<char>>) -> bool {
    forall|a: int| 0 <= a < ids.len() ==> admitted(filters, answers, #[trigger] ids[a])
}

/// The step of a search of fields after some answers.
spec fn field_step(
    step: FieldStepView,
    answers: spec_fn(FullTextQueryView) -> Seq<Candidate>,
    steps: nat,
) -> FieldStepView
    decreases steps,
{
    if steps == 0 {
        step
    } else {
        match step {
            FieldStepView::Ask(query, state) => field_step(
                after_candidates(state, answers(query)),
                answers,
                (steps - 1) as nat,
            ),
            _ => step,
        }
    }
}

/// Whether a search of fields comes to this step.
spec fn reached(
    filters: FiltersView,
    limit: nat,
    answers: spec_fn(FullTextQueryView) -> Seq<Candidate>,
    step: FieldStepView,
) -> bool {
    exists|steps: nat| #[trigger]
        field_step(fields_start(filters, limit), answers, steps) == step
}

proof fn lemma_one_more(
    step: FieldStepView,
    answers: spec_fn(FullTextQueryView) -> Seq<Candidate>,
    steps: nat,
)
    ensures
        field_step(step, answers, steps + 1) == (match field_step(step, answers, steps) {
            FieldStepView::Ask(query, state) => after_candidates(state, answers(query)),
            other => other,
        }),
    decreases steps,
{
    reveal_with_fuel(field_step, 2);
    if steps > 0 {
        match step {
            FieldStepView::Ask(query, state) => {
                lemma_one_more(
                    after_candidates(state, answers(query)),
                    answers,
                    (steps - 1) as nat,
                );
            },
            _ => {},
        }
    }
}

proof fn lemma_step_ends(
    step: FieldStepView,
    answers: spec_fn(FullTextQueryView) -> Seq<Candidate>,
    steps: nat,
)
    requires
        field_step(step, answers, steps) is Done,
    ensures
        run_fields(step, answers, steps) == Some(field_step(step, answers, steps)),
    decreases steps,
{
    if steps > 0 {
        match step {
            FieldStepView::Ask(query, state) => {
                lemma_step_ends(
                    after_candidates(state, answers(query)),
                    answers,
                    (steps - 1) as nat,
                );
            },
            _ => {},
        }
    }
}

proof fn lemma_one_end(
    step: FieldStepView,
    answers: spec_fn(FullTextQueryView) -> Seq<Candidate>,
    m: nat,
    n: nat,
)
    requires
        run_fields(step, answers, m) is Some,
        run_fields(step, answers, n) is Some,
    ensures
        run_fields(step, answers, m) == run_fields(step, answers, n),
    decreases m,
{
    match step {
        FieldStepView::Ask(query, state) => {
            lemma_one_end(
                after_candidates(state, answers(query)),
                answers,
                (m - 1) as nat,
                (n - 1) as nat,
            );
        },
        _ => {},
    }
}

/// The ids that a search of fields ends with are admitted.
proof fn lemma_reached_ids(
    filters: FiltersView,
    answers: EmailAnswers,
    round: int,
    ids: Seq<Seq<char>>,
)
    requires
        patterns_compile(queried_fields(filters)),
        0 <= round < rounds().len(),
        reached(filters, rounds()[round], answers.candidates, FieldStepView::Done(ids)),
    ensures
        ids_admitted(filters, answers, ids),
{
    let limit = rounds()[round];
    let start = fields_start(filters, limit);
    let steps = choose|steps: nat| #[trigger]
        field_step(start, answers.candidates, steps) == FieldStepView::Done(ids);
    if queried_fields(filters).len() == 0 {
        assert(start == FieldStepView::Done(seq![]));
        assert(ids =~= seq![]);
    } else {
        law_fields_agree(filters, limit, answers.candidates);
        law_fields_admit(filters, limit, answers.candidates);
        let other = matching_ids(filters, limit, answers.candidates);
        let m = choose|m: nat| #[trigger]
            run_fields(start, answers.candidates, m) == Some(FieldStepView::Done(other));
        lemma_step_ends(start, answers.candidates, steps);
        lemma_one_end(start, answers.candidates, m, steps);
        assert(ids == other);
        assert forall|a: int| 0 <= a < ids.len() implies admitted(
            filters,
            answers,
            #[trigger] ids[a],
        ) by {
            assert(other.contains(ids[a]));
            assert(admits(filters, rounds()[round], answers.candidates, ids[a]));
        }
    }
}

/// Whether a search with filters for fields has found admitted emails only.
spec fn search_fits(filters: FiltersView, answers: EmailAnswers, search: EmailSearchView) -> bool {
    search.filters == filters && emails_admitted(filters, answers, search.found)
}

/// Whether fetching asks for admitted emails only.
spec fn fetch_fits(filters: FiltersView, answers: EmailAnswers, fetch: FetchView) -> bool {
    &&& emails_admitted(filters, answers, fetch.found)
    &&& exists|ids: Seq<Seq<char>>|
        ids_admitted(filters, answers, ids) && fetch.filters == #[trigger] ids_filters(ids)
}

/// What every step of a search keeps to.
spec fn fits(filters: FiltersView, answers: EmailAnswers, step: EmailStepView) -> bool {
    let filtered = has_field_filters(filters);
    match step {
        EmailStepView::Done(found) => if filtered {
            emails_admitted(filters, answers, found)
        } else {
            emails_dated(filters, found)
        },
        EmailStepView::Failed(_) => true,
        EmailStepView::FullText(query, search, fields) => {
            &&& filtered
            &&& search_fits(filters, answers, search)
            &&& search.round < rounds().len()
            &&& reached(
                filters,
                rounds()[search.round as int],
                answers.candidates,
                FieldStepView::Ask(query, fields),
            )
        },
        EmailStepView::Nearest(_, _, since, until) => {
            &&& !filtered
            &&& since == bound_moment(filters.since)
            &&& until == bound_moment(filters.until)
        },
        EmailStepView::NearestOf(_, search, ids) => {
            &&& filtered
            &&& search_fits(filters, answers, search)
            &&& ids_admitted(filters, answers, ids)
        },
        EmailStepView::Emails(filter, kind, fetch) => match kind {
            KindView::Plain { .. } => {
                &&& !filtered
                &&& fetch.since == bound_moment(filters.since)
                &&& fetch.until == bound_moment(filters.until)
                &&& emails_dated(filters, fetch.found)
            },
            KindView::Filtered(search) => {
                &&& filtered
                &&& search_fits(filters, answers, search)
                &&& fetch_fits(filters, answers, fetch)
                &&& fetch.filters.contains(filter)
            },
        },
    }
}

proof fn lemma_best_fits(
    filters: FiltersView,
    answers: EmailAnswers,
    found: Seq<(LoreEmailInfoView, u32)>,
    limit: nat,
)
    requires
        emails_admitted(filters, answers, found),
    ensures
        emails_admitted(filters, answers, best(found, limit)),
{
    let out = best(found, limit);
    law_best(found, limit);
    assert forall|a: int| 0 <= a < out.len() implies admitted(
        filters,
        answers,
        (#[trigger] out[a]).0.message_id,
    ) by {
        assert(found.contains(out[a]));
        let q = choose|q: int| 0 <= q < found.len() && found[q] == out[a];
        assert(admitted(filters, answers, found[q].0.message_id));
    }
}

proof fn lemma_round_fits(filters: FiltersView, answers: EmailAnswers, search: EmailSearchView)
    requires
        patterns_compile(queried_fields(filters)),
        has_field_filters(filters),
        search_fits(filters, answers, search),
    ensures
        fits(filters, answers, next_round(search)),
    decreases rounds().len() - search.round, 1int,
{
    if search.round >= rounds().len() || search.found.len() >= search.limit {
        lemma_best_fits(filters, answers, search.found, search.limit);
    } else {
        let start = fields_start(filters, rounds()[search.round as int]);
        assert(field_step(start, answers.candidates, 0) == start);
        lemma_fields_fit(filters, answers, search, start);
    }
}

proof fn lemma_fields_fit(
    filters: FiltersView,
    answers: EmailAnswers,
    search: EmailSearchView,
    step: FieldStepView,
)
    requires
        patterns_compile(queried_fields(filters)),
        has_field_filters(filters),
        search_fits(filters, answers, search),
        search.round < rounds().len(),
        reached(filters, rounds()[search.round as int], answers.candidates, step),
    ensures
        fits(filters, answers, within_fields(search, step)),
    decreases rounds().len() - search.round, 0int,
{
    match step {
        FieldStepView::Done(ids) => {
            if ids.len() == 0 {
                lemma_round_fits(
                    filters,
                    answers,
                    EmailSearchView { round: search.round + 1, ..search },
                );
            } else {
                lemma_reached_ids(filters, answers, search.round as int, ids);
            }
        },
        _ => {},
    }
}

/// Sorting by score keeps which emails there are.
proof fn lemma_sorted_fits(
    filters: FiltersView,
    answers: EmailAnswers,
    found: Seq<(LoreEmailInfoView, u32)>,
)
    ensures
        emails_admitted(filters, answers, found) ==> emails_admitted(
            filters,
            answers,
            by_score(found),
        ),
        emails_dated(filters, found) ==> emails_dated(filters, by_score(found)),
{
    let sorted = by_score(found);
    law_by_score(found);
    assert forall|a: int| 0 <= a < sorted.len() implies found.contains(#[trigger] sorted[a]) by {
        assert(sorted.contains(sorted[a]));
    }
    if emails_admitted(filters, answers, found) {
        assert forall|a: int| 0 <= a < sorted.len() implies admitted(
            filters,
            answers,
            (#[trigger] sorted[a]).0.message_id,
        ) by {
            let q = choose|q: int| 0 <= q < found.len() && found[q] == sorted[a];
            assert(admitted(filters, answers, found[q].0.message_id));
        }
    }
    if emails_dated(filters, found) {
        assert forall|a: int| 0 <= a < sorted.len() implies dated_within(
            (#[trigger] sorted[a]).0,
            bound_moment(filters.since),
            bound_moment(filters.until),
        ) by {
            let q = choose|q: int| 0 <= q < found.len() && found[q] == sorted[a];
            assert(dated_within(
                found[q].0,
                bound_moment(filters.since),
                bound_moment(filters.until),
            ));
        }
    }
}

proof fn lemma_filtered_fetch(
    filters: FiltersView,
    answers: EmailAnswers,
    search: EmailSearchView,
    fetch: FetchView,
)
    requires
        patterns_compile(queried_fields(filters)),
        has_field_filters(filters),
        search_fits(filters, answers, search),
        fetch_fits(filters, answers, fetch),
    ensures
        fits(filters, answers, within_fetch(KindView::Filtered(search), fetch_next(fetch))),
{
    match fetch_next(fetch) {
        FetchStepView::Ask(filter, after) => {
            assert(fetch.filters.contains(fetch.filters[fetch.next as int]));
        },
        FetchStepView::Done(found) => {
            lemma_sorted_fits(filters, answers, fetch.found);
            let all = search.found + found;
            assert forall|a: int| 0 <= a < all.len() implies admitted(
                filters,
                answers,
                (#[trigger] all[a]).0.message_id,
            ) by {
                if a < search.found.len() {
                    assert(all[a] == search.found[a]);
                } else {
                    assert(all[a] == found[a - search.found.len()]);
                }
            }
            lemma_round_fits(
                filters,
                answers,
                EmailSearchView { round: search.round + 1, found: all, ..search },
            );
        },
    }
}

proof fn lemma_plain_fetch(
    filters: FiltersView,
    answers: EmailAnswers,
    kind: KindView,
    fetch: FetchView,
)
    requires
        !has_field_filters(filters),
        kind is Plain,
        fetch.since == bound_moment(filters.since),
        fetch.until == bound_moment(filters.until),
        emails_dated(filters, fetch.found),
    ensures
        fits(filters, answers, within_fetch(kind, fetch_next(fetch))),
{
    lemma_sorted_fits(filters, answers, fetch.found);
}

/// Rows answered to a condition that names admitted ids are of admitted emails.
proof fn lemma_rows_fit(
    filters: FiltersView,
    answers: EmailAnswers,
    fetch: FetchView,
    rows: Seq<EmailRow>,
)
    requires
        emails_admitted(filters, answers, fetch.found),
        forall|k: int|
            0 <= k < rows.len() ==> admitted(filters, answers, (#[trigger] rows[k]).message_id@),
    ensures
        emails_admitted(filters, answers, with_rows(fetch, rows)),
    decreases rows.len(),
{
    if rows.len() > 0 {
        let fewer = rows.drop_last();
        assert forall|k: int| 0 <= k < fewer.len() implies admitted(
            filters,
            answers,
            (#[trigger] fewer[k]).message_id@,
        ) by {
            assert(fewer[k] == rows[k]);
        }
        lemma_rows_fit(filters, answers, fetch, fewer);
        let before = with_rows(fetch, fewer);
        let after = with_rows(fetch, rows);
        assert(admitted(filters, answers, rows[rows.len() - 1].message_id@));
        assert forall|a: int| 0 <= a < after.len() implies admitted(
            filters,
            answers,
            (#[trigger] after[a]).0.message_id,
        ) by {
            if a < before.len() {
                assert(after[a] == before[a]);
            }
        }
    }
}

proof fn lemma_asked_rows(
    filters: FiltersView,
    answers: EmailAnswers,
    fetch: FetchView,
    filter: Seq<char>,
)
    requires
        rows_by_id(answers),
        fetch_fits(filters, answers, fetch),
        fetch.filters.contains(filter),
    ensures
        forall|k: int|
            0 <= k < (answers.rows)(filter).len() ==> admitted(
                filters,
                answers,
                (#[trigger] (answers.rows)(filter)[k]).message_id@,
            ),
{
    let ids = choose|ids: Seq<Seq<char>>|
        ids_admitted(filters, answers, ids) && fetch.filters == #[trigger] ids_filters(ids);
    let f = choose|f: int| 0 <= f < fetch.filters.len() && fetch.filters[f] == filter;
    let part = pieces(ids, EMAIL_CHUNK as nat)[f];
    assert(filter == ids_filter(part));
    lemma_pieces_within(ids, EMAIL_CHUNK as nat, f);
    assert forall|k: int| 0 <= k < (answers.rows)(filter).len() implies admitted(
        filters,
        answers,
        (#[trigger] (answers.rows)(filter)[k]).message_id@,
    ) by {
        let id = (answers.rows)(ids_filter(part))[k].message_id@;
        assert(part.contains(id));
        assert(ids.contains(id));
        let a = choose|a: int| 0 <= a < ids.len() && ids[a] == id;
        assert(admitted(filters, answers, ids[a]));
    }
}

/// Ids with scores are among the ids.
proof fn lemma_scored_ids(ids: Seq<Seq<char>>, scores: Map<Seq<char>, u32>, k: int)
    requires
        0 <= k < scored_ids(ids, scores).len(),
    ensures
        ids.contains(scored_ids(ids, scores)[k].0),
    decreases ids.len(),
{
    if ids.len() > 0 {
        let fewer = ids.drop_last();
        let before = scored_ids(fewer, scores);
        if k < before.len() {
            lemma_scored_ids(fewer, scores, k);
            let q = choose|q: int| 0 <= q < fewer.len() && fewer[q] == before[k].0;
            assert(ids[q] == before[k].0);
        } else {
            assert(ids[ids.len() - 1] == scored_ids(ids, scores)[k].0);
        }
    }
}

proof fn lemma_answer_fits(filters: FiltersView, answers: EmailAnswers, step: EmailStepView)
    requires
        patterns_compile(queried_fields(filters)),
        rows_by_id(answers),
        fits(filters, answers, step),
    ensures
        fits(filters, answers, email_answered(step, answers)),
{
    match step {
        EmailStepView::FullText(query, search, fields) => {
            let start = fields_start(filters, rounds()[search.round as int]);
            let here = FieldStepView::Ask(query, fields);
            let n = choose|n: nat| #[trigger] field_step(start, answers.candidates, n) == here;
            lemma_one_more(start, answers.candidates, n);
            let after = after_candidates(fields, (answers.candidates)(query));
            assert(field_step(start, answers.candidates, n + 1) == after);
            lemma_fields_fit(filters, answers, search, after);
        },
        EmailStepView::Nearest(count, wanted, since, until) => {
            let neighbours = (answers.neighbours)(count);
            lemma_plain_fetch(
                filters,
                answers,
                KindView::Plain { limit: wanted, since, until },
                FetchView {
                    filters: ids_filters(names_of(neighbours)),
                    next: 0,
                    scores: score_map(neighbours),
                    limit: wanted,
                    since,
                    until,
                    found: seq![],
                },
            );
        },
        EmailStepView::NearestOf(count, search, ids) => {
            let scores = score_map((answers.neighbours)(count));
            let scored = scored_ids(ids, scores);
            let matching = by_score(scored);
            if matching.len() == 0 {
                lemma_round_fits(
                    filters,
                    answers,
                    EmailSearchView { round: search.round + 1, ..search },
                );
            } else {
                let names = cut_off(names_of(matching), search.limit);
                law_by_score(scored);
                assert forall|a: int| 0 <= a < names.len() implies admitted(
                    filters,
                    answers,
                    #[trigger] names[a],
                ) by {
                    assert(names[a] == matching[a].0);
                    assert(matching.contains(matching[a]));
                    let k = choose|k: int| 0 <= k < scored.len() && scored[k] == matching[a];
                    lemma_scored_ids(ids, scores, k);
                    let q = choose|q: int| 0 <= q < ids.len() && ids[q] == names[a];
                    assert(admitted(filters, answers, ids[q]));
                }
                let fetch = FetchView {
                    filters: ids_filters(names),
                    next: 0,
                    scores,
                    limit: search.limit,
                    since: None,
                    until: None,
                    found: seq![],
                };
                assert(ids_admitted(filters, answers, names));
                lemma_filtered_fetch(filters, answers, search, fetch);
            }
        },
        EmailStepView::Emails(filter, kind, fetch) => {
            let rows = (answers.rows)(filter);
            let after = FetchView { found: with_rows(fetch, rows), ..fetch };
            match kind {
                KindView::Plain { .. } => {
                    law_fetch_dates(fetch, rows);
                    lemma_plain_fetch(filters, answers, kind, after);
                },
                KindView::Filtered(search) => {
                    lemma_asked_rows(filters, answers, fetch, filter);
                    lemma_rows_fit(filters, answers, fetch, rows);
                    lemma_filtered_fetch(filters, answers, search, after);
                },
            }
        },
        _ => {},
    }
}

proof fn lemma_run_fits(
    filters: FiltersView,
    answers: EmailAnswers,
    step: EmailStepView,
    steps: nat,
)
    requires
        patterns_compile(queried_fields(filters)),
        rows_by_id(answers),
        fits(filters, answers, step),
    ensures
        fits(filters, answers, email_run(step, answers, steps)),
    decreases steps,
{
    if steps > 0 {
        lemma_answer_fits(filters, answers, step);
        lemma_run_fits(filters, answers, email_answered(step, answers), (steps - 1) as nat);
    }
}

/// A search that is done hands out emails that its filters admit: with patterns for
/// fields, those for which every field that has patterns finds the message id under one
/// of them, with a date within the bounds; without, those with a date within the bounds.
pub proof fn law_similar_emails_fit(
    filters: FiltersView,
    limit: nat,
    answers: EmailAnswers,
    steps: nat,
)
    requires
        patterns_compile(queried_fields(filters)),
        rows_by_id(answers),
    ensures
        email_run(emails_start(filters, limit), answers, steps) matches EmailStepView::Done(found)
            ==> if has_field_filters(filters) {
            emails_admitted(filters, answers, found)
        } else {
            emails_dated(filters, found)
        },
{
    if has_field_filters(filters) {
        lemma_round_fits(
            filters,
            answers,
            EmailSearchView { filters, limit, round: 0, found: seq![] },
        );
    }
    lemma_run_fits(filters, answers, emails_start(filters, limit), steps);
}

} // verus!
