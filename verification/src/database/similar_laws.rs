//! What holds of searches for emails by similarity, whatever the database answers.

use vstd::prelude::*;

use crate::database::lore_fields::{
    after_candidates, fields_start, Candidate, FieldStepView, FiltersView, FullTextQueryView,
};
use crate::database::similar_emails::{
    after_email_rows, after_neighbours, after_plain_neighbours, best, cut_off, emails_start,
    fetch_next, has_field_filters, message_keys, next_round, rounds, with_rows, within_fetch,
    within_fields, EmailRow, EmailSearchView, EmailStepView, FetchStepView, FetchView, KindView,
};
use crate::lists::{first_places, is_first, law_first_places, lemma_first_below};
use crate::order::text_key;
use crate::pattern::{rfc2822_moment, within};
use crate::scores::{by_score, law_by_score};
use crate::types::LoreEmailInfoView;

verus! {

/// Whether no score is followed by a higher one.
pub open spec fn descending(list: Seq<(LoreEmailInfoView, u32)>) -> bool {
    forall|a: int, b: int|
        0 <= a < b < list.len() ==> (#[trigger] list[a]).1 >= (#[trigger] list[b]).1
}

/// Whether no two emails have the same message id.
pub open spec fn ids_distinct(list: Seq<(LoreEmailInfoView, u32)>) -> bool {
    forall|a: int, b: int|
        0 <= a < b < list.len() ==> (#[trigger] list[a]).0.message_id != (
        #[trigger] list[b]).0.message_id
}

/// What is handed out of what was found: no more than wanted, the most similar first, each
/// email once, and all of it found, each with the highest score that it was found with.
pub proof fn law_best(found: Seq<(LoreEmailInfoView, u32)>, limit: nat)
    ensures
        best(found, limit).len() <= limit,
        descending(best(found, limit)),
        ids_distinct(best(found, limit)),
        forall|a: int|
            0 <= a < best(found, limit).len() ==> found.contains(#[trigger] best(found, limit)[a]),
        forall|a: int, k: int|
            0 <= a < best(found, limit).len() && 0 <= k < found.len()
                && (#[trigger] found[k]).0.message_id == (#[trigger] best(
                found,
                limit,
            )[a]).0.message_id ==> found[k].1 <= best(found, limit)[a].1,
{
    let sorted = by_score(found);
    let keys = message_keys(sorted);
    let kept = first_places(keys);
    let out = best(found, limit);
    law_by_score(found);
    law_first_places(keys);
    lemma_first_below(keys, keys.len() as int);
    assert forall|a: int| 0 <= a < out.len() implies 0 <= #[trigger] kept[a] < sorted.len()
        && out[a] == sorted[kept[a]] && keys[kept[a]] == text_key(out[a].0.message_id)
        && is_first(keys, kept[a]) by {
        assert(kept.contains(kept[a]));
    }
    assert forall|a: int, b: int| 0 <= a < b < out.len() implies (#[trigger] out[a]).1 >= (
    #[trigger] out[b]).1 && out[a].0.message_id != out[b].0.message_id by {
        assert(kept[a] < kept[b]);
        assert(sorted[kept[a]].1 >= sorted[kept[b]].1);
        assert(keys[kept[a]] != keys[kept[b]]);
    }
    assert forall|a: int| 0 <= a < out.len() implies found.contains(#[trigger] out[a]) by {
        assert(out[a] == sorted[kept[a]]);
        assert(sorted.contains(sorted[kept[a]]));
    }
    assert forall|a: int, k: int|
        0 <= a < out.len() && 0 <= k < found.len() && (#[trigger] found[k]).0.message_id == (
        #[trigger] out[a]).0.message_id implies found[k].1 <= out[a].1 by {
        assert(found.contains(found[k]));
        assert(sorted.contains(found[k]));
        let q = choose|q: int| 0 <= q < sorted.len() && sorted[q] == found[k];
        assert(keys[q] == keys[kept[a]]);
        assert(is_first(keys, kept[a]));
        if q < kept[a] {
            assert(keys[q] != keys[kept[a]]);
        } else if kept[a] < q {
            assert(sorted[kept[a]].1 >= sorted[q].1);
        }
    }
}

/// Fetching stops at the limit, and keeps what it had.
pub proof fn law_fetch_limit(fetch: FetchView, rows: Seq<EmailRow>)
    requires
        fetch.found.len() <= fetch.limit,
    ensures
        fetch.found.len() <= with_rows(fetch, rows).len() <= fetch.limit,
        with_rows(fetch, rows).take(fetch.found.len() as int) == fetch.found,
    decreases rows.len(),
{
    if rows.len() > 0 {
        law_fetch_limit(fetch, rows.drop_last());
        assert(with_rows(fetch, rows).take(fetch.found.len() as int) =~= with_rows(
            fetch,
            rows.drop_last(),
        ).take(fetch.found.len() as int));
    } else {
        assert(fetch.found.take(fetch.found.len() as int) =~= fetch.found);
    }
}

/// Whether the date of an email lies within the bounds.
pub open spec fn dated_within(
    email: LoreEmailInfoView,
    since: Option<(i64, u32)>,
    until: Option<(i64, u32)>,
) -> bool {
    rfc2822_moment(email.date) is Some && within(rfc2822_moment(email.date), since, until)
}

/// What is fetched has dates within the bounds.
pub proof fn law_fetch_dates(fetch: FetchView, rows: Seq<EmailRow>)
    requires
        forall|a: int|
            0 <= a < fetch.found.len() ==> dated_within(
                (#[trigger] fetch.found[a]).0,
                fetch.since,
                fetch.until,
            ),
    ensures
        forall|a: int|
            0 <= a < with_rows(fetch, rows).len() ==> dated_within(
                (#[trigger] with_rows(fetch, rows)[a]).0,
                fetch.since,
                fetch.until,
            ),
    decreases rows.len(),
{
    if rows.len() > 0 {
        law_fetch_dates(fetch, rows.drop_last());
        let before = with_rows(fetch, rows.drop_last());
        let after = with_rows(fetch, rows);
        assert forall|a: int| 0 <= a < after.len() implies dated_within(
            (#[trigger] after[a]).0,
            fetch.since,
            fetch.until,
        ) by {
            if a < before.len() {
                assert(after[a] == before[a]);
            }
        }
    }
}

/// What is answered to everything that a search for emails can ask.
pub struct EmailAnswers {
    pub candidates: spec_fn(FullTextQueryView) -> Seq<Candidate>,
    pub neighbours: spec_fn(nat) -> Seq<(Seq<char>, u32)>,
    pub rows: spec_fn(Seq<char>) -> Seq<EmailRow>,
}

/// The step after a step was answered.
pub open spec fn email_answered(step: EmailStepView, answers: EmailAnswers) -> EmailStepView {
    match step {
        EmailStepView::FullText(query, search, fields) => within_fields(
            search,
            after_candidates(fields, (answers.candidates)(query)),
        ),
        EmailStepView::Nearest(count, limit, since, until) => after_plain_neighbours(
            limit,
            since,
            until,
            (answers.neighbours)(count),
        ),
        EmailStepView::NearestOf(count, search, ids) => after_neighbours(
            search,
            ids,
            (answers.neighbours)(count),
        ),
        EmailStepView::Emails(filter, kind, fetch) => within_fetch(
            kind,
            after_email_rows(fetch, (answers.rows)(filter)),
        ),
        _ => step,
    }
}

/// The step that a search has reached after some answers.
pub open spec fn email_run(step: EmailStepView, answers: EmailAnswers, steps: nat) -> EmailStepView
    decreases steps,
{
    if steps == 0 {
        step
    } else {
        email_run(email_answered(step, answers), answers, (steps - 1) as nat)
    }
}

/// What every step of a search keeps to.
spec fn sound(step: EmailStepView, limit: nat, filtered: bool) -> bool {
    match step {
        EmailStepView::Done(found) => found.len() <= limit && descending(found) && (filtered
            ==> ids_distinct(found)),
        EmailStepView::Failed(_) => filtered,
        EmailStepView::FullText(_, search, _) => filtered && search.limit == limit,
        EmailStepView::Nearest(_, wanted, _, _) => !filtered && wanted == limit,
        EmailStepView::NearestOf(_, search, _) => filtered && search.limit == limit,
        EmailStepView::Emails(_, kind, fetch) => {
            &&& fetch.limit == limit
            &&& fetch.found.len() <= limit
            &&& match kind {
                KindView::Plain { .. } => !filtered,
                KindView::Filtered(search) => filtered && search.limit == limit,
            }
        },
    }
}

proof fn lemma_round_sound(search: EmailSearchView)
    ensures
        sound(next_round(search), search.limit, true),
    decreases rounds().len() - search.round, 1int,
{
    if search.round >= rounds().len() || search.found.len() >= search.limit {
        law_best(search.found, search.limit);
    } else {
        lemma_fields_sound(
            search,
            fields_start(search.filters, rounds()[search.round as int]),
        );
    }
}

proof fn lemma_fields_sound(search: EmailSearchView, step: FieldStepView)
    ensures
        sound(within_fields(search, step), search.limit, true),
    decreases rounds().len() - search.round, 0int,
{
    match step {
        FieldStepView::Done(ids) => {
            if search.round >= rounds().len() {
                law_best(search.found, search.limit);
            } else if ids.len() == 0 {
                lemma_round_sound(EmailSearchView { round: search.round + 1, ..search });
            }
        },
        _ => {},
    }
}

proof fn lemma_fetch_sound(kind: KindView, fetch: FetchView, limit: nat, filtered: bool)
    requires
        fetch.limit == limit,
        fetch.found.len() <= limit,
        match kind {
            KindView::Plain { .. } => !filtered,
            KindView::Filtered(search) => filtered && search.limit == limit,
        },
    ensures
        sound(within_fetch(kind, fetch_next(fetch)), limit, filtered),
{
    match fetch_next(fetch) {
        FetchStepView::Ask(_, _) => {},
        FetchStepView::Done(found) => {
            match kind {
                KindView::Plain { .. } => {
                    law_by_score(fetch.found);
                },
                KindView::Filtered(search) => {
                    lemma_round_sound(
                        EmailSearchView {
                            round: search.round + 1,
                            found: search.found + found,
                            ..search
                        },
                    );
                },
            }
        },
    }
}

proof fn lemma_answer_sound(step: EmailStepView, answers: EmailAnswers, limit: nat, filtered: bool)
    requires
        sound(step, limit, filtered),
    ensures
        sound(email_answered(step, answers), limit, filtered),
{
    match step {
        EmailStepView::FullText(query, search, fields) => {
            lemma_fields_sound(search, after_candidates(fields, (answers.candidates)(query)));
        },
        EmailStepView::Nearest(count, wanted, since, until) => {
            let neighbours = (answers.neighbours)(count);
            lemma_fetch_sound(
                KindView::Plain { limit: wanted, since, until },
                FetchView {
                    filters: crate::database::similar_emails::ids_filters(
                        crate::scores::names_of(neighbours),
                    ),
                    next: 0,
                    scores: crate::scores::score_map(neighbours),
                    limit: wanted,
                    since,
                    until,
                    found: seq![],
                },
                limit,
                filtered,
            );
        },
        EmailStepView::NearestOf(count, search, ids) => {
            let neighbours = (answers.neighbours)(count);
            let scores = crate::scores::score_map(neighbours);
            let matching = by_score(
                crate::database::similar_emails::scored_ids(ids, scores),
            );
            if matching.len() == 0 {
                lemma_round_sound(EmailSearchView { round: search.round + 1, ..search });
            } else {
                lemma_fetch_sound(
                    KindView::Filtered(search),
                    FetchView {
                        filters: crate::database::similar_emails::ids_filters(
                            cut_off(crate::scores::names_of(matching), search.limit),
                        ),
                        next: 0,
                        scores,
                        limit: search.limit,
                        since: None,
                        until: None,
                        found: seq![],
                    },
                    limit,
                    filtered,
                );
            }
        },
        EmailStepView::Emails(filter, kind, fetch) => {
            let rows = (answers.rows)(filter);
            law_fetch_limit(fetch, rows);
            lemma_fetch_sound(
                kind,
                FetchView { found: with_rows(fetch, rows), ..fetch },
                limit,
                filtered,
            );
        },
        _ => {},
    }
}

proof fn lemma_run_sound(
    step: EmailStepView,
    answers: EmailAnswers,
    steps: nat,
    limit: nat,
    filtered: bool,
)
    requires
        sound(step, limit, filtered),
    ensures
        sound(email_run(step, answers, steps), limit, filtered),
    decreases steps,
{
    if steps > 0 {
        lemma_answer_sound(step, answers, limit, filtered);
        lemma_run_sound(
            email_answered(step, answers),
            answers,
            (steps - 1) as nat,
            limit,
            filtered,
        );
    }
}

/// Whatever the database answers, a search that is done hands out no more emails
/// than wanted, the most similar first, and with filters for fields none twice. Only
/// a search with filters for fields can fail.
pub proof fn law_similar_emails(
    filters: FiltersView,
    limit: nat,
    answers: EmailAnswers,
    steps: nat,
)
    ensures
        match email_run(emails_start(filters, limit), answers, steps) {
            EmailStepView::Done(found) => found.len() <= limit && descending(found) && (
            has_field_filters(filters) ==> ids_distinct(found)),
            EmailStepView::Failed(_) => has_field_filters(filters),
            _ => true,
        },
{
    let filtered = has_field_filters(filters);
    if filtered {
        lemma_round_sound(EmailSearchView { filters, limit, round: 0, found: seq![] });
    }
    lemma_run_sound(emails_start(filters, limit), answers, steps, limit, filtered);
}

} // verus!
