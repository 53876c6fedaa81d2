//! Which emails a search by similarity hands out, whatever the database answers.

use vstd::prelude::*;

use crate::database::email_match_laws::{
    all_compile, fields_given, ids_condition, is_email, lemma_ids_condition, lemma_within,
    lies_within, neighbours_asked,
};
use crate::database::field_match_laws::{
    all_patterns, are_admitted, compile, fails_at, law_fields_are_searched,
};
use crate::database::lore_fields::{
    after_candidates, fields_start, run_fields, FieldStepView, FiltersView,
};
use crate::database::match_record_laws::{
    has_score, is_order, law_sorted_by_score, lemma_score_map, stands_by_score,
};
use crate::database::similar_emails::{
    best, cut_off, email_of, emails_start, fetch_next, ids_filters, message_keys, next_round,
    rounds, row_kept, scored_ids, with_rows, within_fetch, within_fields, EmailRow, EmailSearchView,
    EmailStepView, FetchStepView, FetchView, KindView, EMAIL_CHUNK,
};
use crate::database::similar_laws::{email_answered, email_run, law_best, EmailAnswers};
use crate::lists::{
    are_portions, concatenated, first_places, is_first, law_first_places, law_pieces_are_portions,
    lemma_concatenated_two, lemma_first_below, pieces,
};
use crate::order::text_key;
use crate::pattern::{bound_moment, regex_fault, rfc2822_moment};
use crate::scores::{by_score, law_by_score, names_of, score_map, score_of};
use crate::types::LoreEmailInfoView;

verus! {

/// Whether `sorted` is a list by score: no score is followed by a higher one, and what has the
/// same score stands as it stood.
pub open spec fn is_sorted_of<V>(sorted: Seq<(V, u32)>, list: Seq<(V, u32)>) -> bool {
    exists|order: Seq<int>| #[trigger]
        is_order(order, list.len()) && stands_by_score(sorted, order) && sorted.len()
            == list.len() && forall|a: int|
            0 <= a < list.len() ==> #[trigger] sorted[a] == list[order[a]]
}

proof fn lemma_sorted<V>(list: Seq<(V, u32)>)
    ensures
        is_sorted_of(by_score(list), list),
        by_score(list).len() == list.len(),
{
    law_sorted_by_score(list);
}

/// Whether `parts` are ids cut into portions of as many as fit into one condition.
pub open spec fn are_id_parts(parts: Seq<Seq<Seq<char>>>, ids: Seq<Seq<char>>) -> bool {
    are_portions(parts, ids, 500)
}

/// The rows that the conditions on ids find, one after the other.
pub open spec fn rows_found(
    parts: Seq<Seq<Seq<char>>>,
    rows: spec_fn(Seq<char>) -> Seq<EmailRow>,
) -> Seq<EmailRow> {
    concatenated(parts.map_values(|part: Seq<Seq<char>>| rows(ids_condition(part))))
}

/// The rows whose date is one and lies within the bounds.
pub open spec fn dated(
    rows: Seq<EmailRow>,
    since: Option<Seq<char>>,
    until: Option<Seq<char>>,
) -> Seq<EmailRow> {
    rows.filter(
        |row: EmailRow|
            rfc2822_moment(row.date@) is Some && lies_within(row.date@, since, until),
    )
}

/// Whether entries are the emails of the first rows, no more than wanted, each with the score
/// that it has among neighbours.
pub open spec fn are_emails(
    list: Seq<(LoreEmailInfoView, u32)>,
    rows: Seq<EmailRow>,
    limit: nat,
    neighbours: Seq<(Seq<char>, u32)>,
) -> bool {
    &&& list.len() == (if rows.len() < limit {
        rows.len()
    } else {
        limit
    })
    &&& forall|k: int|
        0 <= k < list.len() ==> is_email((#[trigger] list[k]).0, rows[k]) && has_score(
            neighbours,
            rows[k].message_id@,
            list[k].1,
        )
}

/// Whether `found` is what is fetched by ids: the emails with these ids that the database has
/// and that are dated within the bounds, no more than wanted, the most similar first.
pub open spec fn are_fetched(
    found: Seq<(LoreEmailInfoView, u32)>,
    ids: Seq<Seq<char>>,
    neighbours: Seq<(Seq<char>, u32)>,
    rows: spec_fn(Seq<char>) -> Seq<EmailRow>,
    limit: nat,
    since: Option<Seq<char>>,
    until: Option<Seq<char>>,
) -> bool {
    exists|parts: Seq<Seq<Seq<char>>>, list: Seq<(LoreEmailInfoView, u32)>|
        are_id_parts(parts, ids) && #[trigger] are_emails(
            list,
            dated(#[trigger] rows_found(parts, rows), since, until),
            limit,
            neighbours,
        ) && is_sorted_of(found, list)
}

proof fn lemma_run_adds(step: EmailStepView, answers: EmailAnswers, a: nat, b: nat)
    ensures
        email_run(step, answers, a + b) == email_run(email_run(step, answers, a), answers, b),
    decreases a,
{
    if a > 0 {
        lemma_run_adds(email_answered(step, answers), answers, (a - 1) as nat, b);
        assert((a + b - 1) as nat == (a - 1) as nat + b);
    }
}

/// The emails of the rows that are kept, with their scores.
spec fn entries(fetch: FetchView, rows: Seq<EmailRow>) -> Seq<(LoreEmailInfoView, u32)> {
    rows.filter(|row: EmailRow| row_kept(row, fetch.since, fetch.until)).map_values(
        |row: EmailRow|
            (
                email_of(row, rfc2822_moment(row.date@)->Some_0),
                score_of(fetch.scores, row.message_id@),
            ),
    )
}

proof fn lemma_entries_two(fetch: FetchView, a: Seq<EmailRow>, b: Seq<EmailRow>)
    ensures
        entries(fetch, a + b) == entries(fetch, a) + entries(fetch, b),
    decreases b.len(),
{
    let kept = |row: EmailRow| row_kept(row, fetch.since, fetch.until);
    Seq::filter_distributes_over_add(a, b, kept);
    let f = |row: EmailRow|
        (
            email_of(row, rfc2822_moment(row.date@)->Some_0),
            score_of(fetch.scores, row.message_id@),
        );
    assert((a.filter(kept) + b.filter(kept)).map_values(f) =~= a.filter(kept).map_values(f)
        + b.filter(kept).map_values(f));
}

proof fn lemma_with_rows(fetch: FetchView, rows: Seq<EmailRow>)
    requires
        fetch.found.len() <= fetch.limit,
    ensures
        with_rows(fetch, rows) == cut_off(fetch.found + entries(fetch, rows), fetch.limit),
    decreases rows.len(),
{
    reveal(Seq::filter);
    if rows.len() == 0 {
        assert(entries(fetch, rows) =~= seq![]);
        assert(fetch.found + entries(fetch, rows) =~= fetch.found);
    } else {
        let fewer = rows.drop_last();
        lemma_with_rows(fetch, fewer);
        let row = rows.last();
        let kept = |row: EmailRow| row_kept(row, fetch.since, fetch.until);
        let f = |row: EmailRow|
            (
                email_of(row, rfc2822_moment(row.date@)->Some_0),
                score_of(fetch.scores, row.message_id@),
            );
        if row_kept(row, fetch.since, fetch.until) {
            assert(rows.filter(kept) == fewer.filter(kept).push(row));
            assert(entries(fetch, rows) =~= entries(fetch, fewer).push(f(row)));
            assert(fetch.found + entries(fetch, rows) =~= (fetch.found + entries(
                fetch,
                fewer,
            )).push(f(row)));
        } else {
            assert(rows.filter(kept) == fewer.filter(kept));
        }
        assert(with_rows(fetch, rows) =~= cut_off(
            fetch.found + entries(fetch, rows),
            fetch.limit,
        ));
    }
}

/// The rows that the conditions from the next on find.
spec fn rows_left(fetch: FetchView, rows: spec_fn(Seq<char>) -> Seq<EmailRow>) -> Seq<EmailRow> {
    concatenated(
        fetch.filters.skip(fetch.next as int).map_values(|filter: Seq<char>| rows(filter)),
    )
}

proof fn lemma_fetch_runs(kind: KindView, fetch: FetchView, answers: EmailAnswers) -> (steps: nat)
    requires
        fetch.found.len() <= fetch.limit,
        fetch.next <= fetch.filters.len(),
    ensures
        email_run(within_fetch(kind, fetch_next(fetch)), answers, steps) == within_fetch(
            kind,
            FetchStepView::Done(
                by_score(
                    cut_off(
                        fetch.found + entries(fetch, rows_left(fetch, answers.rows)),
                        fetch.limit,
                    ),
                ),
            ),
        ),
    decreases fetch.filters.len() - fetch.next,
{
    let left = rows_left(fetch, answers.rows);
    let all = fetch.found + entries(fetch, left);
    if fetch.next < fetch.filters.len() && fetch.found.len() < fetch.limit {
        let asked = FetchView { next: fetch.next + 1, ..fetch };
        let filter = fetch.filters[fetch.next as int];
        let rows = (answers.rows)(filter);
        let after = FetchView { found: with_rows(asked, rows), ..asked };
        lemma_with_rows(asked, rows);
        assert(entries(asked, rows) =~= entries(fetch, rows));
        let steps = lemma_fetch_runs(kind, after, answers);
        let step = within_fetch(kind, fetch_next(fetch));
        assert(email_answered(step, answers) == within_fetch(kind, fetch_next(after)));
        assert(email_run(step, answers, (steps + 1) as nat) == email_run(
            within_fetch(kind, fetch_next(after)),
            answers,
            steps,
        ));
        let f = |filter: Seq<char>| (answers.rows)(filter);
        let rest = fetch.filters.skip(after.next as int);
        assert(fetch.filters.skip(fetch.next as int) =~= seq![filter] + rest);
        assert((seq![filter] + rest).map_values(f) =~= seq![rows] + rest.map_values(f));
        lemma_concatenated_two(seq![rows], rest.map_values(f));
        reveal_with_fuel(concatenated, 2);
        assert(seq![rows].drop_last() =~= seq![]);
        assert(concatenated(seq![rows]) =~= rows);
        let behind = rows_left(after, answers.rows);
        assert(left =~= rows + behind);
        lemma_entries_two(fetch, rows, behind);
        assert(entries(after, behind) =~= entries(fetch, behind));
        assert(cut_off(after.found + entries(after, behind), fetch.limit) =~= cut_off(
            all,
            fetch.limit,
        ));
        (steps + 1) as nat
    } else {
        if fetch.next >= fetch.filters.len() {
            let f = |filter: Seq<char>| (answers.rows)(filter);
            assert(fetch.filters.skip(fetch.next as int).map_values(f) =~= seq![]);
            assert(left =~= seq![]);
            reveal(Seq::filter);
            assert(entries(fetch, left) =~= seq![]);
        }
        assert(cut_off(all, fetch.limit) =~= fetch.found);
        assert(email_run(within_fetch(kind, fetch_next(fetch)), answers, 0) == within_fetch(
            kind,
            fetch_next(fetch),
        ));
        0
    }
}

/// A fetch at its start.
spec fn new_fetch(
    ids: Seq<Seq<char>>,
    neighbours: Seq<(Seq<char>, u32)>,
    limit: nat,
    since: Option<(i64, u32)>,
    until: Option<(i64, u32)>,
) -> FetchView {
    FetchView {
        filters: ids_filters(ids),
        next: 0,
        scores: score_map(neighbours),
        limit,
        since,
        until,
        found: seq![],
    }
}

proof fn lemma_fetch(
    kind: KindView,
    ids: Seq<Seq<char>>,
    neighbours: Seq<(Seq<char>, u32)>,
    limit: nat,
    since: Option<Seq<char>>,
    until: Option<Seq<char>>,
    answers: EmailAnswers,
) -> (result: (Seq<(LoreEmailInfoView, u32)>, nat))
    ensures
        are_fetched(result.0, ids, neighbours, answers.rows, limit, since, until),
        email_run(
            within_fetch(
                kind,
                fetch_next(
                    new_fetch(ids, neighbours, limit, bound_moment(since), bound_moment(until)),
                ),
            ),
            answers,
            result.1,
        ) == within_fetch(kind, FetchStepView::Done(result.0)),
{
    let fetch = new_fetch(ids, neighbours, limit, bound_moment(since), bound_moment(until));
    let steps = lemma_fetch_runs(kind, fetch, answers);
    let parts = pieces(ids, EMAIL_CHUNK as nat);
    law_pieces_are_portions(ids, EMAIL_CHUNK as nat);
    let f = |part: Seq<Seq<char>>| (answers.rows)(ids_condition(part));
    let g = |filter: Seq<char>| (answers.rows)(filter);
    assert(fetch.filters.skip(0) =~= fetch.filters);
    assert forall|k: int| 0 <= k < parts.len() implies #[trigger] parts.map_values(f)[k]
        == fetch.filters.map_values(g)[k] by {
        lemma_ids_condition(parts[k]);
    }
    assert(parts.map_values(f) =~= fetch.filters.map_values(g));
    let rows = rows_found(parts, answers.rows);
    assert(rows_left(fetch, answers.rows) == rows);
    let kept = |row: EmailRow| row_kept(row, fetch.since, fetch.until);
    let wanted = |row: EmailRow|
        rfc2822_moment(row.date@) is Some && lies_within(row.date@, since, until);
    assert forall|row: EmailRow| #[trigger] kept(row) == wanted(row) by {
        lemma_within(row.date@, since, until);
    }
    assert(kept =~= wanted);
    let all = fetch.found + entries(fetch, rows);
    assert(all =~= entries(fetch, rows));
    let list = cut_off(all, limit);
    let few = dated(rows, since, until);
    assert(few == rows.filter(kept));
    assert forall|k: int| 0 <= k < list.len() implies is_email((#[trigger] list[k]).0, few[k])
        && has_score(neighbours, few[k].message_id@, list[k].1) by {
        broadcast use vstd::seq_lib::group_filter_ensures;

        assert(few.contains(few[k]));
        assert(kept(few[k]));
        lemma_score_map(neighbours, few[k].message_id@);
    }
    assert(are_emails(list, few, limit, neighbours));
    lemma_sorted(list);
    assert(are_id_parts(parts, ids));
    (by_score(list), steps)
}

/// The names of neighbours.
pub open spec fn neighbour_names(neighbours: Seq<(Seq<char>, u32)>) -> Seq<Seq<char>> {
    Seq::new(neighbours.len(), |i: int| neighbours[i].0)
}

/// Without patterns for fields, a search asks for the neighbours and hands out their emails
/// that are dated within the bounds, no more than wanted, the most similar first.
pub proof fn law_plain_search(filters: FiltersView, limit: nat, answers: EmailAnswers)
    requires
        !fields_given(filters),
    ensures
        exists|count: nat, found: Seq<(LoreEmailInfoView, u32)>, steps: nat|
            neighbours_asked(filters, limit, count) && #[trigger] email_run(
                emails_start(filters, limit),
                answers,
                steps,
            ) == EmailStepView::Done(found) && #[trigger] are_fetched(
                found,
                neighbour_names((answers.neighbours)(count)),
                (answers.neighbours)(count),
                answers.rows,
                limit,
                filters.since,
                filters.until,
            ),
{
    let start = emails_start(filters, limit);
    let count = start->Nearest_0;
    let neighbours = (answers.neighbours)(count);
    let names = names_of(neighbours);
    assert(names =~= neighbour_names(neighbours));
    let since = bound_moment(filters.since);
    let until = bound_moment(filters.until);
    let (found, steps) = lemma_fetch(
        KindView::Plain { limit, since, until },
        names,
        neighbours,
        limit,
        filters.since,
        filters.until,
        answers,
    );
    lemma_run_adds(start, answers, 1, steps);
    reveal_with_fuel(email_run, 2);
    assert(email_run(start, answers, 1) == email_answered(start, answers));
    assert(neighbours_asked(filters, limit, count));
    assert(email_run(start, answers, 1 + steps) == EmailStepView::Done(found));
}

proof fn lemma_fields_within(
    search: EmailSearchView,
    step: FieldStepView,
    answers: EmailAnswers,
    count: nat,
) -> (steps: nat)
    requires
        run_fields(step, answers.candidates, count) is Some,
    ensures
        email_run(within_fields(search, step), answers, steps) == within_fields(
            search,
            run_fields(step, answers.candidates, count)->Some_0,
        ),
    decreases count,
{
    match step {
        FieldStepView::Ask(query, state) => {
            let next = after_candidates(state, (answers.candidates)(query));
            let steps = lemma_fields_within(search, next, answers, (count - 1) as nat);
            assert(email_answered(within_fields(search, step), answers) == within_fields(
                search,
                next,
            ));
            assert(email_run(within_fields(search, step), answers, (steps + 1) as nat)
                == email_run(within_fields(search, next), answers, steps));
            (steps + 1) as nat
        },
        _ => {
            assert(email_run(within_fields(search, step), answers, 0) == within_fields(
                search,
                step,
            ));
            0
        },
    }
}

/// Whether a list holds those of `ids` that are among neighbours, with their scores.
pub open spec fn are_scored(
    list: Seq<(Seq<char>, u32)>,
    ids: Seq<Seq<char>>,
    neighbours: Seq<(Seq<char>, u32)>,
) -> bool {
    &&& list.map_values(|entry: (Seq<char>, u32)| entry.0) == ids.filter(
        |id: Seq<char>|
            exists|k: int| 0 <= k < neighbours.len() && (#[trigger] neighbours[k]).0 == id,
    )
    &&& forall|a: int|
        0 <= a < list.len() ==> has_score(neighbours, (#[trigger] list[a]).0, list[a].1)
}

proof fn lemma_scored(ids: Seq<Seq<char>>, neighbours: Seq<(Seq<char>, u32)>)
    ensures
        are_scored(scored_ids(ids, score_map(neighbours)), ids, neighbours),
    decreases ids.len(),
{
    reveal(Seq::filter);
    let list = scored_ids(ids, score_map(neighbours));
    let first = |entry: (Seq<char>, u32)| entry.0;
    let near = |id: Seq<char>|
        exists|k: int| 0 <= k < neighbours.len() && (#[trigger] neighbours[k]).0 == id;
    if ids.len() > 0 {
        let fewer = ids.drop_last();
        let before = scored_ids(fewer, score_map(neighbours));
        let last = ids.last();
        lemma_scored(fewer, neighbours);
        lemma_score_map(neighbours, last);
        if score_map(neighbours).dom().contains(last) {
            assert(near(last));
            assert(ids.filter(near) == fewer.filter(near).push(last));
            assert(list == before.push((last, score_map(neighbours)[last])));
            assert(list.map_values(first) =~= before.map_values(first).push(last));
            assert forall|a: int| 0 <= a < list.len() implies has_score(
                neighbours,
                (#[trigger] list[a]).0,
                list[a].1,
            ) by {
                if a < before.len() {
                    assert(list[a] == before[a]);
                }
            }
        } else {
            assert(!near(last));
            assert(ids.filter(near) == fewer.filter(near));
        }
    } else {
        assert(list.map_values(first) =~= ids.filter(near));
    }
}

/// The names of the first entries of a list, no more than wanted.
pub open spec fn first_names(list: Seq<(Seq<char>, u32)>, limit: nat) -> Seq<Seq<char>> {
    Seq::new(
        if list.len() < limit {
            list.len()
        } else {
            limit
        },
        |i: int| list[i].0,
    )
}

/// Whether `found` is what a round finds that looks at so many candidates and neighbours: of
/// the emails that all fields admit, those that are among the neighbours, the most similar and
/// no more than wanted.
pub open spec fn is_round(
    found: Seq<(LoreEmailInfoView, u32)>,
    filters: FiltersView,
    limit: nat,
    count: nat,
    answers: EmailAnswers,
) -> bool {
    exists|ids: Seq<Seq<char>>, list: Seq<(Seq<char>, u32)>, ranked: Seq<(Seq<char>, u32)>|
        are_admitted(ids, filters, count, answers.candidates) && #[trigger] are_scored(
            list,
            ids,
            (answers.neighbours)(count),
        ) && #[trigger] is_sorted_of(ranked, list) && are_fetched(
            found,
            first_names(ranked, limit),
            (answers.neighbours)(count),
            answers.rows,
            limit,
            None,
            None,
        )
}

proof fn lemma_none_fetched(
    neighbours: Seq<(Seq<char>, u32)>,
    rows: spec_fn(Seq<char>) -> Seq<EmailRow>,
    limit: nat,
)
    ensures
        are_fetched(seq![], seq![], neighbours, rows, limit, None, None),
{
    let parts: Seq<Seq<Seq<char>>> = seq![];
    let list: Seq<(LoreEmailInfoView, u32)> = seq![];
    assert(concatenated(parts) =~= seq![]);
    assert(are_id_parts(parts, seq![]));
    let f = |part: Seq<Seq<char>>| rows(ids_condition(part));
    assert(parts.map_values(f) =~= seq![]);
    assert(rows_found(parts, rows) =~= seq![]);
    reveal(Seq::filter);
    assert(dated(rows_found(parts, rows), None, None) =~= seq![]);
    assert(are_emails(list, dated(rows_found(parts, rows), None, None), limit, neighbours));
    lemma_sorted(list);
    assert(by_score(list) =~= list);
}

/// How many candidates and neighbours are looked at, round by round.
pub open spec fn round_sizes() -> Seq<nat> {
    seq![1_000, 10_000, 50_000, 100_000]
}

proof fn lemma_round(search: EmailSearchView, answers: EmailAnswers) -> (result: (
    Seq<(LoreEmailInfoView, u32)>,
    nat,
))
    requires
        all_compile(search.filters),
        all_patterns(search.filters).len() > 0,
        search.round < 4,
        search.found.len() < search.limit,
    ensures
        is_round(
            result.0,
            search.filters,
            search.limit,
            round_sizes()[search.round as int],
            answers,
        ),
        email_run(next_round(search), answers, result.1) == next_round(
            EmailSearchView {
                round: search.round + 1,
                found: search.found + result.0,
                ..search
            },
        ),
{
    let count = round_sizes()[search.round as int];
    assert(count == rounds()[search.round as int]);
    let limit = search.limit;
    let candidates = answers.candidates;
    let neighbours = (answers.neighbours)(count);
    let begin = fields_start(search.filters, count);
    law_fields_are_searched(search.filters, count, candidates);
    let ids = choose|ids: Seq<Seq<char>>| #[trigger]
        are_admitted(ids, search.filters, count, candidates)
            && crate::database::lore_fields::fields_end(search.filters, count, candidates, ids);
    let n = choose|n: nat| #[trigger]
        run_fields(begin, candidates, n) == Some(FieldStepView::Done(ids));
    let first = lemma_fields_within(search, begin, answers, n);
    let scores = score_map(neighbours);
    let list = scored_ids(ids, scores);
    let ranked = by_score(list);
    lemma_scored(ids, neighbours);
    lemma_sorted(list);
    let none: Seq<(LoreEmailInfoView, u32)> = seq![];
    assert(search.found + none =~= search.found);
    lemma_none_fetched(neighbours, answers.rows, limit);
    if ids.len() == 0 {
        assert(list =~= seq![]);
        assert(first_names(ranked, limit) =~= seq![]);
        assert(is_round(none, search.filters, limit, count, answers));
        (none, first)
    } else {
        let step = EmailStepView::NearestOf(count, search, ids);
        assert(email_run(next_round(search), answers, first) == step);
        lemma_run_adds(next_round(search), answers, first, 1);
        reveal_with_fuel(email_run, 2);
        assert(email_run(step, answers, 1) == email_answered(step, answers));
        if ranked.len() == 0 {
            assert(first_names(ranked, limit) =~= seq![]);
            assert(is_round(none, search.filters, limit, count, answers));
            (none, first + 1)
        } else {
            let wanted = cut_off(names_of(ranked), limit);
            assert(wanted =~= first_names(ranked, limit));
            let (found, steps) = lemma_fetch(
                KindView::Filtered(search),
                wanted,
                neighbours,
                limit,
                None,
                None,
                answers,
            );
            lemma_run_adds(next_round(search), answers, first + 1, steps);
            assert(is_round(found, search.filters, limit, count, answers));
            (found, first + 1 + steps)
        }
    }
}

/// Whether `parts` are what the rounds find, one after the other, that a search does: each is
/// done as long as too few were found, and there are no more than four.
pub open spec fn are_rounds(
    parts: Seq<Seq<(LoreEmailInfoView, u32)>>,
    filters: FiltersView,
    limit: nat,
    answers: EmailAnswers,
) -> bool {
    &&& parts.len() <= 4
    &&& forall|r: int|
        0 <= r < parts.len() ==> concatenated(parts.take(r)).len() < limit && is_round(
            #[trigger] parts[r],
            filters,
            limit,
            round_sizes()[r],
            answers,
        )
    &&& parts.len() == 4 || concatenated(parts).len() >= limit
}

/// Whether `found` are the best of all that was found: each email once, with the highest score
/// that it was found with, the most similar first, no more than wanted; left out is only what
/// is no more similar than all of them, once there are as many as wanted.
pub open spec fn are_best(
    found: Seq<(LoreEmailInfoView, u32)>,
    all: Seq<(LoreEmailInfoView, u32)>,
    limit: nat,
) -> bool {
    &&& found.len() <= limit
    &&& forall|a: int| 0 <= a < found.len() ==> all.contains(#[trigger] found[a])
    &&& forall|a: int, b: int|
        0 <= a < b < found.len() ==> (#[trigger] found[a]).1 >= (#[trigger] found[b]).1
            && found[a].0.message_id != found[b].0.message_id
    &&& forall|k: int|
        0 <= k < all.len() ==> is_represented(found, #[trigger] all[k]) || (found.len() == limit
            && forall|a: int| 0 <= a < found.len() ==> (#[trigger] found[a]).1 >= all[k].1)
}

/// Whether an email was found with no lower a score.
pub open spec fn is_represented(
    found: Seq<(LoreEmailInfoView, u32)>,
    entry: (LoreEmailInfoView, u32),
) -> bool {
    exists|a: int|
        0 <= a < found.len() && (#[trigger] found[a]).0.message_id == entry.0.message_id
            && found[a].1 >= entry.1
}

proof fn lemma_best(all: Seq<(LoreEmailInfoView, u32)>, limit: nat)
    ensures
        are_best(best(all, limit), all, limit),
{
    law_best(all, limit);
    let out = best(all, limit);
    let sorted = by_score(all);
    let keys = message_keys(sorted);
    let kept = first_places(keys);
    law_by_score(all);
    law_first_places(keys);
    lemma_first_below(keys, keys.len() as int);
    assert forall|a: int, b: int| 0 <= a < b < out.len() implies (#[trigger] out[a]).1 >= (
    #[trigger] out[b]).1 && out[a].0.message_id != out[b].0.message_id by {}
    assert forall|k: int| 0 <= k < all.len() implies is_represented(out, #[trigger] all[k]) || (
    out.len() == limit && forall|a: int|
        0 <= a < out.len() ==> (#[trigger] out[a]).1 >= all[k].1) by {
        assert(all.contains(all[k]));
        assert(sorted.contains(all[k]));
        let q = choose|q: int| 0 <= q < sorted.len() && sorted[q] == all[k];
        assert(keys[q] == text_key(all[k].0.message_id));
        let a = choose|a: int| 0 <= a < kept.len() && keys[#[trigger] kept[a]] == keys[q];
        assert(kept.contains(kept[a]));
        assert(is_first(keys, kept[a]));
        if q < kept[a] {
            assert(keys[q] != keys[kept[a]]);
        }
        assert(sorted[kept[a]].1 >= sorted[q].1) by {
            if kept[a] < q {
                assert(sorted[kept[a]].1 >= sorted[q].1);
            }
        }
        if a < out.len() {
            assert(out[a] == sorted[kept[a]]);
            assert(keys[kept[a]] == text_key(sorted[kept[a]].0.message_id));
            crate::order::lemma_text_key(out[a].0.message_id, all[k].0.message_id);
            assert(out[a].0.message_id == all[k].0.message_id);
        } else {
            assert(out.len() == limit);
            assert forall|b: int| 0 <= b < out.len() implies (#[trigger] out[b]).1 >= all[k].1 by {
                assert(out[b] == sorted[kept[b]]);
                assert(kept.contains(kept[b]));
                assert(kept[b] < kept[a]);
                assert(sorted[kept[b]].1 >= sorted[kept[a]].1);
            }
        }
    }
}

#[verifier::spinoff_prover]
#[verifier::rlimit(30)]
proof fn lemma_rounds(search: EmailSearchView, answers: EmailAnswers) -> (result: (
    Seq<Seq<(LoreEmailInfoView, u32)>>,
    nat,
))
    requires
        all_compile(search.filters),
        all_patterns(search.filters).len() > 0,
        search.round <= 4,
    ensures
        search.round + result.0.len() <= 4,
        forall|r: int|
            0 <= r < result.0.len() ==> search.found.len() + concatenated(result.0.take(r)).len()
                < search.limit && is_round(
                #[trigger] result.0[r],
                search.filters,
                search.limit,
                round_sizes()[search.round + r],
                answers,
            ),
        search.round + result.0.len() == 4 || search.found.len() + concatenated(result.0).len()
            >= search.limit,
        email_run(next_round(search), answers, result.1) == EmailStepView::Done(
            best(search.found + concatenated(result.0), search.limit),
        ),
    decreases 4 - search.round,
{
    let none: Seq<Seq<(LoreEmailInfoView, u32)>> = seq![];
    if search.round >= 4 || search.found.len() >= search.limit {
        assert(concatenated(none) =~= seq![]);
        assert(search.found + concatenated(none) =~= search.found);
        assert(email_run(next_round(search), answers, 0) == next_round(search));
        (none, 0)
    } else {
        let (found, first) = lemma_round(search, answers);
        let next = EmailSearchView {
            round: search.round + 1,
            found: search.found + found,
            ..search
        };
        let (rest, more) = lemma_rounds(next, answers);
        let parts = seq![found] + rest;
        lemma_run_adds(next_round(search), answers, first, more);
        lemma_concatenated_two(seq![found], rest);
        reveal_with_fuel(concatenated, 2);
        assert(seq![found].drop_last() =~= seq![]);
        assert(concatenated(seq![found]) =~= found);
        assert(search.found + concatenated(parts) =~= next.found + concatenated(rest));
        assert forall|r: int| 0 <= r < parts.len() implies search.found.len() + concatenated(
            parts.take(r),
        ).len() < search.limit && is_round(
            #[trigger] parts[r],
            search.filters,
            search.limit,
            round_sizes()[search.round + r],
            answers,
        ) by {
            if r == 0 {
                assert(parts.take(0) =~= none);
                assert(concatenated(none) =~= seq![]);
            } else {
                assert(parts[r] == rest[r - 1]);
                assert(parts.take(r) =~= seq![found] + rest.take(r - 1));
                lemma_concatenated_two(seq![found], rest.take(r - 1));
            }
        }
        (parts, first + more)
    }
}

/// With patterns for fields that can be compiled, a search goes round by round as long as too
/// few emails were found, each round looking at more candidates and neighbours, and hands out
/// the best of all that the rounds found.
pub proof fn law_filtered_search(filters: FiltersView, limit: nat, answers: EmailAnswers)
    requires
        all_patterns(filters).len() > 0,
        all_compile(filters),
    ensures
        exists|parts: Seq<Seq<(LoreEmailInfoView, u32)>>, found: Seq<(LoreEmailInfoView, u32)>, steps: nat|
            #[trigger] are_rounds(parts, filters, limit, answers) && #[trigger] email_run(
                emails_start(filters, limit),
                answers,
                steps,
            ) == EmailStepView::Done(found) && #[trigger] are_best(
                found,
                concatenated(parts),
                limit,
            ),
{
    let search = EmailSearchView { filters, limit, round: 0, found: seq![] };
    let (parts, steps) = lemma_rounds(search, answers);
    let all = search.found + concatenated(parts);
    assert(all =~= concatenated(parts));
    lemma_best(all, limit);
    assert(emails_start(filters, limit) == next_round(search));
    assert(are_rounds(parts, filters, limit, answers));
    assert(email_run(emails_start(filters, limit), answers, steps) == EmailStepView::Done(
        best(all, limit),
    ));
    assert(are_best(best(all, limit), concatenated(parts), limit));
}

/// A search with a pattern that cannot be compiled fails with the fault of the first of them,
/// unless nothing is wanted. One with fields but without a pattern finds nothing.
pub proof fn law_search_fails(filters: FiltersView, limit: nat, answers: EmailAnswers)
    ensures
        !all_compile(filters) && limit > 0 ==> exists|at: int, steps: nat|
            0 <= at < all_patterns(filters).len() && #[trigger] compile(
                all_patterns(filters).take(at),
            ) && regex_fault(all_patterns(filters)[at], true, usize::BITS) is Some
                && #[trigger] email_run(emails_start(filters, limit), answers, steps)
                == EmailStepView::Failed(
                regex_fault(all_patterns(filters)[at], true, usize::BITS)->Some_0,
            ),
        fields_given(filters) && all_patterns(filters).len() == 0 ==> emails_start(filters, limit)
            == EmailStepView::Done(seq![]),
{
    let search = EmailSearchView { filters, limit, round: 0, found: seq![] };
    if !all_compile(filters) && limit > 0 {
        law_fields_are_searched(filters, 1_000, answers.candidates);
        let at = choose|at: int| #[trigger] fails_at(filters, 1_000, answers.candidates, at);
        let fault = regex_fault(all_patterns(filters)[at], true, usize::BITS)->Some_0;
        let n = choose|n: nat| #[trigger]
            run_fields(fields_start(filters, 1_000), answers.candidates, n) == Some(
                FieldStepView::Failed(fault),
            );
        let steps = lemma_fields_within(
            search,
            fields_start(filters, 1_000),
            answers,
            n,
        );
        assert(rounds()[0] == 1_000);
        assert(compile(all_patterns(filters).take(at)));
        assert(email_run(emails_start(filters, limit), answers, steps) == EmailStepView::Failed(
            fault,
        ));
    }
    if fields_given(filters) && all_patterns(filters).len() == 0 {
        lemma_no_patterns(search);
        let none: Seq<(LoreEmailInfoView, u32)> = seq![];
        lemma_best(none, limit);
        assert(best(none, limit) =~= seq![]) by {
            if best(none, limit).len() > 0 {
                assert(none.contains(best(none, limit)[0]));
            }
        }
    }
}

proof fn lemma_no_patterns(search: EmailSearchView)
    requires
        all_patterns(search.filters).len() == 0,
    ensures
        next_round(search) == EmailStepView::Done(best(search.found, search.limit)),
    decreases rounds().len() - search.round,
{
    if search.round < rounds().len() && search.found.len() < search.limit {
        let none: Seq<Seq<char>> = seq![];
        assert(crate::database::lore_fields::queried_fields(search.filters) =~= seq![]);
        assert(fields_start(search.filters, rounds()[search.round as int]) == FieldStepView::Done(
            none,
        ));
        lemma_no_patterns(EmailSearchView { round: search.round + 1, ..search });
    }
}

} // verus!
