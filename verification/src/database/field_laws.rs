//! What patterns find together: those of one field, and those of several.

use vstd::prelude::*;

use crate::database::lore_fields::{
    candidate_kept, field_entry, fields_end, fields_state, found_by_fields, found_by_patterns,
    in_all, kept_ids, law_fields_agree, law_intersection, matching_ids, patterns_compile, question,
    queried_fields, Candidate, FieldPatternsView, FieldState, FiltersView, FullTextQueryView,
};
use crate::pattern::bound_moment;

verus! {

/// Whether one of the candidates is kept and has this id.
pub open spec fn keeps(
    candidates: Seq<Candidate>,
    pattern: Seq<char>,
    since: Option<(i64, u32)>,
    until: Option<(i64, u32)>,
    id: Seq<char>,
) -> bool {
    exists|k: int|
        0 <= k < candidates.len() && candidate_kept(
            #[trigger] candidates[k],
            pattern,
            since,
            until,
        ) && candidates[k].message_id@ == id
}

/// Whether the pattern at `p` of a field finds this id.
pub open spec fn pattern_finds(
    field: FieldPatternsView,
    p: int,
    state: FieldState,
    answers: spec_fn(FullTextQueryView) -> Seq<Candidate>,
    id: Seq<char>,
) -> bool {
    keeps(
        answers(question(field.column, field.patterns[p], state.limit)),
        field.patterns[p],
        state.since,
        state.until,
        id,
    )
}

proof fn lemma_kept_ids(
    candidates: Seq<Candidate>,
    pattern: Seq<char>,
    since: Option<(i64, u32)>,
    until: Option<(i64, u32)>,
    id: Seq<char>,
)
    ensures
        kept_ids(candidates, pattern, since, until).contains(id) <==> keeps(
            candidates,
            pattern,
            since,
            until,
            id,
        ),
    decreases candidates.len(),
{
    if candidates.len() > 0 {
        let fewer = candidates.drop_last();
        let before = kept_ids(fewer, pattern, since, until);
        let all = kept_ids(candidates, pattern, since, until);
        let last = candidates.last();
        lemma_kept_ids(fewer, pattern, since, until, id);
        if all.contains(id) {
            let k = choose|k: int| 0 <= k < all.len() && all[k] == id;
            if k < before.len() {
                assert(before.contains(before[k]));
                let n = choose|n: int|
                    0 <= n < fewer.len() && candidate_kept(
                        #[trigger] fewer[n],
                        pattern,
                        since,
                        until,
                    ) && fewer[n].message_id@ == id;
                assert(candidates[n] == fewer[n]);
            } else {
                assert(candidates[candidates.len() - 1] == last);
            }
        }
        if keeps(candidates, pattern, since, until, id) {
            let n = choose|n: int|
                0 <= n < candidates.len() && candidate_kept(
                    #[trigger] candidates[n],
                    pattern,
                    since,
                    until,
                ) && candidates[n].message_id@ == id;
            if n < fewer.len() {
                assert(fewer[n] == candidates[n]);
                let k = choose|k: int| 0 <= k < before.len() && before[k] == id;
                assert(all[k] == id);
            } else {
                assert(all[before.len() as int] == id);
            }
        }
    }
}

proof fn lemma_patterns_from(
    field: FieldPatternsView,
    from: nat,
    state: FieldState,
    answers: spec_fn(FullTextQueryView) -> Seq<Candidate>,
    id: Seq<char>,
)
    ensures
        found_by_patterns(field, from, state, answers).contains(id) <==> exists|p: int|
            from <= p < field.patterns.len() && #[trigger] pattern_finds(
                field,
                p,
                state,
                answers,
                id,
            ),
    decreases field.patterns.len() - from,
{
    if from < field.patterns.len() {
        let pattern = field.patterns[from as int];
        let candidates = answers(question(field.column, pattern, state.limit));
        let own = kept_ids(candidates, pattern, state.since, state.until);
        let rest = found_by_patterns(field, from + 1, state, answers);
        let all = found_by_patterns(field, from, state, answers);
        lemma_kept_ids(candidates, pattern, state.since, state.until, id);
        lemma_patterns_from(field, from + 1, state, answers, id);
        assert(all == own + rest);
        if all.contains(id) {
            let k = choose|k: int| 0 <= k < all.len() && all[k] == id;
            if k < own.len() {
                assert(own[k] == id);
                assert(pattern_finds(field, from as int, state, answers, id));
            } else {
                assert(rest[k - own.len()] == id);
            }
        }
        if own.contains(id) {
            let k = choose|k: int| 0 <= k < own.len() && own[k] == id;
            assert(all[k] == id);
        }
        if rest.contains(id) {
            let k = choose|k: int| 0 <= k < rest.len() && rest[k] == id;
            assert(all[own.len() + k] == id);
        }
        assert forall|p: int|
            from <= p < field.patterns.len() && #[trigger] pattern_finds(
                field,
                p,
                state,
                answers,
                id,
            ) implies all.contains(id) by {
            if p == from {
                assert(own.contains(id));
            }
        }
    }
}

/// The patterns of one field are alternatives: the field finds an email if and only if
/// one of its patterns does.
pub proof fn law_patterns_add_up(
    field: FieldPatternsView,
    state: FieldState,
    answers: spec_fn(FullTextQueryView) -> Seq<Candidate>,
    id: Seq<char>,
)
    ensures
        found_by_patterns(field, 0, state, answers).contains(id) <==> exists|p: int|
            0 <= p < field.patterns.len() && #[trigger] pattern_finds(
                field,
                p,
                state,
                answers,
                id,
            ),
{
    lemma_patterns_from(field, 0, state, answers, id);
}

/// Whether a pattern of a field finds this id.
pub open spec fn finds(
    column: Seq<char>,
    pattern: Seq<char>,
    filters: FiltersView,
    limit: nat,
    answers: spec_fn(FullTextQueryView) -> Seq<Candidate>,
    id: Seq<char>,
) -> bool {
    keeps(
        answers(question(column, pattern, limit)),
        pattern,
        bound_moment(filters.since),
        bound_moment(filters.until),
        id,
    )
}

/// Whether patterns are given.
pub open spec fn given(patterns: Option<Seq<Seq<char>>>) -> bool {
    patterns is Some && patterns->0.len() > 0
}

/// Whether the patterns of a field, where they are given, admit this id.
pub open spec fn field_admits(
    column: Seq<char>,
    patterns: Option<Seq<Seq<char>>>,
    filters: FiltersView,
    limit: nat,
    answers: spec_fn(FullTextQueryView) -> Seq<Candidate>,
    id: Seq<char>,
) -> bool {
    given(patterns) ==> exists|p: int|
        0 <= p < patterns->0.len() && #[trigger] finds(
            column,
            patterns->0[p],
            filters,
            limit,
            answers,
            id,
        )
}

/// Whether all fields admit this id.
pub open spec fn admits(
    filters: FiltersView,
    limit: nat,
    answers: spec_fn(FullTextQueryView) -> Seq<Candidate>,
    id: Seq<char>,
) -> bool {
    &&& field_admits("from"@, filters.from, filters, limit, answers, id)
    &&& field_admits("subject"@, filters.subject, filters, limit, answers, id)
    &&& field_admits("body"@, filters.body, filters, limit, answers, id)
    &&& field_admits("symbols"@, filters.symbols, filters, limit, answers, id)
    &&& field_admits("recipients"@, filters.recipients, filters, limit, answers, id)
}

/// Whether each of some fields finds this id.
spec fn all_find(
    fields: Seq<FieldPatternsView>,
    state: FieldState,
    answers: spec_fn(FullTextQueryView) -> Seq<Candidate>,
    id: Seq<char>,
) -> bool {
    forall|f: int|
        0 <= f < fields.len() ==> found_by_patterns(
            #[trigger] fields[f],
            0,
            state,
            answers,
        ).contains(id)
}

proof fn lemma_found_at(
    from: nat,
    state: FieldState,
    answers: spec_fn(FullTextQueryView) -> Seq<Candidate>,
    k: int,
)
    requires
        0 <= k < found_by_fields(from, state, answers).len(),
    ensures
        from + k < state.fields.len(),
        found_by_fields(from, state, answers)[k] == found_by_patterns(
            state.fields[from + k],
            0,
            state,
            answers,
        ),
    decreases state.fields.len() - from,
{
    if k > 0 {
        lemma_found_at(from + 1, state, answers, k - 1);
        assert(found_by_fields(from, state, answers)[k] == found_by_fields(
            from + 1,
            state,
            answers,
        )[k - 1]);
    }
}

proof fn lemma_found_count(
    from: nat,
    state: FieldState,
    answers: spec_fn(FullTextQueryView) -> Seq<Candidate>,
)
    requires
        from <= state.fields.len(),
    ensures
        found_by_fields(from, state, answers).len() == state.fields.len() - from,
    decreases state.fields.len() - from,
{
    if from < state.fields.len() {
        lemma_found_count(from + 1, state, answers);
    }
}

/// The patterns of one field, in a list of one or none, find an id where they admit it.
proof fn lemma_entry_finds(
    column: Seq<char>,
    patterns: Option<Seq<Seq<char>>>,
    filters: FiltersView,
    limit: nat,
    answers: spec_fn(FullTextQueryView) -> Seq<Candidate>,
    id: Seq<char>,
)
    ensures
        all_find(field_entry(column, patterns), fields_state(filters, limit), answers, id)
            <==> field_admits(column, patterns, filters, limit, answers, id),
{
    let state = fields_state(filters, limit);
    let entry = field_entry(column, patterns);
    if given(patterns) {
        let list = patterns->0;
        let field = FieldPatternsView { column, patterns: list };
        assert(entry[0] == field);
        law_patterns_add_up(field, state, answers, id);
        assert forall|p: int| 0 <= p < list.len() implies #[trigger] pattern_finds(
            field,
            p,
            state,
            answers,
            id,
        ) == finds(column, list[p], filters, limit, answers, id) by {}
        if all_find(entry, state, answers, id) {
            assert(found_by_patterns(entry[0], 0, state, answers).contains(id));
            let p = choose|p: int|
                0 <= p < list.len() && #[trigger] pattern_finds(field, p, state, answers, id);
            assert(finds(column, list[p], filters, limit, answers, id));
        }
        if field_admits(column, patterns, filters, limit, answers, id) {
            let p = choose|p: int|
                0 <= p < list.len() && #[trigger] finds(
                    column,
                    list[p],
                    filters,
                    limit,
                    answers,
                    id,
                );
            assert(pattern_finds(field, p, state, answers, id));
        }
    }
}

proof fn lemma_all_find_two(
    x: Seq<FieldPatternsView>,
    y: Seq<FieldPatternsView>,
    state: FieldState,
    answers: spec_fn(FullTextQueryView) -> Seq<Candidate>,
    id: Seq<char>,
)
    ensures
        all_find(x + y, state, answers, id) <==> all_find(x, state, answers, id) && all_find(
            y,
            state,
            answers,
            id,
        ),
{
    let both = x + y;
    if all_find(both, state, answers, id) {
        assert forall|f: int| 0 <= f < x.len() implies found_by_patterns(
            #[trigger] x[f],
            0,
            state,
            answers,
        ).contains(id) by {
            assert(both[f] == x[f]);
        }
        assert forall|f: int| 0 <= f < y.len() implies found_by_patterns(
            #[trigger] y[f],
            0,
            state,
            answers,
        ).contains(id) by {
            assert(both[f + x.len()] == y[f]);
        }
    }
    if all_find(x, state, answers, id) && all_find(y, state, answers, id) {
        assert forall|f: int| 0 <= f < both.len() implies found_by_patterns(
            #[trigger] both[f],
            0,
            state,
            answers,
        ).contains(id) by {
            if f < x.len() {
                assert(both[f] == x[f]);
            } else {
                assert(both[f] == y[f - x.len()]);
            }
        }
    }
}

/// A search of fields hands out a message id if and only if all fields for which patterns
/// are given admit it, and none twice.
pub proof fn law_fields_admit(
    filters: FiltersView,
    limit: nat,
    answers: spec_fn(FullTextQueryView) -> Seq<Candidate>,
)
    requires
        queried_fields(filters).len() > 0,
    ensures
        matching_ids(filters, limit, answers).no_duplicates(),
        forall|id: Seq<char>| #[trigger]
            matching_ids(filters, limit, answers).contains(id) <==> admits(
                filters,
                limit,
                answers,
                id,
            ),
{
    let state = fields_state(filters, limit);
    let lists = found_by_fields(0, state, answers);
    let fields = queried_fields(filters);
    lemma_found_count(0, state, answers);
    law_intersection(lists);
    assert forall|id: Seq<char>| #[trigger]
        matching_ids(filters, limit, answers).contains(id) <==> admits(
        filters,
        limit,
        answers,
        id,
    ) by {
        assert(in_all(lists, id) <==> all_find(fields, state, answers, id)) by {
            if in_all(lists, id) {
                assert forall|f: int| 0 <= f < fields.len() implies found_by_patterns(
                    #[trigger] fields[f],
                    0,
                    state,
                    answers,
                ).contains(id) by {
                    lemma_found_at(0, state, answers, f);
                    assert(lists[f].contains(id));
                }
            }
            if all_find(fields, state, answers, id) {
                assert forall|k: int| 0 <= k < lists.len() implies (
                #[trigger] lists[k]).contains(id) by {
                    lemma_found_at(0, state, answers, k);
                    assert(found_by_patterns(fields[k], 0, state, answers).contains(id));
                }
            }
        }
        let a = field_entry("from"@, filters.from);
        let b = field_entry("subject"@, filters.subject);
        let c = field_entry("body"@, filters.body);
        let d = field_entry("symbols"@, filters.symbols);
        let e = field_entry("recipients"@, filters.recipients);
        lemma_all_find_two(a, b, state, answers, id);
        lemma_all_find_two(a + b, c, state, answers, id);
        lemma_all_find_two(a + b + c, d, state, answers, id);
        lemma_all_find_two(a + b + c + d, e, state, answers, id);
        lemma_entry_finds("from"@, filters.from, filters, limit, answers, id);
        lemma_entry_finds("subject"@, filters.subject, filters, limit, answers, id);
        lemma_entry_finds("body"@, filters.body, filters, limit, answers, id);
        lemma_entry_finds("symbols"@, filters.symbols, filters, limit, answers, id);
        lemma_entry_finds("recipients"@, filters.recipients, filters, limit, answers, id);
    }
}

/// Whether to patterns that are given others may have been added, and to none that are
/// not given.
pub open spec fn patterns_added(
    before: Option<Seq<Seq<char>>>,
    after: Option<Seq<Seq<char>>>,
) -> bool {
    &&& given(before) == given(after)
    &&& given(before) ==> forall|p: int|
        0 <= p < before->0.len() ==> after->0.contains(#[trigger] before->0[p])
}

/// Whether patterns that are given are as before; where none were given there may be some.
pub open spec fn field_added(
    before: Option<Seq<Seq<char>>>,
    after: Option<Seq<Seq<char>>>,
) -> bool {
    given(before) ==> after == before
}

proof fn lemma_admits_more(
    column: Seq<char>,
    x: Option<Seq<Seq<char>>>,
    y: Option<Seq<Seq<char>>>,
    before: FiltersView,
    after: FiltersView,
    limit: nat,
    answers: spec_fn(FullTextQueryView) -> Seq<Candidate>,
    id: Seq<char>,
)
    requires
        before.since == after.since,
        before.until == after.until,
        patterns_added(x, y),
        field_admits(column, x, before, limit, answers, id),
    ensures
        field_admits(column, y, after, limit, answers, id),
{
    if given(x) {
        let p = choose|p: int|
            0 <= p < x->0.len() && #[trigger] finds(column, x->0[p], before, limit, answers, id);
        assert(y->0.contains(x->0[p]));
        let q = choose|q: int| 0 <= q < y->0.len() && y->0[q] == x->0[p];
        assert(finds(column, y->0[q], after, limit, answers, id));
    }
}

proof fn lemma_admits_still(
    column: Seq<char>,
    x: Option<Seq<Seq<char>>>,
    y: Option<Seq<Seq<char>>>,
    before: FiltersView,
    after: FiltersView,
    limit: nat,
    answers: spec_fn(FullTextQueryView) -> Seq<Candidate>,
    id: Seq<char>,
)
    requires
        before.since == after.since,
        before.until == after.until,
        field_added(x, y),
        field_admits(column, y, after, limit, answers, id),
    ensures
        field_admits(column, x, before, limit, answers, id),
{
    if given(x) {
        let p = choose|p: int|
            0 <= p < y->0.len() && #[trigger] finds(column, y->0[p], after, limit, answers, id);
        assert(finds(column, x->0[p], before, limit, answers, id));
    }
}

/// A further pattern for a field that has some only adds to what a search of fields hands
/// out.
pub proof fn law_more_patterns(
    before: FiltersView,
    after: FiltersView,
    limit: nat,
    answers: spec_fn(FullTextQueryView) -> Seq<Candidate>,
)
    requires
        queried_fields(before).len() > 0,
        patterns_compile(queried_fields(before)),
        patterns_compile(queried_fields(after)),
        before.since == after.since,
        before.until == after.until,
        patterns_added(before.from, after.from),
        patterns_added(before.subject, after.subject),
        patterns_added(before.body, after.body),
        patterns_added(before.symbols, after.symbols),
        patterns_added(before.recipients, after.recipients),
    ensures
        fields_end(before, limit, answers, matching_ids(before, limit, answers)),
        fields_end(after, limit, answers, matching_ids(after, limit, answers)),
        forall|id: Seq<char>| #[trigger]
            matching_ids(before, limit, answers).contains(id) ==> matching_ids(
                after,
                limit,
                answers,
            ).contains(id),
{
    law_fields_agree(before, limit, answers);
    law_fields_agree(after, limit, answers);
    law_fields_admit(before, limit, answers);
    law_fields_admit(after, limit, answers);
    assert forall|id: Seq<char>| #[trigger]
        matching_ids(before, limit, answers).contains(id) implies matching_ids(
        after,
        limit,
        answers,
    ).contains(id) by {
        lemma_admits_more("from"@, before.from, after.from, before, after, limit, answers, id);
        lemma_admits_more(
            "subject"@,
            before.subject,
            after.subject,
            before,
            after,
            limit,
            answers,
            id,
        );
        lemma_admits_more("body"@, before.body, after.body, before, after, limit, answers, id);
        lemma_admits_more(
            "symbols"@,
            before.symbols,
            after.symbols,
            before,
            after,
            limit,
            answers,
            id,
        );
        lemma_admits_more(
            "recipients"@,
            before.recipients,
            after.recipients,
            before,
            after,
            limit,
            answers,
            id,
        );
    }
}

/// Patterns for a further field only take away from what a search of fields hands out.
pub proof fn law_more_fields(
    before: FiltersView,
    after: FiltersView,
    limit: nat,
    answers: spec_fn(FullTextQueryView) -> Seq<Candidate>,
)
    requires
        queried_fields(before).len() > 0,
        patterns_compile(queried_fields(before)),
        patterns_compile(queried_fields(after)),
        before.since == after.since,
        before.until == after.until,
        field_added(before.from, after.from),
        field_added(before.subject, after.subject),
        field_added(before.body, after.body),
        field_added(before.symbols, after.symbols),
        field_added(before.recipients, after.recipients),
    ensures
        fields_end(before, limit, answers, matching_ids(before, limit, answers)),
        fields_end(after, limit, answers, matching_ids(after, limit, answers)),
        forall|id: Seq<char>| #[trigger]
            matching_ids(after, limit, answers).contains(id) ==> matching_ids(
                before,
                limit,
                answers,
            ).contains(id),
{
    law_fields_agree(before, limit, answers);
    law_fields_agree(after, limit, answers);
    law_fields_admit(before, limit, answers);
    law_fields_admit(after, limit, answers);
    assert forall|id: Seq<char>| #[trigger]
        matching_ids(after, limit, answers).contains(id) implies matching_ids(
        before,
        limit,
        answers,
    ).contains(id) by {
        lemma_admits_still("from"@, before.from, after.from, before, after, limit, answers, id);
        lemma_admits_still(
            "subject"@,
            before.subject,
            after.subject,
            before,
            after,
            limit,
            answers,
            id,
        );
        lemma_admits_still("body"@, before.body, after.body, before, after, limit, answers, id);
        lemma_admits_still(
            "symbols"@,
            before.symbols,
            after.symbols,
            before,
            after,
            limit,
            answers,
            id,
        );
        lemma_admits_still(
            "recipients"@,
            before.recipients,
            after.recipients,
            before,
            after,
            limit,
            answers,
            id,
        );
    }
}

} // verus!
