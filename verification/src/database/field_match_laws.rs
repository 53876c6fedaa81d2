//! What a search of fields comes to, whatever full-text search answers.

use vstd::prelude::*;

use crate::database::email_match_laws::{all_admit, all_compile, lemma_admits};
use crate::database::field_laws::{admits, field_admits, finds, given, law_fields_admit};
use crate::database::lore_fields::{
    after_candidates, ask_field, field_entry, fields_end, fields_start, fields_state,
    law_fields_agree, matching_ids, patterns_compile, queried_fields, question, run_fields,
    with_candidates, Candidate, FieldPatternsView, FieldState, FieldStepView, FiltersView,
    FullTextQueryView,
};
use crate::lists::{concatenated, lemma_concatenated_two};
use crate::pattern::regex_fault;

verus! {

/// The patterns of a field.
pub open spec fn patterns_of(patterns: Option<Seq<Seq<char>>>) -> Seq<Seq<char>> {
    match patterns {
        Some(list) => list,
        None => seq![],
    }
}

/// The patterns of all five fields, one after the other.
pub open spec fn all_patterns(filters: FiltersView) -> Seq<Seq<char>> {
    patterns_of(filters.from) + patterns_of(filters.subject) + patterns_of(filters.body)
        + patterns_of(filters.symbols) + patterns_of(filters.recipients)
}

/// How many candidates full-text search is asked for: as many as are wanted, or so many where
/// there is no limit.
pub open spec fn candidates_asked(limit: nat) -> nat {
    if limit == 0 {
        100_000
    } else {
        limit
    }
}

/// Whether all of some patterns can be compiled.
pub open spec fn compile(patterns: Seq<Seq<char>>) -> bool {
    forall|p: int|
        0 <= p < patterns.len() ==> regex_fault(#[trigger] patterns[p], true, usize::BITS) is None
}

/// Whether a search of fields ends with the fault of the first pattern that cannot be compiled.
pub open spec fn fails_at(
    filters: FiltersView,
    limit: nat,
    candidates: spec_fn(FullTextQueryView) -> Seq<Candidate>,
    at: int,
) -> bool {
    let all = all_patterns(filters);
    &&& 0 <= at < all.len()
    &&& compile(all.take(at))
    &&& regex_fault(all[at], true, usize::BITS) is Some
    &&& exists|steps: nat| #[trigger]
        run_fields(fields_start(filters, limit), candidates, steps) == Some(
            FieldStepView::Failed(regex_fault(all[at], true, usize::BITS)->Some_0),
        )
}

spec fn flat(fields: Seq<FieldPatternsView>) -> Seq<Seq<char>> {
    concatenated(fields.map_values(|field: FieldPatternsView| field.patterns))
}

proof fn lemma_flat_two(a: Seq<FieldPatternsView>, b: Seq<FieldPatternsView>)
    ensures
        flat(a + b) == flat(a) + flat(b),
{
    let f = |field: FieldPatternsView| field.patterns;
    assert((a + b).map_values(f) =~= a.map_values(f) + b.map_values(f));
    lemma_concatenated_two(a.map_values(f), b.map_values(f));
}

proof fn lemma_flat_one(field: FieldPatternsView)
    ensures
        flat(seq![field]) == field.patterns,
{
    let list = seq![field].map_values(|field: FieldPatternsView| field.patterns);
    assert(list =~= seq![field.patterns]);
    reveal_with_fuel(concatenated, 2);
    assert(list.drop_last() =~= seq![]);
    assert(concatenated(list) =~= field.patterns);
}

proof fn lemma_flat_entry(column: Seq<char>, patterns: Option<Seq<Seq<char>>>)
    ensures
        flat(field_entry(column, patterns)) == patterns_of(patterns),
{
    if given(patterns) {
        lemma_flat_one(FieldPatternsView { column, patterns: patterns->0 });
    } else {
        let none: Seq<FieldPatternsView> = seq![];
        assert(none.map_values(|field: FieldPatternsView| field.patterns) =~= seq![]);
        assert(flat(none) =~= seq![]);
        assert(patterns_of(patterns) =~= seq![]);
    }
}

proof fn lemma_flat(filters: FiltersView)
    ensures
        flat(queried_fields(filters)) == all_patterns(filters),
        forall|f: int|
            0 <= f < queried_fields(filters).len() ==> (
            #[trigger] queried_fields(filters)[f]).patterns.len() > 0,
        queried_fields(filters).len() == 0 <==> all_patterns(filters).len() == 0,
{
    let a = field_entry("from"@, filters.from);
    let b = field_entry("subject"@, filters.subject);
    let c = field_entry("body"@, filters.body);
    let d = field_entry("symbols"@, filters.symbols);
    let e = field_entry("recipients"@, filters.recipients);
    lemma_flat_entry("from"@, filters.from);
    lemma_flat_entry("subject"@, filters.subject);
    lemma_flat_entry("body"@, filters.body);
    lemma_flat_entry("symbols"@, filters.symbols);
    lemma_flat_entry("recipients"@, filters.recipients);
    lemma_flat_two(a, b);
    lemma_flat_two(a + b, c);
    lemma_flat_two(a + b + c, d);
    lemma_flat_two(a + b + c + d, e);
}

/// The search of fields stands at the pattern at `at` of all.
spec fn stands_at(state: FieldState, at: int) -> bool {
    let field = state.fields[state.field as int];
    &&& state.field < state.fields.len()
    &&& state.pattern < field.patterns.len()
    &&& at == flat(state.fields.take(state.field as int)).len() + state.pattern
    &&& 0 <= at < flat(state.fields).len()
    &&& flat(state.fields)[at] == field.patterns[state.pattern as int]
}

proof fn lemma_stands(state: FieldState)
    requires
        state.field < state.fields.len(),
        state.pattern < state.fields[state.field as int].patterns.len(),
    ensures
        stands_at(
            state,
            flat(state.fields.take(state.field as int)).len() as int + state.pattern as int,
        ),
        flat(state.fields.take(state.field as int)).len()
            + state.fields[state.field as int].patterns.len() <= flat(state.fields).len(),
        flat(state.fields.take(state.field + 1int)).len() == flat(
            state.fields.take(state.field as int),
        ).len() + state.fields[state.field as int].patterns.len(),
{
    let k = state.field as int;
    let before = state.fields.take(k);
    let field = state.fields[k];
    let behind = state.fields.skip(k + 1);
    assert(state.fields.take(k + 1) =~= before + seq![field]);
    assert(state.fields =~= before + seq![field] + behind);
    lemma_flat_two(before, seq![field]);
    lemma_flat_two(before + seq![field], behind);
    lemma_flat_one(field);
}

proof fn lemma_fails(
    state: FieldState,
    candidates: spec_fn(FullTextQueryView) -> Seq<Candidate>,
    at: int,
    bad: int,
) -> (steps: nat)
    requires
        stands_at(state, at),
        forall|f: int| 0 <= f < state.fields.len() ==> (#[trigger] state.fields[f]).patterns.len() > 0,
        at <= bad < flat(state.fields).len(),
        forall|p: int|
            at <= p < bad ==> regex_fault(
                #[trigger] flat(state.fields)[p],
                true,
                usize::BITS,
            ) is None,
        regex_fault(flat(state.fields)[bad], true, usize::BITS) is Some,
    ensures
        run_fields(ask_field(state), candidates, steps) == Some(
            FieldStepView::Failed(
                regex_fault(flat(state.fields)[bad], true, usize::BITS)->Some_0,
            ),
        ),
    decreases bad - at,
{
    let field = state.fields[state.field as int];
    let pattern = field.patterns[state.pattern as int];
    let query = question(field.column, pattern, state.limit);
    let after = with_candidates(state, candidates(query));
    let step = after_candidates(state, candidates(query));
    if at == bad {
        assert(run_fields(step, candidates, 0) == Some(step));
        assert(run_fields(ask_field(state), candidates, 1) == Some(step));
        1
    } else {
        assert(regex_fault(flat(state.fields)[at], true, usize::BITS) is None);
        lemma_stands(state);
        let next = if state.pattern + 1 < field.patterns.len() {
            FieldState { pattern: state.pattern + 1, ..after }
        } else {
            FieldState {
                field: state.field + 1,
                pattern: 0,
                found: after.found.push(seq![]),
                ..after
            }
        };
        if state.pattern + 1 >= field.patterns.len() && state.field + 1 >= state.fields.len() {
            assert(state.fields.take(state.field + 1int) =~= state.fields);
            assert(false);
        }
        assert(next.fields == state.fields);
        if state.pattern + 1 >= field.patterns.len() {
            assert(state.fields[next.field as int].patterns.len() > 0);
        }
        lemma_stands(next);
        let steps = lemma_fails(next, candidates, at + 1, bad);
        assert(step == ask_field(next));
        assert(run_fields(ask_field(state), candidates, (steps + 1) as nat) == run_fields(
            ask_field(next),
            candidates,
            steps,
        ));
        (steps + 1) as nat
    }
}

proof fn lemma_first_fault(patterns: Seq<Seq<char>>) -> (at: int)
    requires
        !compile(patterns),
    ensures
        0 <= at < patterns.len(),
        compile(patterns.take(at)),
        regex_fault(patterns[at], true, usize::BITS) is Some,
    decreases patterns.len(),
{
    let fewer = patterns.drop_last();
    if compile(fewer) {
        let at = patterns.len() - 1;
        assert(patterns.take(at) =~= fewer);
        if regex_fault(patterns[at], true, usize::BITS) is None {
            assert forall|p: int| 0 <= p < patterns.len() implies regex_fault(
                #[trigger] patterns[p],
                true,
                usize::BITS,
            ) is None by {
                if p < at {
                    assert(fewer[p] == patterns[p]);
                }
            }
            assert(compile(patterns));
        }
        at
    } else {
        let at = lemma_first_fault(fewer);
        assert(fewer.take(at) =~= patterns.take(at));
        at
    }
}

proof fn lemma_same_question(
    column: Seq<char>,
    patterns: Option<Seq<Seq<char>>>,
    filters: FiltersView,
    candidates: spec_fn(FullTextQueryView) -> Seq<Candidate>,
    id: Seq<char>,
)
    ensures
        field_admits(column, patterns, filters, 0, candidates, id) <==> field_admits(
            column,
            patterns,
            filters,
            100_000,
            candidates,
            id,
        ),
{
    if given(patterns) {
        let list = patterns->0;
        assert forall|p: int| 0 <= p < list.len() implies (#[trigger] finds(
            column,
            list[p],
            filters,
            0,
            candidates,
            id,
        ) <==> finds(column, list[p], filters, 100_000, candidates, id)) by {
            assert(question(column, list[p], 0) == question(column, list[p], 100_000));
        }
        if field_admits(column, patterns, filters, 0, candidates, id) {
            let p = choose|p: int|
                0 <= p < list.len() && #[trigger] finds(
                    column,
                    list[p],
                    filters,
                    0,
                    candidates,
                    id,
                );
            assert(finds(column, list[p], filters, 100_000, candidates, id));
        }
        if field_admits(column, patterns, filters, 100_000, candidates, id) {
            let p = choose|p: int|
                0 <= p < list.len() && #[trigger] finds(
                    column,
                    list[p],
                    filters,
                    100_000,
                    candidates,
                    id,
                );
            assert(finds(column, list[p], filters, 0, candidates, id));
        }
    }
}

/// Whether `ids` are those that all fields admit, each once.
pub open spec fn are_admitted(
    ids: Seq<Seq<char>>,
    filters: FiltersView,
    limit: nat,
    candidates: spec_fn(FullTextQueryView) -> Seq<Candidate>,
) -> bool {
    &&& ids.no_duplicates()
    &&& forall|id: Seq<char>| #[trigger]
        ids.contains(id) <==> all_admit(filters, candidates_asked(limit), candidates, id)
}

pub proof fn lemma_matching_ids(
    filters: FiltersView,
    limit: nat,
    candidates: spec_fn(FullTextQueryView) -> Seq<Candidate>,
)
    requires
        all_patterns(filters).len() > 0,
    ensures
        are_admitted(matching_ids(filters, limit, candidates), filters, limit, candidates),
{
    lemma_flat(filters);
    law_fields_admit(filters, limit, candidates);
    let ids = matching_ids(filters, limit, candidates);
    assert forall|id: Seq<char>| #[trigger] ids.contains(id) <==> all_admit(
        filters,
        candidates_asked(limit),
        candidates,
        id,
    ) by {
        lemma_admits(filters, candidates_asked(limit), candidates, id);
        if limit == 0 {
            lemma_same_question("from"@, filters.from, filters, candidates, id);
            lemma_same_question("subject"@, filters.subject, filters, candidates, id);
            lemma_same_question("body"@, filters.body, filters, candidates, id);
            lemma_same_question("symbols"@, filters.symbols, filters, candidates, id);
            lemma_same_question("recipients"@, filters.recipients, filters, candidates, id);
            assert(admits(filters, 0, candidates, id) <==> admits(
                filters,
                100_000,
                candidates,
                id,
            ));
        }
    }
}

/// A search of fields ends. Where no pattern is given it finds nothing; where all can be
/// compiled it finds, each once, the emails that all fields admit: for every field that has
/// patterns one of them is found in an email that full-text search hands out for it, dated
/// within the bounds. Else it fails with the fault of the first that cannot be compiled.
pub proof fn law_fields_are_searched(
    filters: FiltersView,
    limit: nat,
    candidates: spec_fn(FullTextQueryView) -> Seq<Candidate>,
)
    ensures
        all_patterns(filters).len() == 0 ==> fields_end(filters, limit, candidates, seq![]),
        all_patterns(filters).len() > 0 && all_compile(filters) ==> exists|ids: Seq<Seq<char>>|
            #[trigger]
            are_admitted(ids, filters, limit, candidates) && fields_end(
                filters,
                limit,
                candidates,
                ids,
            ),
        !all_compile(filters) ==> exists|at: int| #[trigger]
            fails_at(filters, limit, candidates, at),
{
    let all = all_patterns(filters);
    lemma_flat(filters);
    if all.len() == 0 {
        assert(run_fields(fields_start(filters, limit), candidates, 0) == Some(
            FieldStepView::Done(seq![]),
        ));
    }
    if all.len() > 0 && all_compile(filters) {
        assert(patterns_compile(queried_fields(filters)));
        law_fields_agree(filters, limit, candidates);
        lemma_matching_ids(filters, limit, candidates);
    }
    if !all_compile(filters) {
        assert(!compile(all)) by {
            let a = patterns_of(filters.from);
            let b = patterns_of(filters.subject);
            let c = patterns_of(filters.body);
            let d = patterns_of(filters.symbols);
            let e = patterns_of(filters.recipients);
            if compile(all) {
                assert forall|p: int| 0 <= p < a.len() implies regex_fault(
                    #[trigger] a[p],
                    true,
                    usize::BITS,
                ) is None by {
                    assert(a[p] == all[p]);
                }
                assert forall|p: int| 0 <= p < b.len() implies regex_fault(
                    #[trigger] b[p],
                    true,
                    usize::BITS,
                ) is None by {
                    assert(b[p] == all[a.len() + p]);
                }
                assert forall|p: int| 0 <= p < c.len() implies regex_fault(
                    #[trigger] c[p],
                    true,
                    usize::BITS,
                ) is None by {
                    assert(c[p] == all[a.len() + b.len() + p]);
                }
                assert forall|p: int| 0 <= p < d.len() implies regex_fault(
                    #[trigger] d[p],
                    true,
                    usize::BITS,
                ) is None by {
                    assert(d[p] == all[a.len() + b.len() + c.len() + p]);
                }
                assert forall|p: int| 0 <= p < e.len() implies regex_fault(
                    #[trigger] e[p],
                    true,
                    usize::BITS,
                ) is None by {
                    assert(e[p] == all[a.len() + b.len() + c.len() + d.len() + p]);
                }
            }
        }
        let at = lemma_first_fault(all);
        let state = fields_state(filters, limit);
        lemma_stands(state);
        assert(state.fields.take(0) =~= seq![]);
        let none: Seq<FieldPatternsView> = seq![];
        assert(none.map_values(|field: FieldPatternsView| field.patterns) =~= seq![]);
        assert(flat(none).len() == 0);
        assert forall|p: int| 0 <= p < at implies regex_fault(
            #[trigger] flat(state.fields)[p],
            true,
            usize::BITS,
        ) is None by {
            assert(all.take(at)[p] == all[p]);
        }
        let steps = lemma_fails(state, candidates, 0, at);
        assert(fields_start(filters, limit) == ask_field(state));
        assert(fails_at(filters, limit, candidates, at));
    }
}

} // verus!
