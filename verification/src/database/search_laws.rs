//! What a search finds, whatever the database answers.

use vstd::prelude::*;

use crate::database::search::{
    after_content, after_hashes, after_rows, chunk_filter, chunk_filters, chunk_limit,
    exact_filter, first_limit, first_rows, kept_rows, kind_filter, like_filter, next_chunk,
    next_row, regex_filter, row_paths, search_start, with_content, ContentState, QueryView,
    StepView, HASH_CHUNK,
};
use crate::database::symbols::{
    FunctionRow, Mode, PlanView, Symbol, Table, TypeRow, TypedefRow,
};
use crate::lists::{lemma_pieces_within, pieces};
use crate::pattern::refusal;
use crate::types::{FunctionInfoView, TypeInfoView, TypedefInfoView};

verus! {

/// What is answered to everything that a search can ask.
pub struct Answers<S> {
    /// The rows of a table.
    pub rows: spec_fn(QueryView) -> Seq<S>,
    /// The hashes that files have at the commit.
    pub hashes: spec_fn(Seq<Seq<char>>) -> Option<Seq<Seq<char>>>,
    /// What is kept under a hash.
    pub content: spec_fn(Seq<char>) -> Option<Seq<char>>,
}

/// What a search comes to: what it found, or why a row cannot be read.
pub type Outcome<V> = Result<Seq<V>, Seq<char>>;

/// What a search comes to within `steps` answers.
pub open spec fn run<S: Symbol>(
    step: StepView<S, <S::Info as View>::V>,
    answers: Answers<S>,
    steps: nat,
) -> Option<Outcome<<S::Info as View>::V>>
    decreases steps,
{
    match step {
        StepView::Done(found) => Some(Ok(found)),
        StepView::Failed(fault) => Some(Err(fault)),
        _ => if steps == 0 {
            None
        } else {
            run(answered(step, answers), answers, (steps - 1) as nat)
        },
    }
}

/// The step after a step was answered.
pub open spec fn answered<S: Symbol>(
    step: StepView<S, <S::Info as View>::V>,
    answers: Answers<S>,
) -> StepView<S, <S::Info as View>::V> {
    match step {
        StepView::Done(found) => step,
        StepView::Failed(fault) => step,
        StepView::Rows(query, plan, wanted) => after_rows(plan, wanted, (answers.rows)(query)),
        StepView::Hashes(paths, plan, exact) => after_hashes::<S>(
            plan,
            exact,
            (answers.hashes)(paths),
        ),
        StepView::Content(hash, state) => after_content::<S>(state, (answers.content)(hash)),
    }
}

/// Whether a search ends, with this outcome.
pub open spec fn ends<S: Symbol>(
    step: StepView<S, <S::Info as View>::V>,
    answers: Answers<S>,
    outcome: Outcome<<S::Info as View>::V>,
) -> bool {
    exists|steps: nat| #[trigger] run(step, answers, steps) == Some(outcome)
}

/// The text that is kept for a row; empty where there is none or it is missing.
pub open spec fn kept_text<S: Symbol>(row: S, answers: Answers<S>) -> Seq<char> {
    match row.content_spec() {
        Some(hash) => match (answers.content)(hash) {
            Some(text) => text,
            None => seq![],
        },
        None => seq![],
    }
}

/// An outcome after what was found before.
pub open spec fn behind<V>(found: Seq<V>, outcome: Outcome<V>) -> Outcome<V> {
    match outcome {
        Ok(rest) => Ok(found + rest),
        Err(fault) => Err(fault),
    }
}

/// The records of the rows from `from` on, or why the first of them that cannot be read
/// cannot.
pub open spec fn records<S: Symbol>(
    rows: Seq<S>,
    from: nat,
    plan: PlanView,
    answers: Answers<S>,
) -> Outcome<<S::Info as View>::V>
    decreases rows.len() - from,
{
    if from >= rows.len() {
        Ok(seq![])
    } else {
        let row = rows[from as int];
        match row.fault_spec() {
            Some(fault) => Err(fault),
            None => behind(
                seq![row.info_spec(plan, kept_text(row, answers))],
                records(rows, from + 1, plan, answers),
            ),
        }
    }
}

/// The records of what the conditions from `from` on find, one after the other.
pub open spec fn chunk_records<S: Symbol>(
    filters: Seq<Seq<char>>,
    from: nat,
    plan: PlanView,
    answers: Answers<S>,
) -> Outcome<<S::Info as View>::V>
    decreases filters.len() - from,
{
    if from >= filters.len() {
        Ok(seq![])
    } else {
        let query = QueryView {
            table: S::table_spec(),
            filter: filters[from as int],
            limit: chunk_limit(plan),
        };
        match records(kept_rows((answers.rows)(query), plan), 0, plan, answers) {
            Ok(own) => behind(own, chunk_records(filters, from + 1, plan, answers)),
            Err(fault) => Err(fault),
        }
    }
}

/// What is answered to a condition in the first place.
pub open spec fn first_asked<S: Symbol>(
    plan: PlanView,
    answers: Answers<S>,
    filter: Seq<char>,
) -> Seq<S> {
    (answers.rows)(QueryView { table: S::table_spec(), filter, limit: first_limit(plan) })
}

/// Whether a search by name finds symbols of exactly the name.
pub open spec fn exact_answers<S: Symbol>(plan: PlanView, answers: Answers<S>) -> bool {
    plan.mode == Mode::Fuzzy && first_asked(
        plan,
        answers,
        exact_filter(plan.pattern, S::typedefs_spec()),
    ).len() > 0
}

/// The answer to the first condition of a search; a name in full goes before a part
/// of the name.
pub open spec fn first_answer<S: Symbol>(plan: PlanView, answers: Answers<S>) -> Seq<S> {
    match plan.mode {
        Mode::Fuzzy => if exact_answers::<S>(plan, answers) {
            first_asked(plan, answers, exact_filter(plan.pattern, S::typedefs_spec()))
        } else {
            first_asked(plan, answers, like_filter(plan.pattern, S::typedefs_spec()))
        },
        Mode::Regex => first_asked(plan, answers, regex_filter(plan.pattern)),
        Mode::Kind => first_asked(plan, answers, kind_filter(plan.pattern)),
    }
}

/// What a search comes to. One that is not about a commit finds the rows of the first
/// answer. One at a commit finds the rows of those files of the first answer that
/// have a hash there; those of exactly the name only, where the first answer was of
/// exactly the name.
pub open spec fn search_result<S: Symbol>(plan: PlanView, answers: Answers<S>) -> Outcome<
    <S::Info as View>::V,
> {
    let first = first_answer::<S>(plan, answers);
    if !plan.git_aware {
        records(kept_rows(first, plan), 0, plan, answers)
    } else if first.len() == 0 {
        Ok(seq![])
    } else {
        match (answers.hashes)(row_paths(first)) {
            Some(hashes) => if S::table_spec() == Table::Functions && plan.mode == Mode::Regex
                && refusal(plan.pattern) is Some {
                Ok(seq![])
            } else {
                chunk_records(
                    chunk_filters(
                        plan,
                        S::typedefs_spec(),
                        exact_answers::<S>(plan, answers),
                        hashes,
                    ),
                    0,
                    plan,
                    answers,
                )
            },
            None => Ok(seq![]),
        }
    }
}

/// A step that is answered ends as what follows ends.
proof fn lemma_answered<S: Symbol>(
    step: StepView<S, <S::Info as View>::V>,
    answers: Answers<S>,
    outcome: Outcome<<S::Info as View>::V>,
)
    requires
        !(step is Done),
        !(step is Failed),
        ends(answered(step, answers), answers, outcome),
    ensures
        ends(step, answers, outcome),
{
    let steps = choose|steps: nat| #[trigger]
        run(answered(step, answers), answers, steps) == Some(outcome);
    assert(run(step, answers, (steps + 1) as nat) == Some(outcome));
}

proof fn lemma_rows_end<S: Symbol>(
    state: ContentState<S, <S::Info as View>::V>,
    answers: Answers<S>,
    outcome: Outcome<<S::Info as View>::V>,
)
    requires
        match records(state.rows, state.at, state.plan, answers) {
            Ok(own) => ends(
                next_chunk::<S>(state.plan, state.filters, state.next, state.found + own),
                answers,
                outcome,
            ),
            Err(fault) => outcome == Outcome::<<S::Info as View>::V>::Err(fault),
        },
    ensures
        ends(next_row::<S>(state), answers, outcome),
    decreases state.rows.len() - state.at,
{
    if state.at >= state.rows.len() {
        assert(state.found + seq![] =~= state.found);
    } else {
        let row = state.rows[state.at as int];
        match row.fault_spec() {
            Some(fault) => {
                assert(run(next_row::<S>(state), answers, 0) == Some(outcome));
            },
            None => {
                let text = kept_text(row, answers);
                let after = with_content::<S>(state, text);
                match records(after.rows, after.at, after.plan, answers) {
                    Ok(rest) => {
                        let own = seq![row.info_spec(state.plan, text)] + rest;
                        assert(records(state.rows, state.at, state.plan, answers) == Outcome::<
                            <S::Info as View>::V,
                        >::Ok(own));
                        assert(after.found + rest =~= state.found + own);
                    },
                    Err(fault) => {},
                }
                lemma_rows_end(after, answers, outcome);
                match row.content_spec() {
                    Some(hash) => {
                        let step = StepView::<S, <S::Info as View>::V>::Content(hash, state);
                        assert(answered(step, answers) == next_row::<S>(after));
                        lemma_answered(step, answers, outcome);
                    },
                    None => {},
                }
            },
        }
    }
}

proof fn lemma_chunks_end<S: Symbol>(
    plan: PlanView,
    filters: Seq<Seq<char>>,
    next: nat,
    found: Seq<<S::Info as View>::V>,
    answers: Answers<S>,
)
    ensures
        ends(
            next_chunk::<S>(plan, filters, next, found),
            answers,
            behind(found, chunk_records::<S>(filters, next, plan, answers)),
        ),
    decreases filters.len() - next,
{
    let step = next_chunk::<S>(plan, filters, next, found);
    let outcome = behind(found, chunk_records::<S>(filters, next, plan, answers));
    if next >= filters.len() {
        assert(found + seq![] =~= found);
        assert(run(step, answers, 0) == Some(outcome));
    } else {
        let query = QueryView {
            table: S::table_spec(),
            filter: filters[next as int],
            limit: chunk_limit(plan),
        };
        let rows = kept_rows((answers.rows)(query), plan);
        let state = ContentState::<S, <S::Info as View>::V> {
            plan,
            rows,
            at: 0,
            filters,
            next: next + 1,
            found,
        };
        match records(rows, 0, plan, answers) {
            Ok(own) => {
                lemma_chunks_end::<S>(plan, filters, next + 1, found + own, answers);
                match chunk_records::<S>(filters, next + 1, plan, answers) {
                    Ok(rest) => {
                        assert(found + own + rest =~= found + (own + rest));
                    },
                    Err(fault) => {},
                }
            },
            Err(fault) => {},
        }
        lemma_rows_end(state, answers, outcome);
        lemma_answered(step, answers, outcome);
    }
}

/// Whatever is answered, a search ends, with [`search_result`].
pub proof fn law_search_finds<S: Symbol>(plan: PlanView, answers: Answers<S>)
    ensures
        ends(search_start::<S>(plan), answers, search_result::<S>(plan, answers)),
{
    let outcome = search_result::<S>(plan, answers);
    let first = first_answer::<S>(plan, answers);
    let exact = exact_answers::<S>(plan, answers);
    let step = first_rows::<S>(plan, exact, first);
    lemma_first_rows_end::<S>(plan, answers);
    let start = search_start::<S>(plan);
    if plan.mode == Mode::Fuzzy && !exact {
        assert(answered(answered(start, answers), answers) == step);
        lemma_answered(answered(start, answers), answers, outcome);
    } else {
        assert(answered(start, answers) == step);
    }
    lemma_answered(start, answers, outcome);
}

proof fn lemma_first_rows_end<S: Symbol>(plan: PlanView, answers: Answers<S>)
    ensures
        ends(
            first_rows::<S>(
                plan,
                exact_answers::<S>(plan, answers),
                first_answer::<S>(plan, answers),
            ),
            answers,
            search_result::<S>(plan, answers),
        ),
{
    let outcome = search_result::<S>(plan, answers);
    let first = first_answer::<S>(plan, answers);
    let exact = exact_answers::<S>(plan, answers);
    let step = first_rows::<S>(plan, exact, first);
    if !plan.git_aware {
        let state = ContentState::<S, <S::Info as View>::V> {
            plan,
            rows: kept_rows(first, plan),
            at: 0,
            filters: seq![],
            next: 0,
            found: seq![],
        };
        match records(state.rows, 0, plan, answers) {
            Ok(own) => {
                assert(state.found + own =~= own);
                lemma_chunks_end::<S>(plan, seq![], 0, own, answers);
                assert(own + seq![] =~= own);
            },
            Err(fault) => {},
        }
        lemma_rows_end(state, answers, outcome);
    } else if first.len() == 0 {
        assert(run(step, answers, 0) == Some(outcome));
    } else {
        let hashes = (answers.hashes)(row_paths(first));
        let after = after_hashes::<S>(plan, exact, hashes);
        match hashes {
            Some(list) => {
                let filters = chunk_filters(plan, S::typedefs_spec(), exact, list);
                if list.len() == 0 {
                    assert(filters =~= seq![]);
                    assert(run(after, answers, 0) == Some(outcome));
                } else if S::table_spec() == Table::Functions && plan.mode == Mode::Regex
                    && refusal(plan.pattern) is Some {
                    assert(run(after, answers, 0) == Some(outcome));
                } else {
                    lemma_chunks_end::<S>(plan, filters, 0, seq![], answers);
                    match chunk_records::<S>(filters, 0, plan, answers) {
                        Ok(rest) => {
                            assert(seq![] + rest =~= rest);
                        },
                        Err(fault) => {},
                    }
                }
            },
            None => {
                assert(run(after, answers, 0) == Some(outcome));
            },
        }
        lemma_answered(step, answers, outcome);
    }
}

/// Whether the rows of exactly the name, in files with given hashes, are such: each is
/// one of which `fits` holds, with the hashes that were asked for.
pub open spec fn rows_fit<S: Symbol>(
    plan: PlanView,
    answers: Answers<S>,
    fits: spec_fn(S, Seq<Seq<char>>) -> bool,
) -> bool {
    forall|hashes: Seq<Seq<char>>, k: int|
        0 <= k < exact_rows(plan, answers, hashes).len() ==> fits(
            #[trigger] exact_rows(plan, answers, hashes)[k],
            hashes,
        )
}

/// What is answered to the condition for rows of exactly the name in files with one of
/// `hashes`.
pub open spec fn exact_rows<S: Symbol>(
    plan: PlanView,
    answers: Answers<S>,
    hashes: Seq<Seq<char>>,
) -> Seq<S> {
    (answers.rows)(
        QueryView {
            table: S::table_spec(),
            filter: chunk_filter(plan, S::typedefs_spec(), true, hashes),
            limit: chunk_limit(plan),
        },
    )
}

/// Records of rows come from these rows.
proof fn lemma_records_from<S: Symbol>(
    rows: Seq<S>,
    from: nat,
    plan: PlanView,
    answers: Answers<S>,
    k: int,
)
    requires
        records(rows, from, plan, answers) is Ok,
        0 <= k < records(rows, from, plan, answers)->Ok_0.len(),
    ensures
        exists|i: int, text: Seq<char>|
            0 <= i < rows.len() && records(rows, from, plan, answers)->Ok_0[k]
                == #[trigger] rows[i].info_spec(plan, text),
    decreases rows.len() - from,
{
    if from < rows.len() {
        let row = rows[from as int];
        let text = kept_text(row, answers);
        let all = records(rows, from, plan, answers)->Ok_0;
        let rest = records(rows, from + 1, plan, answers)->Ok_0;
        assert(all =~= seq![row.info_spec(plan, text)] + rest);
        if k == 0 {
            assert(all[0] == rows[from as int].info_spec(plan, text));
        } else {
            lemma_records_from(rows, from + 1, plan, answers, k - 1);
            assert(all[k] == rest[k - 1]);
        }
    }
}

/// Whether all of `some` are among `all`.
spec fn within(some: Seq<Seq<char>>, all: Seq<Seq<char>>) -> bool {
    forall|hash: Seq<char>| #[trigger] some.contains(hash) ==> all.contains(hash)
}

/// Records that pieces of files lead to are of rows that fit.
proof fn lemma_chunks_fit<S: Symbol>(
    plan: PlanView,
    answers: Answers<S>,
    hashes: Seq<Seq<char>>,
    from: nat,
    fits: spec_fn(S, Seq<Seq<char>>) -> bool,
    good: spec_fn(<S::Info as View>::V) -> bool,
    k: int,
)
    requires
        rows_fit(plan, answers, fits),
        forall|row: S, some: Seq<Seq<char>>, text: Seq<char>| #[trigger]
            fits(row, some) && within(some, hashes) ==> good(#[trigger] row.info_spec(plan, text)),
        chunk_records::<S>(
            chunk_filters(plan, S::typedefs_spec(), true, hashes),
            from,
            plan,
            answers,
        ) is Ok,
        0 <= k < chunk_records::<S>(
            chunk_filters(plan, S::typedefs_spec(), true, hashes),
            from,
            plan,
            answers,
        )->Ok_0.len(),
    ensures
        good(
            chunk_records::<S>(
                chunk_filters(plan, S::typedefs_spec(), true, hashes),
                from,
                plan,
                answers,
            )->Ok_0[k],
        ),
    decreases chunk_filters(plan, S::typedefs_spec(), true, hashes).len() - from,
{
    let filters = chunk_filters(plan, S::typedefs_spec(), true, hashes);
    if from < filters.len() {
        let parts = pieces(hashes, HASH_CHUNK as nat);
        let part = parts[from as int];
        let rows = exact_rows(plan, answers, part);
        assert(filters[from as int] == chunk_filter(plan, S::typedefs_spec(), true, part));
        let kept = kept_rows(rows, plan);
        let own = records(kept, 0, plan, answers)->Ok_0;
        let all = chunk_records::<S>(filters, from, plan, answers)->Ok_0;
        let rest = chunk_records::<S>(filters, from + 1, plan, answers)->Ok_0;
        assert(all =~= own + rest);
        if k < own.len() {
            lemma_records_from(kept, 0, plan, answers, k);
            let (i, text) = choose|i: int, text: Seq<char>|
                0 <= i < kept.len() && own[k] == #[trigger] kept[i].info_spec(plan, text);
            law_kept_rows(rows, plan, kept[i]);
            assert(kept.contains(kept[i]));
            let j = choose|j: int| 0 <= j < rows.len() && rows[j] == kept[i];
            assert(exact_rows(plan, answers, part)[j] == kept[i]);
            assert(fits(kept[i], part));
            lemma_pieces_within(hashes, HASH_CHUNK as nat, from as int);
            assert(all[k] == kept[i].info_spec(plan, text));
        } else {
            lemma_chunks_fit::<S>(plan, answers, hashes, from + 1, fits, good, k - own.len());
            assert(all[k] == rest[k - own.len()]);
        }
    }
}

/// The hashes of the files at the commit that a search by exactly the name leads to.
pub open spec fn exact_hashes<S: Symbol>(plan: PlanView, answers: Answers<S>) -> Seq<Seq<char>> {
    match (answers.hashes)(row_paths(first_answer::<S>(plan, answers))) {
        Some(hashes) => hashes,
        None => seq![],
    }
}

/// Functions of exactly the name go before those with it as a part: where a search by name at
/// a commit finds some, all that it hands out have exactly the name, and a file hash that
/// the files found have at the commit. The database is taken to answer a condition with
/// rows that meet it.
pub proof fn law_exact_functions(plan: PlanView, answers: Answers<FunctionRow>)
    requires
        plan.mode == Mode::Fuzzy,
        plan.git_aware,
        exact_answers::<FunctionRow>(plan, answers),
        rows_fit(
            plan,
            answers,
            |row: FunctionRow, hashes: Seq<Seq<char>>|
                row.name@ == plan.pattern && hashes.contains(row.git_file_hash@),
        ),
    ensures
        search_result::<FunctionRow>(plan, answers) matches Ok(found) ==> forall|k: int|
            0 <= k < found.len() ==> (#[trigger] found[k]).name == plan.pattern && exact_hashes::<
                FunctionRow,
            >(plan, answers).contains(found[k].git_file_hash),
{
    let fits = |row: FunctionRow, hashes: Seq<Seq<char>>|
        row.name@ == plan.pattern && hashes.contains(row.git_file_hash@);
    let hashes = exact_hashes::<FunctionRow>(plan, answers);
    let good = |info: FunctionInfoView|
        info.name == plan.pattern && hashes.contains(info.git_file_hash);
    if let Ok(found) = search_result::<FunctionRow>(plan, answers) {
        assert forall|k: int| 0 <= k < found.len() implies good(#[trigger] found[k]) by {
            lemma_chunks_fit::<FunctionRow>(plan, answers, hashes, 0, fits, good, k);
        }
        assert forall|k: int| 0 <= k < found.len() implies (#[trigger] found[k]).name
            == plan.pattern && hashes.contains(found[k].git_file_hash) by {
            assert(good(found[k]));
        }
    }
}

/// Types of exactly the name go before those with it as a part: where a search by name at
/// a commit finds some, all that it hands out have exactly the name, and a file hash that
/// the files found have at the commit. The database is taken to answer a condition with
/// rows that meet it.
pub proof fn law_exact_types(plan: PlanView, answers: Answers<TypeRow>)
    requires
        plan.mode == Mode::Fuzzy,
        plan.git_aware,
        exact_answers::<TypeRow>(plan, answers),
        rows_fit(
            plan,
            answers,
            |row: TypeRow, hashes: Seq<Seq<char>>|
                row.name@ == plan.pattern && hashes.contains(row.git_file_hash@),
        ),
    ensures
        search_result::<TypeRow>(plan, answers) matches Ok(found) ==> forall|k: int|
            0 <= k < found.len() ==> (#[trigger] found[k]).name == plan.pattern && exact_hashes::<
                TypeRow,
            >(plan, answers).contains(found[k].git_file_hash),
{
    let fits = |row: TypeRow, hashes: Seq<Seq<char>>|
        row.name@ == plan.pattern && hashes.contains(row.git_file_hash@);
    let hashes = exact_hashes::<TypeRow>(plan, answers);
    let good = |info: TypeInfoView|
        info.name == plan.pattern && hashes.contains(info.git_file_hash);
    if let Ok(found) = search_result::<TypeRow>(plan, answers) {
        assert forall|k: int| 0 <= k < found.len() implies good(#[trigger] found[k]) by {
            lemma_chunks_fit::<TypeRow>(plan, answers, hashes, 0, fits, good, k);
        }
        assert forall|k: int| 0 <= k < found.len() implies (#[trigger] found[k]).name
            == plan.pattern && hashes.contains(found[k].git_file_hash) by {
            assert(good(found[k]));
        }
    }
}

/// Type definitions of exactly the name go before those with it as a part: where a search by name at
/// a commit finds some, all that it hands out have exactly the name, and a file hash that
/// the files found have at the commit. The database is taken to answer a condition with
/// rows that meet it.
pub proof fn law_exact_typedefs(plan: PlanView, answers: Answers<TypedefRow>)
    requires
        plan.mode == Mode::Fuzzy,
        plan.git_aware,
        exact_answers::<TypedefRow>(plan, answers),
        rows_fit(
            plan,
            answers,
            |row: TypedefRow, hashes: Seq<Seq<char>>|
                row.row.name@ == plan.pattern && hashes.contains(row.row.git_file_hash@),
        ),
    ensures
        search_result::<TypedefRow>(plan, answers) matches Ok(found) ==> forall|k: int|
            0 <= k < found.len() ==> (#[trigger] found[k]).name == plan.pattern && exact_hashes::<
                TypedefRow,
            >(plan, answers).contains(found[k].git_file_hash),
{
    let fits = |row: TypedefRow, hashes: Seq<Seq<char>>|
        row.row.name@ == plan.pattern && hashes.contains(row.row.git_file_hash@);
    let hashes = exact_hashes::<TypedefRow>(plan, answers);
    let good = |info: TypedefInfoView|
        info.name == plan.pattern && hashes.contains(info.git_file_hash);
    if let Ok(found) = search_result::<TypedefRow>(plan, answers) {
        assert forall|k: int| 0 <= k < found.len() implies good(#[trigger] found[k]) by {
            lemma_chunks_fit::<TypedefRow>(plan, answers, hashes, 0, fits, good, k);
        }
        assert forall|k: int| 0 <= k < found.len() implies (#[trigger] found[k]).name
            == plan.pattern && hashes.contains(found[k].git_file_hash) by {
            assert(good(found[k]));
        }
    }
}

/// Of the rows that were answered, a search keeps those that it is about.
pub proof fn law_kept_rows<S: Symbol>(rows: Seq<S>, plan: PlanView, row: S)
    ensures
        kept_rows(rows, plan).contains(row) <==> rows.contains(row) && row.kept_spec(plan),
    decreases rows.len(),
{
    if rows.len() > 0 {
        let rest = rows.drop_last();
        let last = rows.last();
        law_kept_rows(rest, plan, row);
        let kept = kept_rows(rest, plan);
        let all = kept_rows(rows, plan);
        if kept.contains(row) {
            let p = choose|p: int| 0 <= p < kept.len() && kept[p] == row;
            assert(all[p] == row);
            let q = choose|q: int| 0 <= q < rest.len() && rest[q] == row;
            assert(rows[q] == row);
        }
        if rows.contains(row) && row.kept_spec(plan) {
            let q = choose|q: int| 0 <= q < rows.len() && rows[q] == row;
            if q < rest.len() {
                assert(rest[q] == row);
            } else {
                assert(all[all.len() - 1] == row);
            }
        }
        if all.contains(row) {
            let p = choose|p: int| 0 <= p < all.len() && all[p] == row;
            if p < kept.len() {
                assert(kept[p] == row);
            } else {
                assert(row == last);
                assert(rows[rows.len() - 1] == row);
            }
        }
    }
}

} // verus!
