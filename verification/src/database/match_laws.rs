//! What searches for functions and commits by similarity come to, whatever the database
//! answers.

use vstd::prelude::*;

use crate::database::conditions::any_of_pieces;
use crate::database::similar::{
    after_bodies, after_commit_ids, after_commit_rows, after_functions, body_hashes, commit_of,
    match_of, matches_of, next_commits, next_functions, readable, with_commits, CommitRow,
    CommitState, CommitStepView, FunctionMeta, FunctionState, FunctionStepView, SIMILAR_CHUNK,
};
use crate::lists::distinct;
use crate::scores::{by_score, law_by_score, names_of, score_map, score_of};
use crate::types::{FunctionInfoView, GitCommitInfoView};

verus! {

/// What is answered to everything that a search for functions asks.
pub struct FunctionAnswers {
    /// The rows that a condition finds.
    pub rows: spec_fn(Seq<char>) -> Seq<FunctionMeta>,
    /// What is kept under hashes.
    pub contents: spec_fn(Seq<Seq<char>>) -> Seq<(Seq<char>, Seq<char>)>,
}

/// The step after a step was answered.
pub open spec fn functions_answered(
    step: FunctionStepView,
    answers: FunctionAnswers,
) -> FunctionStepView {
    match step {
        FunctionStepView::Functions(filter, state) => after_functions(
            state,
            (answers.rows)(filter),
        ),
        FunctionStepView::Contents(hashes, scores, metas) => FunctionStepView::Done(
            matches_of(metas, scores, (answers.contents)(hashes)),
        ),
        _ => step,
    }
}

/// The step that a search has reached after some answers.
pub open spec fn functions_run(
    step: FunctionStepView,
    answers: FunctionAnswers,
    steps: nat,
) -> FunctionStepView
    decreases steps,
{
    if steps == 0 {
        step
    } else {
        functions_run(functions_answered(step, answers), answers, (steps - 1) as nat)
    }
}

/// Whether a search ends with these matches.
pub open spec fn functions_end(
    step: FunctionStepView,
    answers: FunctionAnswers,
    found: Seq<(FunctionInfoView, u32)>,
) -> bool {
    exists|steps: nat| #[trigger]
        functions_run(step, answers, steps) == FunctionStepView::Done(found)
}

/// The rows that the conditions from `from` on find and that can be read, one condition
/// after the other.
pub open spec fn functions_found(
    filters: Seq<Seq<char>>,
    from: nat,
    answers: FunctionAnswers,
) -> Seq<FunctionMeta>
    decreases filters.len() - from,
{
    if from >= filters.len() {
        seq![]
    } else {
        readable((answers.rows)(filters[from as int])) + functions_found(filters, from + 1, answers)
    }
}

/// The conditions that find the functions of neighbours.
pub open spec fn function_filters(neighbours: Seq<(Seq<char>, u32)>) -> Seq<Seq<char>> {
    any_of_pieces("body_hash"@, names_of(neighbours), false, SIMILAR_CHUNK as nat)
}

proof fn lemma_functions_answered(
    step: FunctionStepView,
    answers: FunctionAnswers,
    found: Seq<(FunctionInfoView, u32)>,
)
    requires
        functions_end(functions_answered(step, answers), answers, found),
    ensures
        functions_end(step, answers, found),
{
    let steps = choose|steps: nat| #[trigger]
        functions_run(functions_answered(step, answers), answers, steps) == FunctionStepView::Done(
            found,
        );
    assert(functions_run(step, answers, (steps + 1) as nat) == FunctionStepView::Done(found));
}

/// Rows without bodies have the same matches whatever is kept.
proof fn lemma_no_bodies(metas: Seq<FunctionMeta>)
    requires
        body_hashes(metas).len() == 0,
    ensures
        forall|k: int| 0 <= k < metas.len() ==> (#[trigger] metas[k]).body_hash is None,
    decreases metas.len(),
{
    if metas.len() > 0 {
        let fewer = metas.drop_last();
        lemma_no_bodies(fewer);
        assert forall|k: int| 0 <= k < metas.len() implies (#[trigger] metas[k]).body_hash
            is None by {
            if k < fewer.len() {
                assert(fewer[k] == metas[k]);
            }
        }
    }
}

proof fn lemma_functions_from(state: FunctionState, answers: FunctionAnswers)
    ensures
        ({
            let all = state.metas + functions_found(state.filters, state.next, answers);
            functions_end(
                next_functions(state),
                answers,
                matches_of(all, state.scores, (answers.contents)(distinct(body_hashes(all)))),
            )
        }),
    decreases state.filters.len() - state.next,
{
    let all = state.metas + functions_found(state.filters, state.next, answers);
    let contents = (answers.contents)(distinct(body_hashes(all)));
    let found = matches_of(all, state.scores, contents);
    let step = next_functions(state);
    if state.next < state.filters.len() {
        let rows = readable((answers.rows)(state.filters[state.next as int]));
        let after = FunctionState {
            next: state.next + 1,
            metas: state.metas + rows,
            ..state
        };
        assert(after.metas + functions_found(after.filters, after.next, answers) =~= all);
        lemma_functions_from(after, answers);
        lemma_functions_answered(step, answers, found);
    } else {
        assert(all =~= state.metas);
        if body_hashes(all).len() > 0 {
            assert(functions_run(functions_answered(step, answers), answers, 0)
                == FunctionStepView::Done(found));
            lemma_functions_answered(step, answers, found);
        } else {
            lemma_no_bodies(all);
            let none: Seq<(Seq<char>, Seq<char>)> = seq![];
            assert(all.map_values(|meta: FunctionMeta| match_of(meta, state.scores, none))
                =~= all.map_values(
                |meta: FunctionMeta| match_of(meta, state.scores, contents),
            ));
            assert(functions_run(step, answers, 0) == FunctionStepView::Done(found));
        }
    }
}

/// Whatever is answered, a search for functions ends, with the matches of all rows that
/// its conditions find and that can be read: each with the score that its body has among
/// the neighbours and with what is kept for its body, the most similar first.
pub proof fn law_similar_functions(
    neighbours: Seq<(Seq<char>, u32)>,
    answers: FunctionAnswers,
)
    ensures
        ({
            let rows = functions_found(function_filters(neighbours), 0, answers);
            functions_end(
                after_bodies(neighbours),
                answers,
                matches_of(
                    rows,
                    score_map(neighbours),
                    (answers.contents)(distinct(body_hashes(rows))),
                ),
            )
        }),
{
    let filters = function_filters(neighbours);
    let rows = functions_found(filters, 0, answers);
    let contents = (answers.contents)(distinct(body_hashes(rows)));
    if neighbours.len() == 0 {
        assert(filters =~= seq![]);
        assert(rows =~= seq![]);
        let list = rows.map_values(
            |meta: FunctionMeta| match_of(meta, score_map(neighbours), contents),
        );
        law_by_score(list);
        assert(matches_of(rows, score_map(neighbours), contents) =~= seq![]);
        assert(functions_run(after_bodies(neighbours), answers, 0) == FunctionStepView::Done(
            matches_of(rows, score_map(neighbours), contents),
        ));
    } else {
        let state = FunctionState {
            scores: score_map(neighbours),
            filters,
            next: 0,
            metas: seq![],
        };
        assert(state.metas + rows =~= rows);
        lemma_functions_from(state, answers);
    }
}

/// The step after a step was answered.
pub open spec fn commits_answered(
    step: CommitStepView,
    answers: spec_fn(Seq<char>) -> Seq<CommitRow>,
) -> CommitStepView {
    match step {
        CommitStepView::Commits(filter, state) => after_commit_rows(state, answers(filter)),
        _ => step,
    }
}

/// The step that a search has reached after some answers.
pub open spec fn commits_run(
    step: CommitStepView,
    answers: spec_fn(Seq<char>) -> Seq<CommitRow>,
    steps: nat,
) -> CommitStepView
    decreases steps,
{
    if steps == 0 {
        step
    } else {
        commits_run(commits_answered(step, answers), answers, (steps - 1) as nat)
    }
}

/// Whether a search comes to this step.
pub open spec fn commits_reach(
    step: CommitStepView,
    answers: spec_fn(Seq<char>) -> Seq<CommitRow>,
    end: CommitStepView,
) -> bool {
    exists|steps: nat| #[trigger] commits_run(step, answers, steps) == end
}

/// The rows that the conditions from `from` on find, one condition after the other.
pub open spec fn commits_found(
    filters: Seq<Seq<char>>,
    from: nat,
    answers: spec_fn(Seq<char>) -> Seq<CommitRow>,
) -> Seq<CommitRow>
    decreases filters.len() - from,
{
    if from >= filters.len() {
        seq![]
    } else {
        answers(filters[from as int]) + commits_found(filters, from + 1, answers)
    }
}

/// The conditions that find the commits of neighbours.
pub open spec fn commit_filters(neighbours: Seq<(Seq<char>, u32)>) -> Seq<Seq<char>> {
    any_of_pieces("git_sha"@, names_of(neighbours), true, SIMILAR_CHUNK as nat)
}

/// Whether the row at `k` is the first that is not what it should be.
pub open spec fn first_fault(rows: Seq<CommitRow>, k: int) -> bool {
    &&& 0 <= k < rows.len()
    &&& commit_of(rows[k]) is Err
    &&& forall|j: int| 0 <= j < k ==> commit_of(#[trigger] rows[j]) is Ok
}

/// The commits of rows that are what they should be, with their scores.
pub open spec fn commits_scored(
    rows: Seq<CommitRow>,
    scores: Map<Seq<char>, u32>,
) -> Seq<(GitCommitInfoView, u32)> {
    rows.map_values(
        |row: CommitRow| (commit_of(row)->Ok_0, score_of(scores, row.git_sha@)),
    )
}

/// Rows that come in two parts are taken as if they came at once.
proof fn lemma_commits_two(
    found: Seq<(GitCommitInfoView, u32)>,
    scores: Map<Seq<char>, u32>,
    x: Seq<CommitRow>,
    y: Seq<CommitRow>,
)
    ensures
        with_commits(found, scores, x + y) == (match with_commits(found, scores, x) {
            Ok(before) => with_commits(before, scores, y),
            Err(message) => Err(message),
        }),
    decreases y.len(),
{
    if y.len() == 0 {
        assert(x + y =~= x);
    } else {
        assert((x + y).drop_last() =~= x + y.drop_last());
        assert((x + y).last() == y.last());
        lemma_commits_two(found, scores, x, y.drop_last());
    }
}

/// Rows have a fault if and only if one of them is the first that has.
proof fn lemma_with_commits(scores: Map<Seq<char>, u32>, rows: Seq<CommitRow>)
    ensures
        match with_commits(seq![], scores, rows) {
            Ok(found) => found == commits_scored(rows, scores) && forall|k: int|
                0 <= k < rows.len() ==> commit_of(#[trigger] rows[k]) is Ok,
            Err(message) => exists|k: int| #[trigger]
                first_fault(rows, k) && commit_of(rows[k]) == Err::<GitCommitInfoView, Seq<char>>(
                    message,
                ),
        },
    decreases rows.len(),
{
    if rows.len() > 0 {
        let fewer = rows.drop_last();
        lemma_with_commits(scores, fewer);
        match with_commits(seq![], scores, fewer) {
            Ok(before) => {
                assert forall|k: int| 0 <= k < fewer.len() implies commit_of(#[trigger] rows[k])
                    is Ok by {
                    assert(fewer[k] == rows[k]);
                }
                match commit_of(rows.last()) {
                    Ok(commit) => {
                        assert(before.push((commit, score_of(scores, rows.last().git_sha@)))
                            =~= commits_scored(rows, scores));
                    },
                    Err(message) => {
                        assert(first_fault(rows, rows.len() - 1));
                    },
                }
            },
            Err(message) => {
                let k = choose|k: int| #[trigger]
                    first_fault(fewer, k) && commit_of(fewer[k]) == Err::<
                        GitCommitInfoView,
                        Seq<char>,
                    >(message);
                assert(fewer[k] == rows[k]);
                assert forall|j: int| 0 <= j < k implies commit_of(#[trigger] rows[j]) is Ok by {
                    assert(fewer[j] == rows[j]);
                }
                assert(first_fault(rows, k));
            },
        }
    } else {
        assert(commits_scored(rows, scores) =~= seq![]);
    }
}

proof fn lemma_commits_answered(
    step: CommitStepView,
    answers: spec_fn(Seq<char>) -> Seq<CommitRow>,
    end: CommitStepView,
)
    requires
        commits_reach(commits_answered(step, answers), answers, end),
    ensures
        commits_reach(step, answers, end),
{
    let steps = choose|steps: nat| #[trigger]
        commits_run(commits_answered(step, answers), answers, steps) == end;
    assert(commits_run(step, answers, (steps + 1) as nat) == end);
}

proof fn lemma_commits_from(
    state: CommitState,
    answers: spec_fn(Seq<char>) -> Seq<CommitRow>,
)
    ensures
        commits_reach(
            next_commits(state),
            answers,
            match with_commits(
                state.found,
                state.scores,
                commits_found(state.filters, state.next, answers),
            ) {
                Ok(found) => CommitStepView::Done(by_score(found)),
                Err(message) => CommitStepView::Failed(message),
            },
        ),
    decreases state.filters.len() - state.next,
{
    let all = commits_found(state.filters, state.next, answers);
    let end = match with_commits(state.found, state.scores, all) {
        Ok(found) => CommitStepView::Done(by_score(found)),
        Err(message) => CommitStepView::Failed(message),
    };
    let step = next_commits(state);
    if state.next < state.filters.len() {
        let rows = answers(state.filters[state.next as int]);
        let rest = commits_found(state.filters, state.next + 1, answers);
        lemma_commits_two(state.found, state.scores, rows, rest);
        match with_commits(state.found, state.scores, rows) {
            Ok(found) => {
                let after = CommitState { next: state.next + 1, found, ..state };
                lemma_commits_from(after, answers);
            },
            Err(message) => {
                assert(commits_run(commits_answered(step, answers), answers, 0) == end);
            },
        }
        lemma_commits_answered(step, answers, end);
    } else {
        assert(commits_run(step, answers, 0) == end);
    }
}

/// Whatever is answered, a search for commits ends. It fails if and only if one of the
/// rows that its conditions find is not what it should be, with what is wrong with the
/// first such row; else it hands out the commits of all rows with the scores that they
/// have among the neighbours, the most similar first.
pub proof fn law_similar_commits(
    neighbours: Seq<(Seq<char>, u32)>,
    answers: spec_fn(Seq<char>) -> Seq<CommitRow>,
)
    ensures
        ({
            let rows = commits_found(commit_filters(neighbours), 0, answers);
            if forall|k: int| 0 <= k < rows.len() ==> commit_of(#[trigger] rows[k]) is Ok {
                commits_reach(
                    after_commit_ids(neighbours),
                    answers,
                    CommitStepView::Done(by_score(commits_scored(rows, score_map(neighbours)))),
                )
            } else {
                exists|k: int| #[trigger]
                    first_fault(rows, k) && commits_reach(
                        after_commit_ids(neighbours),
                        answers,
                        CommitStepView::Failed(commit_of(rows[k])->Err_0),
                    )
            }
        }),
{
    let filters = commit_filters(neighbours);
    let rows = commits_found(filters, 0, answers);
    let scores = score_map(neighbours);
    lemma_with_commits(scores, rows);
    if neighbours.len() == 0 {
        assert(filters =~= seq![]);
        assert(rows =~= seq![]);
        law_by_score(commits_scored(rows, scores));
        assert(by_score(commits_scored(rows, scores)) =~= seq![]);
        assert(commits_run(after_commit_ids(neighbours), answers, 0) == CommitStepView::Done(
            by_score(commits_scored(rows, scores)),
        ));
    } else {
        let state = CommitState { scores, filters, next: 0, found: seq![] };
        lemma_commits_from(state, answers);
    }
}

} // verus!
