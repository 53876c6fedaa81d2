//! What searches for functions and commits by similarity hand out, in terms of the rows that
//! the database finds for the neighbours.

use vstd::prelude::*;

use crate::database::conditions::equals;
use crate::database::match_laws::{
    commit_filters, commits_answered, commits_found, commits_reach, commits_run, commits_scored,
    first_fault, function_filters, functions_answered, functions_end, functions_found,
    functions_run, law_similar_commits, law_similar_functions, FunctionAnswers,
};
use crate::database::similar::{
    after_bodies, after_commit_ids, body_hashes, commit_of, functions_of, lookup, match_of,
    matches_of, readable, CommitRow, CommitStepView, FunctionMeta, FunctionStepView, SIMILAR_CHUNK,
};
use crate::json::{json_text_list, json_text_lists};
use crate::lists::{
    are_portions, concatenated, distinct, law_distinct, law_pieces_are_portions,
    lemma_concatenated_two, pieces,
};
use crate::order::{
    key_less, lemma_arranges_distinct, lemma_stable_order_exists, precedes, run_less, stable_order,
};
use crate::scores::{by_score, names_of, score_key, score_keys, score_map, score_of};
use crate::text::{escaped, joined};
use crate::types::{texts_or_none, FunctionInfoView, GitCommitInfoView};

verus! {

/// Whether a name has this score among neighbours: that of the last neighbour of the name, and
/// nothing where there is none.
pub open spec fn has_score(neighbours: Seq<(Seq<char>, u32)>, name: Seq<char>, score: u32) -> bool {
    ||| exists|k: int|
        0 <= k < neighbours.len() && #[trigger] neighbours[k] == (name, score) && forall|j: int|
            k < j < neighbours.len() ==> (#[trigger] neighbours[j]).0 != name
    ||| score == 0 && forall|j: int|
        0 <= j < neighbours.len() ==> (#[trigger] neighbours[j]).0 != name
}

pub proof fn lemma_score_map(neighbours: Seq<(Seq<char>, u32)>, name: Seq<char>)
    ensures
        score_map(neighbours).dom().contains(name) <==> exists|k: int|
            0 <= k < neighbours.len() && (#[trigger] neighbours[k]).0 == name,
        has_score(neighbours, name, score_of(score_map(neighbours), name)),
    decreases neighbours.len(),
{
    if neighbours.len() > 0 {
        let fewer = neighbours.drop_last();
        let last = neighbours.len() - 1;
        lemma_score_map(fewer, name);
        let score = score_of(score_map(neighbours), name);
        if neighbours[last].0 == name {
            assert(neighbours[last] == (name, score));
        } else {
            if exists|k: int|
                0 <= k < fewer.len() && #[trigger] fewer[k] == (name, score) && forall|j: int|
                    k < j < fewer.len() ==> (#[trigger] fewer[j]).0 != name {
                let k = choose|k: int|
                    0 <= k < fewer.len() && #[trigger] fewer[k] == (name, score) && forall|j: int|
                        k < j < fewer.len() ==> (#[trigger] fewer[j]).0 != name;
                assert(neighbours[k] == (name, score));
                assert forall|j: int| k < j < neighbours.len() implies (
                #[trigger] neighbours[j]).0 != name by {
                    if j < last {
                        assert(fewer[j] == neighbours[j]);
                    }
                }
            } else {
                assert forall|j: int| 0 <= j < neighbours.len() implies (
                #[trigger] neighbours[j]).0 != name by {
                    if j < last {
                        assert(fewer[j] == neighbours[j]);
                    }
                }
            }
            if exists|k: int| 0 <= k < fewer.len() && (#[trigger] fewer[k]).0 == name {
                let k = choose|k: int| 0 <= k < fewer.len() && (#[trigger] fewer[k]).0 == name;
                assert(neighbours[k].0 == name);
            }
            if exists|k: int| 0 <= k < neighbours.len() && (#[trigger] neighbours[k]).0 == name {
                let k = choose|k: int|
                    0 <= k < neighbours.len() && (#[trigger] neighbours[k]).0 == name;
                assert(fewer[k] == neighbours[k]);
            }
        }
    }
}

/// Whether a text is what is kept under a hash: that of the last entry of the hash, and nothing
/// where there is none.
pub open spec fn is_kept(
    contents: Seq<(Seq<char>, Seq<char>)>,
    hash: Seq<char>,
    text: Seq<char>,
) -> bool {
    ||| exists|k: int|
        0 <= k < contents.len() && #[trigger] contents[k] == (hash, text) && forall|j: int|
            k < j < contents.len() ==> (#[trigger] contents[j]).0 != hash
    ||| text.len() == 0 && forall|j: int|
        0 <= j < contents.len() ==> (#[trigger] contents[j]).0 != hash
}

proof fn lemma_lookup(contents: Seq<(Seq<char>, Seq<char>)>, hash: Seq<char>)
    ensures
        is_kept(
            contents,
            hash,
            match lookup(contents, hash) {
                Some(text) => text,
                None => seq![],
            },
        ),
        lookup(contents, hash) is None ==> forall|j: int|
            0 <= j < contents.len() ==> (#[trigger] contents[j]).0 != hash,
    decreases contents.len(),
{
    if contents.len() > 0 {
        let fewer = contents.drop_last();
        let last = contents.len() - 1;
        lemma_lookup(fewer, hash);
        if contents[last].0 == hash {
            assert(contents[last] == (hash, contents[last].1));
        } else {
            assert forall|j: int| 0 <= j < fewer.len() implies fewer[j] == contents[j] by {}
            if let Some(text) = lookup(contents, hash) {
                if exists|k: int|
                    0 <= k < fewer.len() && #[trigger] fewer[k] == (hash, text) && forall|j: int|
                        k < j < fewer.len() ==> (#[trigger] fewer[j]).0 != hash {
                    let k = choose|k: int|
                        0 <= k < fewer.len() && #[trigger] fewer[k] == (hash, text)
                            && forall|j: int|
                            k < j < fewer.len() ==> (#[trigger] fewer[j]).0 != hash;
                    assert(contents[k] == (hash, text));
                    assert forall|j: int| k < j < contents.len() implies (
                    #[trigger] contents[j]).0 != hash by {
                        if j < last {
                            assert(fewer[j] == contents[j]);
                        }
                    }
                } else {
                    assert forall|j: int| 0 <= j < contents.len() implies (
                    #[trigger] contents[j]).0 != hash by {
                        if j < last {
                            assert(fewer[j] == contents[j]);
                        }
                    }
                }
            } else {
                assert forall|j: int| 0 <= j < contents.len() implies (
                #[trigger] contents[j]).0 != hash by {
                    if j < last {
                        assert(fewer[j] == contents[j]);
                    }
                }
            }
        }
    }
}

/// Whether an entry is the function of a row, with the body that is kept for it and the score
/// that its body has among the neighbours.
pub open spec fn is_match(
    entry: (FunctionInfoView, u32),
    row: FunctionMeta,
    neighbours: Seq<(Seq<char>, u32)>,
    contents: Seq<(Seq<char>, Seq<char>)>,
) -> bool {
    &&& entry.0.name == row.name@
    &&& entry.0.file_path == row.file_path@
    &&& entry.0.git_file_hash == row.git_file_hash@
    &&& entry.0.line_start == row.line_start
    &&& entry.0.line_end == row.line_end
    &&& entry.0.return_type == row.return_type@
    &&& entry.0.parameters == row.parameters@
    &&& entry.0.calls == texts_or_none(row.calls)
    &&& entry.0.types == texts_or_none(row.types)
    &&& match row.body_hash {
        Some(hash) => is_kept(contents, hash@, entry.0.body) && has_score(
            neighbours,
            hash@,
            entry.1,
        ),
        None => entry.0.body.len() == 0 && entry.1 == 0,
    }
}

/// Whether `order` puts the places of a list of `count` in another order, each once.
pub open spec fn is_order(order: Seq<int>, count: nat) -> bool {
    &&& order.len() == count
    &&& order.no_duplicates()
    &&& forall|a: int| 0 <= a < order.len() ==> 0 <= #[trigger] order[a] < count
}

/// Whether entries stand by score, `order` saying where each stood before: no score is followed
/// by a higher one, and of two with one score the one that stood first stands first.
pub open spec fn stands_by_score<V>(found: Seq<(V, u32)>, order: Seq<int>) -> bool {
    forall|a: int, b: int|
        0 <= a < b < found.len() ==> (#[trigger] found[a]).1 > (#[trigger] found[b]).1 || (
        found[a].1 == found[b].1 && order[a] < order[b])
}

/// Sorting by score changes the order alone.
pub proof fn law_sorted_by_score<V>(list: Seq<(V, u32)>)
    ensures
        exists|order: Seq<int>| #[trigger]
            is_order(order, list.len()) && stands_by_score(by_score(list), order) && by_score(
                list,
            ).len() == list.len() && forall|a: int|
                0 <= a < list.len() ==> #[trigger] by_score(list)[a] == list[order[a]],
{
    let keys = score_keys(list);
    let order = stable_order(keys);
    let out = by_score(list);
    lemma_stable_order_exists(keys);
    lemma_arranges_distinct(keys, 0, keys.len() as int, order);
    assert forall|a: int, b: int| 0 <= a < b < out.len() implies (#[trigger] out[a]).1 > (
    #[trigger] out[b]).1 || (out[a].1 == out[b].1 && order[a] < order[b]) by {
        assert(precedes(keys, order[a], order[b]));
        let x = score_key(out[a].1);
        let y = score_key(out[b].1);
        assert(keys[order[a]] == x && keys[order[b]] == y);
        assert(x[0][0] == u32::MAX - out[a].1);
        assert(y[0][0] == u32::MAX - out[b].1);
        reveal_with_fuel(key_less, 2);
        reveal_with_fuel(run_less, 2);
        if x == y {
            assert(x[0] == y[0]);
        }
    }
    assert(is_order(order, list.len()));
}

/// Whether `parts` are names cut into portions of as many as fit into one condition.
pub open spec fn are_name_parts(
    parts: Seq<Seq<Seq<char>>>,
    neighbours: Seq<(Seq<char>, u32)>,
) -> bool {
    are_portions(parts, Seq::new(neighbours.len(), |i: int| neighbours[i].0), 100)
}

/// The condition that the body of a function is one of some.
pub open spec fn bodies_condition(hashes: Seq<Seq<char>>) -> Seq<char> {
    joined(
        hashes.map_values(|hash: Seq<char>| "body_hash"@ + " = '"@ + hash + "'"@),
        " OR "@,
    )
}

/// The functions that can be read of those whose bodies are among the neighbours.
pub open spec fn body_rows(
    parts: Seq<Seq<Seq<char>>>,
    rows: spec_fn(Seq<char>) -> Seq<FunctionMeta>,
) -> Seq<FunctionMeta> {
    concatenated(
        parts.map_values(
            |part: Seq<Seq<char>>|
                rows(bodies_condition(part)).filter(|row: FunctionMeta| row.fault is None),
        ),
    )
}

/// Whether `hashes` are those of the bodies of rows, each once.
pub open spec fn are_bodies(hashes: Seq<Seq<char>>, rows: Seq<FunctionMeta>) -> bool {
    &&& hashes.no_duplicates()
    &&& forall|hash: Seq<char>| #[trigger]
        hashes.contains(hash) <==> exists|k: int|
            0 <= k < rows.len() && ((#[trigger] rows[k]).body_hash matches Some(own) && own@
                == hash)
}

proof fn lemma_readable(rows: Seq<FunctionMeta>)
    ensures
        readable(rows) == rows.filter(|row: FunctionMeta| row.fault is None),
    decreases rows.len(),
{
    reveal(Seq::filter);
    if rows.len() > 0 {
        lemma_readable(rows.drop_last());
    }
}

proof fn lemma_body_hashes(rows: Seq<FunctionMeta>, hash: Seq<char>)
    ensures
        body_hashes(rows).contains(hash) <==> exists|k: int|
            0 <= k < rows.len() && ((#[trigger] rows[k]).body_hash matches Some(own) && own@
                == hash),
    decreases rows.len(),
{
    if rows.len() > 0 {
        let fewer = rows.drop_last();
        let before = body_hashes(fewer);
        let all = body_hashes(rows);
        lemma_body_hashes(fewer, hash);
        if all.contains(hash) {
            let p = choose|p: int| 0 <= p < all.len() && all[p] == hash;
            if p < before.len() {
                assert(before[p] == hash);
                let k = choose|k: int|
                    0 <= k < fewer.len() && ((#[trigger] fewer[k]).body_hash matches Some(own)
                        && own@ == hash);
                assert(rows[k] == fewer[k]);
            } else {
                assert(rows[rows.len() - 1].body_hash is Some);
            }
        }
        if exists|k: int|
            0 <= k < rows.len() && ((#[trigger] rows[k]).body_hash matches Some(own) && own@
                == hash) {
            let k = choose|k: int|
                0 <= k < rows.len() && ((#[trigger] rows[k]).body_hash matches Some(own) && own@
                    == hash);
            if k < fewer.len() {
                assert(fewer[k] == rows[k]);
                let p = choose|p: int| 0 <= p < before.len() && before[p] == hash;
                assert(all[p] == hash);
            } else {
                assert(all[before.len() as int] == hash);
            }
        }
    }
}

proof fn lemma_functions_found(
    parts: Seq<Seq<Seq<char>>>,
    filters: Seq<Seq<char>>,
    from: nat,
    answers: FunctionAnswers,
)
    requires
        from <= parts.len(),
        filters.len() == parts.len(),
        forall|k: int| 0 <= k < parts.len() ==> #[trigger] filters[k] == bodies_condition(parts[k]),
    ensures
        functions_found(filters, from, answers) == body_rows(parts.skip(from as int), answers.rows),
    decreases parts.len() - from,
{
    let f = |part: Seq<Seq<char>>|
        (answers.rows)(bodies_condition(part)).filter(|row: FunctionMeta| row.fault is None);
    let all = parts.skip(from as int).map_values(f);
    if from >= parts.len() {
        assert(all =~= seq![]);
        assert(functions_found(filters, from, answers) =~= seq![]);
    } else {
        let own = f(parts[from as int]);
        let rest = parts.skip(from + 1int).map_values(f);
        assert(all =~= seq![own] + rest);
        lemma_concatenated_two(seq![own], rest);
        reveal_with_fuel(concatenated, 2);
        assert(seq![own].drop_last() =~= seq![]);
        assert(concatenated(seq![own]) =~= own);
        lemma_readable((answers.rows)(filters[from as int]));
        lemma_functions_found(parts, filters, from + 1, answers);
    }
}

proof fn lemma_functions_stay(step: FunctionStepView, answers: FunctionAnswers, a: nat, b: nat)
    requires
        functions_run(step, answers, a) is Done,
        functions_run(step, answers, b) is Done,
    ensures
        functions_run(step, answers, a) == functions_run(step, answers, b),
    decreases a + b,
{
    if a == 0 && b > 0 {
        assert(functions_answered(step, answers) == step);
        lemma_functions_stay(step, answers, 0, (b - 1) as nat);
    } else if b == 0 && a > 0 {
        assert(functions_answered(step, answers) == step);
        lemma_functions_stay(step, answers, (a - 1) as nat, 0);
    } else if a > 0 {
        lemma_functions_stay(
            functions_answered(step, answers),
            answers,
            (a - 1) as nat,
            (b - 1) as nat,
        );
    }
}

/// Whether entries are the functions of rows, each with its body and score, the most similar
/// first.
pub open spec fn are_matches(
    found: Seq<(FunctionInfoView, u32)>,
    rows: Seq<FunctionMeta>,
    neighbours: Seq<(Seq<char>, u32)>,
    contents: Seq<(Seq<char>, Seq<char>)>,
) -> bool {
    exists|order: Seq<int>| #[trigger]
        is_order(order, rows.len()) && found.len() == rows.len() && stands_by_score(found, order)
            && forall|a: int|
            0 <= a < found.len() ==> is_match(
                #[trigger] found[a],
                rows[order[a]],
                neighbours,
                contents,
            )
}

/// A search for functions by similarity hands out, for each row that can be read of those that
/// the database finds for the bodies among the neighbours, the function with its body and with
/// the score of its body, the most similar first.
pub proof fn law_functions_are_matched(
    neighbours: Seq<(Seq<char>, u32)>,
    answers: FunctionAnswers,
    found: Seq<(FunctionInfoView, u32)>,
)
    requires
        functions_end(after_bodies(neighbours), answers, found),
    ensures
        exists|parts: Seq<Seq<Seq<char>>>, hashes: Seq<Seq<char>>| #[trigger]
            are_name_parts(parts, neighbours) && #[trigger] are_bodies(
                hashes,
                body_rows(parts, answers.rows),
            ) && are_matches(
                found,
                body_rows(parts, answers.rows),
                neighbours,
                (answers.contents)(hashes),
            ),
{
    let step = after_bodies(neighbours);
    let names = names_of(neighbours);
    let filters = function_filters(neighbours);
    let parts = pieces(names, SIMILAR_CHUNK as nat);
    let rows = functions_found(filters, 0, answers);
    let hashes = distinct(body_hashes(rows));
    let contents = (answers.contents)(hashes);
    law_similar_functions(neighbours, answers);
    let expected = matches_of(rows, score_map(neighbours), contents);
    let a = choose|a: nat| #[trigger]
        functions_run(step, answers, a) == FunctionStepView::Done(found);
    let b = choose|b: nat| #[trigger]
        functions_run(step, answers, b) == FunctionStepView::Done(expected);
    lemma_functions_stay(step, answers, a, b);
    law_pieces_are_portions(names, SIMILAR_CHUNK as nat);
    assert(names =~= Seq::new(neighbours.len(), |i: int| neighbours[i].0));
    assert(are_name_parts(parts, neighbours));
    assert forall|k: int| 0 <= k < parts.len() implies #[trigger] filters[k] == bodies_condition(
        parts[k],
    ) by {
        assert(parts[k].map_values(|hash: Seq<char>| "body_hash"@ + " = '"@ + hash + "'"@)
            =~= parts[k].map_values(|value: Seq<char>| equals("body_hash"@, value, false)));
    }
    lemma_functions_found(parts, filters, 0, answers);
    assert(parts.skip(0) =~= parts);
    law_distinct(body_hashes(rows));
    assert forall|hash: Seq<char>| #[trigger] hashes.contains(hash) <==> exists|k: int|
        0 <= k < rows.len() && ((#[trigger] rows[k]).body_hash matches Some(own) && own@
            == hash) by {
        lemma_body_hashes(rows, hash);
    }
    let list = rows.map_values(
        |meta: FunctionMeta| match_of(meta, score_map(neighbours), contents),
    );
    law_sorted_by_score(list);
    let order = choose|order: Seq<int>| #[trigger]
        is_order(order, list.len()) && stands_by_score(by_score(list), order) && by_score(
            list,
        ).len() == list.len() && forall|a: int|
            0 <= a < list.len() ==> #[trigger] by_score(list)[a] == list[order[a]];
    assert forall|a: int| 0 <= a < found.len() implies is_match(
        #[trigger] found[a],
        rows[order[a]],
        neighbours,
        contents,
    ) by {
        let row = rows[order[a]];
        assert(found[a] == by_score(list)[a]);
        assert(found[a] == match_of(row, score_map(neighbours), contents));
        if let Some(hash) = row.body_hash {
            lemma_lookup(contents, hash@);
            lemma_score_map(neighbours, hash@);
        }
    }
    assert(is_order(order, rows.len()));
    assert(are_name_parts(parts, neighbours) && are_bodies(hashes, body_rows(parts, answers.rows)));
}

/// The condition that a commit is one of some.
pub open spec fn commits_condition(ids: Seq<Seq<char>>) -> Seq<char> {
    joined(
        ids.map_values(|id: Seq<char>| "git_sha"@ + " = '"@ + escaped(id) + "'"@),
        " OR "@,
    )
}

/// The commits that are among the neighbours.
pub open spec fn commit_rows(
    parts: Seq<Seq<Seq<char>>>,
    rows: spec_fn(Seq<char>) -> Seq<CommitRow>,
) -> Seq<CommitRow> {
    concatenated(parts.map_values(|part: Seq<Seq<char>>| rows(commits_condition(part))))
}

/// What is wrong with a row of commits: the first of the parents, the tags, the symbols and the
/// files that is not the JSON that it should be.
pub open spec fn row_fault(row: CommitRow) -> Option<Seq<char>> {
    if json_text_list(row.parent_sha@) is Err {
        Some(json_text_list(row.parent_sha@)->Err_0)
    } else if json_text_lists(row.tags@) is Err {
        Some(json_text_lists(row.tags@)->Err_0)
    } else if json_text_list(row.symbols@) is Err {
        Some(json_text_list(row.symbols@)->Err_0)
    } else if json_text_list(row.files@) is Err {
        Some(json_text_list(row.files@)->Err_0)
    } else {
        None
    }
}

/// Whether an entry is the commit of a row, with the score that it has among the neighbours.
pub open spec fn is_commit_match(
    entry: (GitCommitInfoView, u32),
    row: CommitRow,
    neighbours: Seq<(Seq<char>, u32)>,
) -> bool {
    &&& entry.0.git_sha == row.git_sha@
    &&& entry.0.author == row.author@
    &&& entry.0.subject == row.subject@
    &&& entry.0.message == row.message@
    &&& entry.0.diff == row.diff@
    &&& json_text_list(row.parent_sha@) == Ok::<Seq<Seq<char>>, Seq<char>>(entry.0.parent_sha)
    &&& json_text_lists(row.tags@) == Ok::<Seq<(Seq<char>, Seq<Seq<char>>)>, Seq<char>>(
        entry.0.tags,
    )
    &&& json_text_list(row.symbols@) == Ok::<Seq<Seq<char>>, Seq<char>>(entry.0.symbols)
    &&& json_text_list(row.files@) == Ok::<Seq<Seq<char>>, Seq<char>>(entry.0.files)
    &&& has_score(neighbours, row.git_sha@, entry.1)
}

/// Whether entries are the commits of rows, each with its score, the most similar first.
pub open spec fn are_commit_matches(
    found: Seq<(GitCommitInfoView, u32)>,
    rows: Seq<CommitRow>,
    neighbours: Seq<(Seq<char>, u32)>,
) -> bool {
    exists|order: Seq<int>| #[trigger]
        is_order(order, rows.len()) && found.len() == rows.len() && stands_by_score(found, order)
            && forall|a: int|
            0 <= a < found.len() ==> is_commit_match(
                #[trigger] found[a],
                rows[order[a]],
                neighbours,
            )
}

/// Whether a text is what is wrong with the first row that cannot be read.
pub open spec fn is_first_fault(rows: Seq<CommitRow>, text: Seq<char>) -> bool {
    exists|k: int|
        0 <= k < rows.len() && row_fault(#[trigger] rows[k]) == Some(text) && forall|j: int|
            0 <= j < k ==> row_fault(#[trigger] rows[j]) is None
}

proof fn lemma_commits_found(
    parts: Seq<Seq<Seq<char>>>,
    filters: Seq<Seq<char>>,
    from: nat,
    answers: spec_fn(Seq<char>) -> Seq<CommitRow>,
)
    requires
        from <= parts.len(),
        filters.len() == parts.len(),
        forall|k: int|
            0 <= k < parts.len() ==> #[trigger] filters[k] == commits_condition(parts[k]),
    ensures
        commits_found(filters, from, answers) == commit_rows(parts.skip(from as int), answers),
    decreases parts.len() - from,
{
    let f = |part: Seq<Seq<char>>| answers(commits_condition(part));
    let all = parts.skip(from as int).map_values(f);
    if from >= parts.len() {
        assert(all =~= seq![]);
        assert(commits_found(filters, from, answers) =~= seq![]);
    } else {
        let own = f(parts[from as int]);
        let rest = parts.skip(from + 1int).map_values(f);
        assert(all =~= seq![own] + rest);
        lemma_concatenated_two(seq![own], rest);
        reveal_with_fuel(concatenated, 2);
        assert(seq![own].drop_last() =~= seq![]);
        assert(concatenated(seq![own]) =~= own);
        lemma_commits_found(parts, filters, from + 1, answers);
    }
}

proof fn lemma_commits_stay(
    step: CommitStepView,
    answers: spec_fn(Seq<char>) -> Seq<CommitRow>,
    a: nat,
    b: nat,
)
    requires
        commits_run(step, answers, a) is Done || commits_run(step, answers, a) is Failed,
        commits_run(step, answers, b) is Done || commits_run(step, answers, b) is Failed,
    ensures
        commits_run(step, answers, a) == commits_run(step, answers, b),
    decreases a + b,
{
    if a == 0 && b > 0 {
        assert(commits_answered(step, answers) == step);
        lemma_commits_stay(step, answers, 0, (b - 1) as nat);
    } else if b == 0 && a > 0 {
        assert(commits_answered(step, answers) == step);
        lemma_commits_stay(step, answers, (a - 1) as nat, 0);
    } else if a > 0 {
        lemma_commits_stay(
            commits_answered(step, answers),
            answers,
            (a - 1) as nat,
            (b - 1) as nat,
        );
    }
}

/// A search for commits by similarity hands out, for each row that the database finds for the
/// commits among the neighbours, the commit with its score, the most similar first; where a row
/// is not what it should be it fails, with what is wrong with the first such row.
pub proof fn law_commits_are_matched(
    neighbours: Seq<(Seq<char>, u32)>,
    answers: spec_fn(Seq<char>) -> Seq<CommitRow>,
    end: CommitStepView,
)
    requires
        commits_reach(after_commit_ids(neighbours), answers, end),
        end is Done || end is Failed,
    ensures
        exists|parts: Seq<Seq<Seq<char>>>| #[trigger]
            are_name_parts(parts, neighbours) && ({
                let rows = commit_rows(parts, answers);
                match end {
                    CommitStepView::Done(found) => are_commit_matches(found, rows, neighbours),
                    CommitStepView::Failed(text) => is_first_fault(rows, text),
                    _ => false,
                }
            }),
{
    let step = after_commit_ids(neighbours);
    let names = names_of(neighbours);
    let filters = commit_filters(neighbours);
    let parts = pieces(names, SIMILAR_CHUNK as nat);
    let rows = commits_found(filters, 0, answers);
    law_similar_commits(neighbours, answers);
    law_pieces_are_portions(names, SIMILAR_CHUNK as nat);
    assert(names =~= Seq::new(neighbours.len(), |i: int| neighbours[i].0));
    assert(are_name_parts(parts, neighbours));
    assert forall|k: int| 0 <= k < parts.len() implies #[trigger] filters[k] == commits_condition(
        parts[k],
    ) by {
        assert(parts[k].map_values(|id: Seq<char>| "git_sha"@ + " = '"@ + escaped(id) + "'"@)
            =~= parts[k].map_values(|value: Seq<char>| equals("git_sha"@, value, true)));
    }
    lemma_commits_found(parts, filters, 0, answers);
    assert(parts.skip(0) =~= parts);
    assert forall|row: CommitRow| (#[trigger] row_fault(row)) == (match commit_of(row) {
        Ok(_) => None,
        Err(text) => Some(text),
    }) by {}
    let a = choose|a: nat| #[trigger] commits_run(step, answers, a) == end;
    if forall|k: int| 0 <= k < rows.len() ==> commit_of(#[trigger] rows[k]) is Ok {
        let list = commits_scored(rows, score_map(neighbours));
        let done = CommitStepView::Done(by_score(list));
        let b = choose|b: nat| #[trigger] commits_run(step, answers, b) == done;
        lemma_commits_stay(step, answers, a, b);
        law_sorted_by_score(list);
        let order = choose|order: Seq<int>| #[trigger]
            is_order(order, list.len()) && stands_by_score(by_score(list), order) && by_score(
                list,
            ).len() == list.len() && forall|a: int|
                0 <= a < list.len() ==> #[trigger] by_score(list)[a] == list[order[a]];
        let found = by_score(list);
        assert forall|a: int| 0 <= a < found.len() implies is_commit_match(
            #[trigger] found[a],
            rows[order[a]],
            neighbours,
        ) by {
            let row = rows[order[a]];
            assert(commit_of(row) is Ok);
            lemma_score_map(neighbours, row.git_sha@);
        }
        assert(is_order(order, rows.len()));
    } else {
        let k = choose|k: int| #[trigger]
            first_fault(rows, k) && commits_reach(
                step,
                answers,
                CommitStepView::Failed(commit_of(rows[k])->Err_0),
            );
        let failed = CommitStepView::Failed(commit_of(rows[k])->Err_0);
        let b = choose|b: nat| #[trigger] commits_run(step, answers, b) == failed;
        lemma_commits_stay(step, answers, a, b);
        assert(row_fault(rows[k]) == Some(commit_of(rows[k])->Err_0));
        assert forall|j: int| 0 <= j < k implies row_fault(#[trigger] rows[j]) is None by {
            assert(commit_of(rows[j]) is Ok);
        }
    }
}

/// Without their scores, matches are the same functions in the same order.
pub proof fn law_functions_of_matches(matches: Seq<(FunctionInfoView, u32)>)
    ensures
        functions_of(matches).len() == matches.len(),
        forall|i: int|
            0 <= i < matches.len() ==> (#[trigger] functions_of(matches)[i]) == matches[i].0,
{
}

} // verus!
