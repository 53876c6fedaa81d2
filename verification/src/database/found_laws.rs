//! What searches for functions, types and type definitions hand out, in terms of what the
//! database holds.

use vstd::prelude::*;

use crate::database::search::{
    chunk_filter, chunk_filters, chunk_limit, kept_rows, plan_of, row_paths, search_start,
    QueryView, StepView, HASH_CHUNK,
};
use crate::database::search_laws::{
    answered, behind, chunk_records, ends, exact_answers, first_answer, kept_text, law_search_finds,
    records, run, search_result, Answers, Outcome,
};
use crate::database::symbols::{
    split_definition, FunctionRow, Mode, PlanView, Symbol, Table, TypeRow, TypedefRow,
};
use crate::lists::{
    are_portions, concatenated, law_distinct, law_pieces_are_portions, lemma_concatenated_two, pieces,
};
use crate::pattern::{matches_ignoring_case, refusal};
use crate::text::{escaped, first_of, joined, lemma_first_of};
use crate::types::{text_or_none, FunctionInfoView, TypeInfoView, TypedefInfoView};

verus! {

/// Whether an outcome is that rows were read: their records, one for each and in their order,
/// if all can be read, else what is wrong with the first that cannot.
pub open spec fn reads<S, V>(
    rows: Seq<S>,
    fault: spec_fn(S) -> Option<Seq<char>>,
    record: spec_fn(S) -> V,
    outcome: Outcome<V>,
) -> bool {
    match outcome {
        Ok(found) => found == rows.map_values(record) && forall|k: int|
            0 <= k < rows.len() ==> fault(#[trigger] rows[k]) is None,
        Err(text) => exists|k: int|
            0 <= k < rows.len() && fault(#[trigger] rows[k]) == Some(text) && forall|j: int|
                0 <= j < k ==> fault(#[trigger] rows[j]) is None,
    }
}

/// Whether `paths` are the files of rows, each once.
pub open spec fn are_files<S>(
    paths: Seq<Seq<char>>,
    rows: Seq<S>,
    path: spec_fn(S) -> Seq<char>,
) -> bool {
    &&& paths.no_duplicates()
    &&& forall|file: Seq<char>| #[trigger]
        paths.contains(file) <==> exists|k: int| 0 <= k < rows.len() && path(#[trigger] rows[k]) == file
}

/// Whether `parts` are hashes cut into portions of as many as fit into one condition.
pub open spec fn are_parts(parts: Seq<Seq<Seq<char>>>, hashes: Seq<Seq<char>>) -> bool {
    are_portions(parts, hashes, 100)
}

/// Whether an outcome is that of a search at a commit that starts from `first`: the hashes of
/// the files of these rows at the commit are asked for, and read is what `ask` finds for them,
/// piece by piece, as far as it is to be kept.
pub open spec fn reads_at_commit<S, V>(
    first: Seq<S>,
    path: spec_fn(S) -> Seq<char>,
    hashes_of: spec_fn(Seq<Seq<char>>) -> Option<Seq<Seq<char>>>,
    ask: spec_fn(Seq<Seq<char>>) -> Seq<S>,
    keep: spec_fn(S) -> bool,
    fault: spec_fn(S) -> Option<Seq<char>>,
    record: spec_fn(S) -> V,
    outcome: Outcome<V>,
) -> bool {
    if first.len() == 0 {
        outcome == Outcome::<V>::Ok(seq![])
    } else {
        exists|paths: Seq<Seq<char>>| #[trigger]
            are_files(paths, first, path) && match hashes_of(paths) {
                None => outcome == Outcome::<V>::Ok(seq![]),
                Some(hashes) => exists|parts: Seq<Seq<Seq<char>>>| #[trigger]
                    are_parts(parts, hashes) && reads(
                        concatenated(
                            parts.map_values(|part: Seq<Seq<char>>| ask(part).filter(keep)),
                        ),
                        fault,
                        record,
                        outcome,
                    ),
            }
    }
}

proof fn lemma_more_steps<S: Symbol>(
    step: StepView<S, <S::Info as View>::V>,
    answers: Answers<S>,
    a: nat,
    b: nat,
)
    requires
        run(step, answers, a) is Some,
        run(step, answers, b) is Some,
    ensures
        run(step, answers, a) == run(step, answers, b),
    decreases a,
{
    match step {
        StepView::Done(found) => {},
        StepView::Failed(fault) => {},
        _ => {
            lemma_more_steps(answered(step, answers), answers, (a - 1) as nat, (b - 1) as nat);
        },
    }
}

/// A search comes to one outcome only.
proof fn lemma_one_outcome<S: Symbol>(
    plan: PlanView,
    answers: Answers<S>,
    outcome: Outcome<<S::Info as View>::V>,
)
    requires
        ends(search_start::<S>(plan), answers, outcome),
    ensures
        outcome == search_result::<S>(plan, answers),
{
    let start = search_start::<S>(plan);
    law_search_finds::<S>(plan, answers);
    let a = choose|a: nat| #[trigger] run(start, answers, a) == Some(outcome);
    let b = choose|b: nat| #[trigger]
        run(start, answers, b) == Some(search_result::<S>(plan, answers));
    lemma_more_steps(start, answers, a, b);
}

proof fn lemma_kept_filter<S: Symbol>(rows: Seq<S>, plan: PlanView, keep: spec_fn(S) -> bool)
    requires
        forall|row: S| keep(row) == #[trigger] row.kept_spec(plan),
    ensures
        kept_rows(rows, plan) == rows.filter(keep),
    decreases rows.len(),
{
    reveal(Seq::filter);
    if rows.len() > 0 {
        lemma_kept_filter(rows.drop_last(), plan, keep);
        assert(keep(rows.last()) == rows.last().kept_spec(plan));
    }
}

proof fn lemma_records_read<S: Symbol>(
    rows: Seq<S>,
    from: nat,
    plan: PlanView,
    answers: Answers<S>,
    fault: spec_fn(S) -> Option<Seq<char>>,
    record: spec_fn(S) -> <S::Info as View>::V,
)
    requires
        from <= rows.len(),
        forall|row: S| fault(row) == #[trigger] row.fault_spec(),
        forall|row: S|
            record(row) == (#[trigger] row.info_spec(plan, kept_text(row, answers))),
    ensures
        reads(rows.skip(from as int), fault, record, records(rows, from, plan, answers)),
    decreases rows.len() - from,
{
    let all = rows.skip(from as int);
    if from < rows.len() {
        let row = rows[from as int];
        let rest = rows.skip(from + 1int);
        assert(all =~= seq![row] + rest);
        assert(fault(row) == row.fault_spec());
        assert(record(row) == row.info_spec(plan, kept_text(row, answers)));
        match row.fault_spec() {
            Some(text) => {
                assert(fault(all[0]) == Some(text));
            },
            None => {
                lemma_records_read(rows, from + 1, plan, answers, fault, record);
                match records(rows, from + 1, plan, answers) {
                    Ok(found) => {
                        assert(all.map_values(record) =~= seq![record(row)] + found);
                        assert forall|k: int| 0 <= k < all.len() implies fault(
                            #[trigger] all[k],
                        ) is None by {
                            if k > 0 {
                                assert(all[k] == rest[k - 1]);
                            }
                        }
                    },
                    Err(text) => {
                        let k = choose|k: int|
                            0 <= k < rest.len() && fault(#[trigger] rest[k]) == Some(text)
                                && forall|j: int| 0 <= j < k ==> fault(#[trigger] rest[j]) is None;
                        assert(all[k + 1] == rest[k]);
                        assert forall|j: int| 0 <= j < k + 1 implies fault(
                            #[trigger] all[j],
                        ) is None by {
                            if j > 0 {
                                assert(all[j] == rest[j - 1]);
                            }
                        }
                    },
                }
            },
        }
    } else {
        assert(all.map_values(record) =~= seq![]);
    }
}

proof fn lemma_reads_two<S, V>(
    x: Seq<S>,
    y: Seq<S>,
    fault: spec_fn(S) -> Option<Seq<char>>,
    record: spec_fn(S) -> V,
    first: Outcome<V>,
    second: Outcome<V>,
)
    requires
        reads(x, fault, record, first),
        reads(y, fault, record, second),
    ensures
        reads(
            x + y,
            fault,
            record,
            match first {
                Ok(own) => behind(own, second),
                Err(text) => Err(text),
            },
        ),
{
    let both = x + y;
    match first {
        Ok(own) => {
            assert forall|k: int| 0 <= k < x.len() implies fault(#[trigger] both[k]) is None by {
                assert(both[k] == x[k]);
            }
            match second {
                Ok(rest) => {
                    assert(both.map_values(record) =~= own + rest);
                    assert forall|k: int| 0 <= k < both.len() implies fault(
                        #[trigger] both[k],
                    ) is None by {
                        if k >= x.len() {
                            assert(both[k] == y[k - x.len()]);
                        }
                    }
                },
                Err(text) => {
                    let k = choose|k: int|
                        0 <= k < y.len() && fault(#[trigger] y[k]) == Some(text) && forall|j: int|
                            0 <= j < k ==> fault(#[trigger] y[j]) is None;
                    assert(both[x.len() + k] == y[k]);
                    assert forall|j: int| 0 <= j < x.len() + k implies fault(
                        #[trigger] both[j],
                    ) is None by {
                        if j >= x.len() {
                            assert(both[j] == y[j - x.len()]);
                        }
                    }
                },
            }
        },
        Err(text) => {
            let k = choose|k: int|
                0 <= k < x.len() && fault(#[trigger] x[k]) == Some(text) && forall|j: int|
                    0 <= j < k ==> fault(#[trigger] x[j]) is None;
            assert(both[k] == x[k]);
            assert forall|j: int| 0 <= j < k implies fault(#[trigger] both[j]) is None by {
                assert(both[j] == x[j]);
            }
        },
    }
}

proof fn lemma_chunks_read<S: Symbol>(
    parts: Seq<Seq<Seq<char>>>,
    filters: Seq<Seq<char>>,
    from: nat,
    plan: PlanView,
    answers: Answers<S>,
    ask: spec_fn(Seq<Seq<char>>) -> Seq<S>,
    keep: spec_fn(S) -> bool,
    fault: spec_fn(S) -> Option<Seq<char>>,
    record: spec_fn(S) -> <S::Info as View>::V,
)
    requires
        from <= parts.len(),
        filters.len() == parts.len(),
        forall|row: S| keep(row) == #[trigger] row.kept_spec(plan),
        forall|row: S| fault(row) == #[trigger] row.fault_spec(),
        forall|row: S|
            record(row) == (#[trigger] row.info_spec(plan, kept_text(row, answers))),
        forall|k: int|
            0 <= k < parts.len() ==> ask(#[trigger] parts[k]) == (answers.rows)(
                (QueryView {
                    table: S::table_spec(),
                    filter: filters[k],
                    limit: chunk_limit(plan),
                }),
            ),
    ensures
        reads(
            concatenated(
                parts.skip(from as int).map_values(
                    |part: Seq<Seq<char>>| ask(part).filter(keep),
                ),
            ),
            fault,
            record,
            chunk_records::<S>(filters, from, plan, answers),
        ),
    decreases parts.len() - from,
{
    let f = |part: Seq<Seq<char>>| ask(part).filter(keep);
    let all = parts.skip(from as int).map_values(f);
    if from >= parts.len() {
        assert(all =~= seq![]);
        let none: Seq<S> = seq![];
        assert(concatenated(all) =~= none);
        assert(none.map_values(record) =~= seq![]);
    } else {
        let part = parts[from as int];
        let rest = parts.skip(from + 1int).map_values(f);
        let rows = ask(part).filter(keep);
        assert(all =~= seq![rows] + rest);
        lemma_concatenated_two(seq![rows], rest);
        reveal_with_fuel(concatenated, 2);
        assert(seq![rows].drop_last() =~= seq![]);
        assert(concatenated(seq![rows]) =~= rows);
        lemma_kept_filter(ask(part), plan, keep);
        lemma_records_read(rows, 0, plan, answers, fault, record);
        assert(rows.skip(0) =~= rows);
        lemma_chunks_read::<S>(
            parts,
            filters,
            from + 1,
            plan,
            answers,
            ask,
            keep,
            fault,
            record,
        );
        lemma_reads_two(
            rows,
            concatenated(rest),
            fault,
            record,
            records(rows, 0, plan, answers),
            chunk_records::<S>(filters, from + 1, plan, answers),
        );
    }
}

proof fn lemma_paths<S: Symbol>(rows: Seq<S>, path: spec_fn(S) -> Seq<char>)
    requires
        forall|row: S| path(row) == #[trigger] row.path_spec(),
    ensures
        are_files(row_paths(rows), rows, path),
{
    let list = rows.map_values(|row: S| row.path_spec());
    law_distinct(list);
    assert forall|file: Seq<char>| #[trigger] row_paths(rows).contains(file) <==> exists|k: int|
        0 <= k < rows.len() && path(#[trigger] rows[k]) == file by {
        if list.contains(file) {
            let k = choose|k: int| 0 <= k < list.len() && list[k] == file;
            assert(path(rows[k]) == rows[k].path_spec());
        }
        if exists|k: int| 0 <= k < rows.len() && path(#[trigger] rows[k]) == file {
            let k = choose|k: int| 0 <= k < rows.len() && path(#[trigger] rows[k]) == file;
            assert(path(rows[k]) == rows[k].path_spec());
            assert(list[k] == file);
        }
    }
}

/// A search that is not about a commit reads the rows that are to be kept of its first answer.
proof fn lemma_search_reads<S: Symbol>(
    plan: PlanView,
    answers: Answers<S>,
    outcome: Outcome<<S::Info as View>::V>,
    keep: spec_fn(S) -> bool,
    fault: spec_fn(S) -> Option<Seq<char>>,
    record: spec_fn(S) -> <S::Info as View>::V,
)
    requires
        !plan.git_aware,
        ends(search_start::<S>(plan), answers, outcome),
        forall|row: S| keep(row) == #[trigger] row.kept_spec(plan),
        forall|row: S| fault(row) == #[trigger] row.fault_spec(),
        forall|row: S|
            record(row) == (#[trigger] row.info_spec(plan, kept_text(row, answers))),
    ensures
        reads(first_answer::<S>(plan, answers).filter(keep), fault, record, outcome),
{
    lemma_one_outcome::<S>(plan, answers, outcome);
    let rows = first_answer::<S>(plan, answers);
    lemma_kept_filter(rows, plan, keep);
    lemma_records_read(rows.filter(keep), 0, plan, answers, fault, record);
    assert(rows.filter(keep).skip(0) =~= rows.filter(keep));
}

proof fn lemma_search_reads_at_commit<S: Symbol>(
    plan: PlanView,
    answers: Answers<S>,
    outcome: Outcome<<S::Info as View>::V>,
    path: spec_fn(S) -> Seq<char>,
    ask: spec_fn(Seq<Seq<char>>) -> Seq<S>,
    keep: spec_fn(S) -> bool,
    fault: spec_fn(S) -> Option<Seq<char>>,
    record: spec_fn(S) -> <S::Info as View>::V,
)
    requires
        plan.git_aware,
        !(S::table_spec() == Table::Functions && plan.mode == Mode::Regex && refusal(
            plan.pattern,
        ) is Some),
        ends(search_start::<S>(plan), answers, outcome),
        forall|row: S| path(row) == #[trigger] row.path_spec(),
        forall|row: S| keep(row) == #[trigger] row.kept_spec(plan),
        forall|row: S| fault(row) == #[trigger] row.fault_spec(),
        forall|row: S|
            record(row) == (#[trigger] row.info_spec(plan, kept_text(row, answers))),
        forall|part: Seq<Seq<char>>| #[trigger]
            ask(part) == (answers.rows)(
                (QueryView {
                    table: S::table_spec(),
                    filter: chunk_filter(
                        plan,
                        S::typedefs_spec(),
                        exact_answers::<S>(plan, answers),
                        part,
                    ),
                    limit: chunk_limit(plan),
                }),
            ),
    ensures
        reads_at_commit(
            first_answer::<S>(plan, answers),
            path,
            answers.hashes,
            ask,
            keep,
            fault,
            record,
            outcome,
        ),
{
    lemma_one_outcome::<S>(plan, answers, outcome);
    let first = first_answer::<S>(plan, answers);
    let exact = exact_answers::<S>(plan, answers);
    if first.len() > 0 {
        let paths = row_paths(first);
        lemma_paths(first, path);
        if let Some(hashes) = (answers.hashes)(paths) {
            let parts = pieces(hashes, HASH_CHUNK as nat);
            let filters = chunk_filters(plan, S::typedefs_spec(), exact, hashes);
            law_pieces_are_portions(hashes, HASH_CHUNK as nat);
            assert(are_parts(parts, hashes));
            lemma_chunks_read::<S>(parts, filters, 0, plan, answers, ask, keep, fault, record);
            assert(parts.skip(0) =~= parts);
        }
        assert(are_files(paths, first, path));
    }
}

/// What is answered to a condition on a table.
pub open spec fn asked<S>(
    answers: Answers<S>,
    table: Table,
    filter: Seq<char>,
    limit: Option<usize>,
) -> Seq<S> {
    (answers.rows)(QueryView { table, filter, limit })
}

/// The rows of exactly a name, or with it as part of the name where there are none.
pub open spec fn named_rows<S>(
    answers: Answers<S>,
    table: Table,
    name: Seq<char>,
    ending: Seq<char>,
    limit: usize,
) -> Seq<S> {
    let exact = asked(
        answers,
        table,
        "name = '"@ + escaped(name) + "'"@ + ending,
        Some(limit),
    );
    if exact.len() > 0 {
        exact
    } else {
        asked(answers, table, "name LIKE '%"@ + escaped(name) + "%'"@ + ending, Some(limit))
    }
}

/// The rows that a pattern finds.
pub open spec fn pattern_rows<S>(answers: Answers<S>, table: Table, pattern: Seq<char>) -> Seq<S> {
    asked(answers, table, "regexp_like(name, '(?i)"@ + escaped(pattern) + "')"@, None)
}

/// The condition that a row is of a file with one of some hashes.
pub open spec fn hash_condition(hashes: Seq<Seq<char>>) -> Seq<char> {
    joined(
        hashes.map_values(|hash: Seq<char>| "git_file_hash"@ + " = '"@ + hash + "'"@),
        " OR "@,
    )
}

/// The rows of files with one of some hashes.
pub open spec fn file_rows<S>(answers: Answers<S>, table: Table, hashes: Seq<Seq<char>>) -> Seq<S> {
    asked(answers, table, hash_condition(hashes), None)
}

/// What a search at a commit asks of the name: exactly the name where there were symbols of
/// exactly the name, else the name as a part.
pub open spec fn name_condition<S>(
    answers: Answers<S>,
    table: Table,
    name: Seq<char>,
    ending: Seq<char>,
) -> Seq<char> {
    if asked(
        answers,
        table,
        "name = '"@ + escaped(name) + "'"@ + ending,
        Some(1000),
    ).len() > 0 {
        " AND name = '"@ + escaped(name) + "'"@
    } else {
        " AND name LIKE '%"@ + escaped(name) + "%'"@
    }
}

/// The rows of files with one of some hashes, by name.
pub open spec fn named_file_rows<S>(
    answers: Answers<S>,
    table: Table,
    name: Seq<char>,
    ending: Seq<char>,
    hashes: Seq<Seq<char>>,
) -> Seq<S> {
    asked(
        answers,
        table,
        "("@ + hash_condition(hashes) + ")"@ + ending + name_condition(
            answers,
            table,
            name,
            ending,
        ),
        Some(100),
    )
}

/// What is kept under a hash that may be absent; nothing where it is missing.
pub open spec fn kept_under<S>(answers: Answers<S>, hash: Option<String>) -> Seq<char> {
    match hash {
        Some(hash) => match (answers.content)(hash@) {
            Some(text) => text,
            None => seq![],
        },
        None => seq![],
    }
}

/// What is wrong with a row of functions, if anything.
pub open spec fn function_fault() -> spec_fn(FunctionRow) -> Option<Seq<char>> {
    |row: FunctionRow| text_or_none(row.fault)
}

/// The function that a row stands for, with the body that is kept for it.
pub open spec fn function_record(answers: Answers<FunctionRow>) -> spec_fn(
    FunctionRow,
) -> FunctionInfoView {
    |row: FunctionRow|
        FunctionInfoView {
            name: row.name@,
            file_path: row.file_path@,
            git_file_hash: row.git_file_hash@,
            line_start: row.line_start as u32,
            line_end: row.line_end as u32,
            return_type: row.return_type@,
            parameters: row.parameters@,
            body: kept_under(answers, row.body_hash),
            calls: None,
            types: None,
        }
}

proof fn lemma_function_record(plan: PlanView, answers: Answers<FunctionRow>)
    ensures
        forall|row: FunctionRow|
            function_record(answers)(row) == (#[trigger] row.info_spec(
                plan,
                kept_text(row, answers),
            )),
        forall|row: FunctionRow| function_fault()(row) == #[trigger] row.fault_spec(),
{
    assert forall|row: FunctionRow|
        function_record(answers)(row) == (#[trigger] row.info_spec(
        plan,
        kept_text(row, answers),
    )) by {
        assert(kept_text(row, answers) == kept_under(answers, row.body_hash));
    }
}

/// A search for functions by name hands out those of exactly the name, or, where there are
/// none, those with it as part of the name: one for each row that the database finds.
pub proof fn law_functions_by_name(
    name: Seq<char>,
    answers: Answers<FunctionRow>,
    outcome: Outcome<FunctionInfoView>,
)
    requires
        ends(search_start::<FunctionRow>(plan_of(name, Mode::Fuzzy, false)), answers, outcome),
    ensures
        reads(
            named_rows(answers, Table::Functions, name, ""@, 100),
            function_fault(),
            function_record(answers),
            outcome,
        ),
{
    let plan = plan_of(name, Mode::Fuzzy, false);
    let all = |row: FunctionRow| true;
    let rows = named_rows(answers, Table::Functions, name, ""@, 100);
    lemma_function_record(plan, answers);
    lemma_search_reads::<FunctionRow>(
        plan,
        answers,
        outcome,
        all,
        function_fault(),
        function_record(answers),
    );
    lemma_filter_all(rows, all);
}

proof fn lemma_filter_all<S>(rows: Seq<S>, all: spec_fn(S) -> bool)
    requires
        forall|row: S| #[trigger] all(row),
    ensures
        rows.filter(all) == rows,
    decreases rows.len(),
{
    reveal(Seq::filter);
    if rows.len() > 0 {
        lemma_filter_all(rows.drop_last(), all);
        assert(all(rows.last()));
        assert(rows.drop_last().push(rows.last()) =~= rows);
    } else {
        assert(rows.filter(all) =~= rows);
    }
}

/// A search for functions by a pattern hands out those of the rows that the database finds
/// whose name the pattern is found in, upper and lower case taken as the same.
pub proof fn law_functions_by_pattern(
    pattern: Seq<char>,
    answers: Answers<FunctionRow>,
    outcome: Outcome<FunctionInfoView>,
)
    requires
        ends(search_start::<FunctionRow>(plan_of(pattern, Mode::Regex, false)), answers, outcome),
    ensures
        reads(
            pattern_rows(answers, Table::Functions, pattern).filter(
                |row: FunctionRow| matches_ignoring_case(pattern, row.name@),
            ),
            function_fault(),
            function_record(answers),
            outcome,
        ),
{
    let plan = plan_of(pattern, Mode::Regex, false);
    lemma_function_record(plan, answers);
    lemma_search_reads::<FunctionRow>(
        plan,
        answers,
        outcome,
        |row: FunctionRow| matches_ignoring_case(pattern, row.name@),
        function_fault(),
        function_record(answers),
    );
}

/// A search for functions by name at a commit hands out those of exactly the name, or, where
/// there are none, those with it as part of the name, in the versions that their files have at
/// the commit.
pub proof fn law_functions_by_name_at_commit(
    name: Seq<char>,
    answers: Answers<FunctionRow>,
    outcome: Outcome<FunctionInfoView>,
)
    requires
        ends(search_start::<FunctionRow>(plan_of(name, Mode::Fuzzy, true)), answers, outcome),
    ensures
        reads_at_commit(
            named_rows(answers, Table::Functions, name, ""@, 1000),
            |row: FunctionRow| row.file_path@,
            answers.hashes,
            |hashes: Seq<Seq<char>>|
                named_file_rows(answers, Table::Functions, name, ""@, hashes),
            |row: FunctionRow| true,
            function_fault(),
            function_record(answers),
            outcome,
        ),
{
    let plan = plan_of(name, Mode::Fuzzy, true);
    let ask = |hashes: Seq<Seq<char>>|
        named_file_rows(answers, Table::Functions, name, ""@, hashes);
    lemma_function_record(plan, answers);
    assert forall|part: Seq<Seq<char>>| #[trigger] ask(part) == (answers.rows)(
        (QueryView {
            table: Table::Functions,
            filter: chunk_filter(
                plan,
                false,
                exact_answers::<FunctionRow>(plan, answers),
                part,
            ),
            limit: chunk_limit(plan),
        }),
    ) by {
        lemma_name_chunk(plan, answers, Table::Functions, part);
    }
    lemma_search_reads_at_commit::<FunctionRow>(
        plan,
        answers,
        outcome,
        |row: FunctionRow| row.file_path@,
        ask,
        |row: FunctionRow| true,
        function_fault(),
        function_record(answers),
    );
}

/// The condition for rows of files by name, where not only type definitions are asked for.
proof fn lemma_name_chunk<S: Symbol>(
    plan: PlanView,
    answers: Answers<S>,
    table: Table,
    part: Seq<Seq<char>>,
)
    requires
        plan.mode == Mode::Fuzzy,
        plan.git_aware,
        table == S::table_spec(),
        !S::typedefs_spec(),
    ensures
        named_file_rows(answers, table, plan.pattern, ""@, part) == (answers.rows)(
            (QueryView {
                table,
                filter: chunk_filter(plan, false, exact_answers::<S>(plan, answers), part),
                limit: chunk_limit(plan),
            }),
        ),
{
    reveal_strlit("");
    reveal_strlit(")");
    reveal_strlit(" AND name = '");
    reveal_strlit(") AND name = '");
    reveal_strlit(" AND name LIKE '%");
    reveal_strlit(") AND name LIKE '%");
    let exact = exact_answers::<S>(plan, answers);
    let filter = "("@ + hash_condition(part) + ")"@ + ""@ + name_condition(
        answers,
        table,
        plan.pattern,
        ""@,
    );
    lemma_hash_condition(part);
    assert(exact == (asked(
        answers,
        table,
        "name = '"@ + escaped(plan.pattern) + "'"@ + ""@,
        Some(1000),
    ).len() > 0));
    assert(filter =~= chunk_filter(plan, false, exact, part));
}

proof fn lemma_hash_condition(part: Seq<Seq<char>>)
    ensures
        hash_condition(part) == crate::database::search::hashes_filter(part),
{
    assert(part.map_values(|hash: Seq<char>| "git_file_hash"@ + " = '"@ + hash + "'"@)
        =~= part.map_values(
        |value: Seq<char>|
            crate::database::conditions::equals("git_file_hash"@, value, false),
    ));
}

/// A search for functions by a pattern at a commit hands out all functions, in the versions
/// that the files of those that the pattern finds have at the commit, whose name the pattern is
/// found in, upper and lower case taken as the same. A pattern that cannot be compiled finds
/// none.
pub proof fn law_functions_by_pattern_at_commit(
    pattern: Seq<char>,
    answers: Answers<FunctionRow>,
    outcome: Outcome<FunctionInfoView>,
)
    requires
        ends(search_start::<FunctionRow>(plan_of(pattern, Mode::Regex, true)), answers, outcome),
    ensures
        if refusal(pattern) is Some {
            outcome == Outcome::<FunctionInfoView>::Ok(seq![])
        } else {
            reads_at_commit(
                pattern_rows(answers, Table::Functions, pattern),
                |row: FunctionRow| row.file_path@,
                answers.hashes,
                |hashes: Seq<Seq<char>>| file_rows(answers, Table::Functions, hashes),
                |row: FunctionRow| matches_ignoring_case(pattern, row.name@),
                function_fault(),
                function_record(answers),
                outcome,
            )
        },
{
    let plan = plan_of(pattern, Mode::Regex, true);
    if refusal(pattern) is Some {
        lemma_one_outcome::<FunctionRow>(plan, answers, outcome);
    } else {
        let ask = |hashes: Seq<Seq<char>>| file_rows(answers, Table::Functions, hashes);
        lemma_function_record(plan, answers);
        assert forall|part: Seq<Seq<char>>| #[trigger] ask(part) == (answers.rows)(
            (QueryView {
                table: Table::Functions,
                filter: chunk_filter(
                    plan,
                    false,
                    exact_answers::<FunctionRow>(plan, answers),
                    part,
                ),
                limit: chunk_limit(plan),
            }),
        ) by {
            lemma_hash_condition(part);
        }
        lemma_search_reads_at_commit::<FunctionRow>(
            plan,
            answers,
            outcome,
            |row: FunctionRow| row.file_path@,
            ask,
            |row: FunctionRow| matches_ignoring_case(pattern, row.name@),
            function_fault(),
            function_record(answers),
        );
    }
}

/// What is wrong with a row of types, if anything.
pub open spec fn type_fault() -> spec_fn(TypeRow) -> Option<Seq<char>> {
    |row: TypeRow| text_or_none(row.fault)
}

/// The type that a row stands for, with the definition that is kept for it.
pub open spec fn type_record(answers: Answers<TypeRow>) -> spec_fn(TypeRow) -> TypeInfoView {
    |row: TypeRow|
        TypeInfoView {
            name: row.name@,
            file_path: row.file_path@,
            git_file_hash: row.git_file_hash@,
            line_start: row.line as u32,
            kind: row.kind@,
            size: match row.size {
                Some(size) => Some(size as u64),
                None => None,
            },
            members: row.fields@,
            definition: kept_under(answers, row.definition_hash),
            types: None,
        }
}

proof fn lemma_type_record(plan: PlanView, answers: Answers<TypeRow>)
    ensures
        forall|row: TypeRow|
            type_record(answers)(row) == (#[trigger] row.info_spec(plan, kept_text(row, answers))),
        forall|row: TypeRow| type_fault()(row) == #[trigger] row.fault_spec(),
{
    assert forall|row: TypeRow|
        type_record(answers)(row) == (#[trigger] row.info_spec(
        plan,
        kept_text(row, answers),
    )) by {
        assert(kept_text(row, answers) == kept_under(answers, row.definition_hash));
    }
}

/// A search for types by name hands out those of exactly the name, or, where there are none,
/// those with it as part of the name: one for each row that the database finds.
pub proof fn law_types_by_name(
    name: Seq<char>,
    answers: Answers<TypeRow>,
    outcome: Outcome<TypeInfoView>,
)
    requires
        ends(search_start::<TypeRow>(plan_of(name, Mode::Fuzzy, false)), answers, outcome),
    ensures
        reads(
            named_rows(answers, Table::Types, name, ""@, 100),
            type_fault(),
            type_record(answers),
            outcome,
        ),
{
    let plan = plan_of(name, Mode::Fuzzy, false);
    let all = |row: TypeRow| true;
    lemma_type_record(plan, answers);
    lemma_search_reads::<TypeRow>(
        plan,
        answers,
        outcome,
        all,
        type_fault(),
        type_record(answers),
    );
    lemma_filter_all(named_rows(answers, Table::Types, name, ""@, 100), all);
}

/// A search for types of a kind hands out one for each row of that kind that the database
/// finds.
pub proof fn law_types_by_kind(
    kind: Seq<char>,
    answers: Answers<TypeRow>,
    outcome: Outcome<TypeInfoView>,
)
    requires
        ends(search_start::<TypeRow>(plan_of(kind, Mode::Kind, false)), answers, outcome),
    ensures
        reads(
            asked(answers, Table::Types, "kind = '"@ + escaped(kind) + "'"@, Some(100)),
            type_fault(),
            type_record(answers),
            outcome,
        ),
{
    let plan = plan_of(kind, Mode::Kind, false);
    let all = |row: TypeRow| true;
    lemma_type_record(plan, answers);
    lemma_search_reads::<TypeRow>(
        plan,
        answers,
        outcome,
        all,
        type_fault(),
        type_record(answers),
    );
    lemma_filter_all(
        asked(answers, Table::Types, "kind = '"@ + escaped(kind) + "'"@, Some(100)),
        all,
    );
}

/// A search for types by a pattern hands out those of the rows that the database finds for the
/// pattern that are no type definitions.
pub proof fn law_types_by_pattern(
    pattern: Seq<char>,
    answers: Answers<TypeRow>,
    outcome: Outcome<TypeInfoView>,
)
    requires
        ends(search_start::<TypeRow>(plan_of(pattern, Mode::Regex, false)), answers, outcome),
    ensures
        reads(
            pattern_rows(answers, Table::Types, pattern).filter(
                |row: TypeRow| row.kind@ != "typedef"@,
            ),
            type_fault(),
            type_record(answers),
            outcome,
        ),
{
    let plan = plan_of(pattern, Mode::Regex, false);
    lemma_type_record(plan, answers);
    lemma_search_reads::<TypeRow>(
        plan,
        answers,
        outcome,
        |row: TypeRow| row.kind@ != "typedef"@,
        type_fault(),
        type_record(answers),
    );
}

/// A search for types by name at a commit hands out those of exactly the name, or, where there
/// are none, those with it as part of the name, in the versions that their files have at the
/// commit.
pub proof fn law_types_by_name_at_commit(
    name: Seq<char>,
    answers: Answers<TypeRow>,
    outcome: Outcome<TypeInfoView>,
)
    requires
        ends(search_start::<TypeRow>(plan_of(name, Mode::Fuzzy, true)), answers, outcome),
    ensures
        reads_at_commit(
            named_rows(answers, Table::Types, name, ""@, 1000),
            |row: TypeRow| row.file_path@,
            answers.hashes,
            |hashes: Seq<Seq<char>>| named_file_rows(answers, Table::Types, name, ""@, hashes),
            |row: TypeRow| true,
            type_fault(),
            type_record(answers),
            outcome,
        ),
{
    let plan = plan_of(name, Mode::Fuzzy, true);
    let ask = |hashes: Seq<Seq<char>>| named_file_rows(answers, Table::Types, name, ""@, hashes);
    lemma_type_record(plan, answers);
    assert forall|part: Seq<Seq<char>>| #[trigger] ask(part) == (answers.rows)(
        (QueryView {
            table: Table::Types,
            filter: chunk_filter(plan, false, exact_answers::<TypeRow>(plan, answers), part),
            limit: chunk_limit(plan),
        }),
    ) by {
        lemma_name_chunk(plan, answers, Table::Types, part);
    }
    lemma_search_reads_at_commit::<TypeRow>(
        plan,
        answers,
        outcome,
        |row: TypeRow| row.file_path@,
        ask,
        |row: TypeRow| true,
        type_fault(),
        type_record(answers),
    );
}

/// A search for types by a pattern at a commit hands out all types that are no type
/// definitions, in the versions that the files of those that the pattern finds have at the
/// commit, whose name the pattern is found in, upper and lower case taken as the same.
pub proof fn law_types_by_pattern_at_commit(
    pattern: Seq<char>,
    answers: Answers<TypeRow>,
    outcome: Outcome<TypeInfoView>,
)
    requires
        ends(search_start::<TypeRow>(plan_of(pattern, Mode::Regex, true)), answers, outcome),
    ensures
        reads_at_commit(
            pattern_rows(answers, Table::Types, pattern),
            |row: TypeRow| row.file_path@,
            answers.hashes,
            |hashes: Seq<Seq<char>>| file_rows(answers, Table::Types, hashes),
            |row: TypeRow|
                row.kind@ != "typedef"@ && matches_ignoring_case(pattern, row.name@),
            type_fault(),
            type_record(answers),
            outcome,
        ),
{
    let plan = plan_of(pattern, Mode::Regex, true);
    let ask = |hashes: Seq<Seq<char>>| file_rows(answers, Table::Types, hashes);
    lemma_type_record(plan, answers);
    assert forall|part: Seq<Seq<char>>| #[trigger] ask(part) == (answers.rows)(
        (QueryView {
            table: Table::Types,
            filter: chunk_filter(plan, false, exact_answers::<TypeRow>(plan, answers), part),
            limit: chunk_limit(plan),
        }),
    ) by {
        lemma_hash_condition(part);
    }
    lemma_search_reads_at_commit::<TypeRow>(
        plan,
        answers,
        outcome,
        |row: TypeRow| row.file_path@,
        ask,
        |row: TypeRow| row.kind@ != "typedef"@ && matches_ignoring_case(pattern, row.name@),
        type_fault(),
        type_record(answers),
    );
}

/// Whether a name in which a pattern is found is all that a search hands out.
pub open spec fn names_match(pattern: Seq<char>, names: Seq<Seq<char>>) -> bool {
    forall|k: int| 0 <= k < names.len() ==> matches_ignoring_case(pattern, #[trigger] names[k])
}

proof fn lemma_read_fit<S, V>(
    first: Seq<S>,
    path: spec_fn(S) -> Seq<char>,
    hashes_of: spec_fn(Seq<Seq<char>>) -> Option<Seq<Seq<char>>>,
    ask: spec_fn(Seq<Seq<char>>) -> Seq<S>,
    keep: spec_fn(S) -> bool,
    fault: spec_fn(S) -> Option<Seq<char>>,
    record: spec_fn(S) -> V,
    found: Seq<V>,
    good: spec_fn(V) -> bool,
)
    requires
        reads_at_commit(first, path, hashes_of, ask, keep, fault, record, Ok(found)),
        forall|row: S| keep(row) ==> good(#[trigger] record(row)),
    ensures
        forall|k: int| 0 <= k < found.len() ==> good(#[trigger] found[k]),
{
    if first.len() > 0 {
        let paths = choose|paths: Seq<Seq<char>>| #[trigger]
            are_files(paths, first, path) && match hashes_of(paths) {
                None => Outcome::<V>::Ok(found) == Outcome::<V>::Ok(seq![]),
                Some(hashes) => exists|parts: Seq<Seq<Seq<char>>>| #[trigger]
                    are_parts(parts, hashes) && reads(
                        concatenated(
                            parts.map_values(|part: Seq<Seq<char>>| ask(part).filter(keep)),
                        ),
                        fault,
                        record,
                        Outcome::<V>::Ok(found),
                    ),
            };
        if let Some(hashes) = hashes_of(paths) {
            let parts = choose|parts: Seq<Seq<Seq<char>>>| #[trigger]
                are_parts(parts, hashes) && reads(
                    concatenated(
                        parts.map_values(|part: Seq<Seq<char>>| ask(part).filter(keep)),
                    ),
                    fault,
                    record,
                    Outcome::<V>::Ok(found),
                );
            let lists = parts.map_values(|part: Seq<Seq<char>>| ask(part).filter(keep));
            let rows = concatenated(lists);
            assert forall|k: int| 0 <= k < found.len() implies good(#[trigger] found[k]) by {
                let row = rows[k];
                assert(found[k] == record(row));
                assert(rows.contains(row));
                crate::database::index_laws::lemma_concatenated_contains(lists, row);
                let p = choose|p: int| 0 <= p < lists.len() && (#[trigger] lists[p]).contains(row);
                let q = choose|q: int| 0 <= q < lists[p].len() && lists[p][q] == row;
                ask(parts[p]).lemma_filter_pred(keep, q);
                assert(keep(row));
            }
        }
    }
}

/// Every function, type or type definition that a search by a pattern at a commit hands out
/// has a name in which the pattern is found, upper and lower case taken as the same.
pub proof fn law_names_match(
    pattern: Seq<char>,
    functions: Answers<FunctionRow>,
    types: Answers<TypeRow>,
    typedefs: Answers<TypedefRow>,
)
    ensures
        forall|found: Seq<FunctionInfoView>| #[trigger]
            ends(
                search_start::<FunctionRow>(plan_of(pattern, Mode::Regex, true)),
                functions,
                Ok(found),
            ) ==> names_match(pattern, found.map_values(|f: FunctionInfoView| f.name)),
        forall|found: Seq<TypeInfoView>| #[trigger]
            ends(
                search_start::<TypeRow>(plan_of(pattern, Mode::Regex, true)),
                types,
                Ok(found),
            ) ==> names_match(pattern, found.map_values(|t: TypeInfoView| t.name)),
        forall|found: Seq<TypedefInfoView>| #[trigger]
            ends(
                search_start::<TypedefRow>(plan_of(pattern, Mode::Regex, true)),
                typedefs,
                Ok(found),
            ) ==> names_match(pattern, found.map_values(|t: TypedefInfoView| t.name)),
{
    assert forall|found: Seq<FunctionInfoView>| #[trigger]
        ends(
            search_start::<FunctionRow>(plan_of(pattern, Mode::Regex, true)),
            functions,
            Ok(found),
        ) implies names_match(pattern, found.map_values(|f: FunctionInfoView| f.name)) by {
        law_functions_by_pattern_at_commit(pattern, functions, Ok(found));
        if refusal(pattern) is None {
            let good = |f: FunctionInfoView| matches_ignoring_case(pattern, f.name);
            lemma_read_fit(
                pattern_rows(functions, Table::Functions, pattern),
                |row: FunctionRow| row.file_path@,
                functions.hashes,
                |hashes: Seq<Seq<char>>| file_rows(functions, Table::Functions, hashes),
                |row: FunctionRow| matches_ignoring_case(pattern, row.name@),
                function_fault(),
                function_record(functions),
                found,
                good,
            );
            let names = found.map_values(|f: FunctionInfoView| f.name);
            assert forall|k: int| 0 <= k < names.len() implies matches_ignoring_case(
                pattern,
                #[trigger] names[k],
            ) by {
                assert(good(found[k]));
            }
        }
    }
    assert forall|found: Seq<TypeInfoView>| #[trigger]
        ends(
            search_start::<TypeRow>(plan_of(pattern, Mode::Regex, true)),
            types,
            Ok(found),
        ) implies names_match(pattern, found.map_values(|t: TypeInfoView| t.name)) by {
        law_types_by_pattern_at_commit(pattern, types, Ok(found));
        let good = |t: TypeInfoView| matches_ignoring_case(pattern, t.name);
        lemma_read_fit(
            pattern_rows(types, Table::Types, pattern),
            |row: TypeRow| row.file_path@,
            types.hashes,
            |hashes: Seq<Seq<char>>| file_rows(types, Table::Types, hashes),
            |row: TypeRow|
                row.kind@ != "typedef"@ && matches_ignoring_case(pattern, row.name@),
            type_fault(),
            type_record(types),
            found,
            good,
        );
        let names = found.map_values(|t: TypeInfoView| t.name);
        assert forall|k: int| 0 <= k < names.len() implies matches_ignoring_case(
            pattern,
            #[trigger] names[k],
        ) by {
            assert(good(found[k]));
        }
    }
    assert forall|found: Seq<TypedefInfoView>| #[trigger]
        ends(
            search_start::<TypedefRow>(plan_of(pattern, Mode::Regex, true)),
            typedefs,
            Ok(found),
        ) implies names_match(pattern, found.map_values(|t: TypedefInfoView| t.name)) by {
        law_typedefs_by_pattern_at_commit(pattern, typedefs, Ok(found));
        let good = |t: TypedefInfoView| matches_ignoring_case(pattern, t.name);
        lemma_read_fit(
            pattern_rows(typedefs, Table::Types, pattern),
            |row: TypedefRow| row.row.file_path@,
            typedefs.hashes,
            |hashes: Seq<Seq<char>>| file_rows(typedefs, Table::Types, hashes),
            |row: TypedefRow|
                row.row.kind@ == "typedef"@ && matches_ignoring_case(pattern, row.row.name@),
            |row: TypedefRow| None,
            whole_typedef_record(typedefs),
            found,
            good,
        );
        let names = found.map_values(|t: TypedefInfoView| t.name);
        assert forall|k: int| 0 <= k < names.len() implies matches_ignoring_case(
            pattern,
            #[trigger] names[k],
        ) by {
            assert(good(found[k]));
        }
    }
}

/// A type definition whose definition starts with a line that tells the underlying type has
/// that type, and the rest as its definition; of another the underlying type is not known, and
/// the definition is kept whole.
pub proof fn law_underlying_type(definition: Seq<char>)
    ensures
        forall|underlying: Seq<char>, rest: Seq<char>|
            !underlying.contains('\n') && definition == #[trigger] ("// Underlying type: "@
                + underlying + "\n"@ + rest) ==> split_definition(definition) == (
                underlying,
                rest,
            ),
        (forall|underlying: Seq<char>, rest: Seq<char>|
            definition != #[trigger] ("// Underlying type: "@ + underlying + "\n"@ + rest))
            ==> split_definition(definition) == ("unknown"@, definition),
{
    reveal_strlit("// Underlying type: ");
    reveal_strlit("\n");
    let mark = "// Underlying type: "@;
    let end = first_of(definition, '\n');
    lemma_first_of(definition, '\n');
    assert forall|underlying: Seq<char>, rest: Seq<char>|
        !underlying.contains('\n') && definition == #[trigger] (mark + underlying + "\n"@
            + rest) implies split_definition(definition) == (underlying, rest) by {
        let at = mark.len() + underlying.len();
        assert(definition[at as int] == '\n');
        assert forall|i: int| 0 <= i < at implies definition[i] != '\n' by {
            if i >= mark.len() {
                assert(definition[i] == underlying[i - mark.len()]);
                assert(underlying.contains(underlying[i - mark.len()]));
            } else {
                assert(definition[i] == mark[i]);
            }
        }
        assert(end == at);
        assert(definition.take(mark.len() as int) =~= mark);
        assert(definition.subrange(mark.len() as int, end) =~= underlying);
        assert(definition.skip(end + 1) =~= rest);
    }
    if crate::text::has_prefix(definition, mark) && end < definition.len() {
        assert(end >= mark.len()) by {
            if end < mark.len() {
                assert(definition.take(mark.len() as int)[end] == mark[end]);
            }
        }
        let underlying = definition.subrange(mark.len() as int, end);
        let rest = definition.skip(end + 1);
        assert(definition =~= mark + underlying + "\n"@ + rest) by {
            assert forall|i: int| 0 <= i < mark.len() implies definition[i] == mark[i] by {
                assert(definition.take(mark.len() as int)[i] == definition[i]);
            }
        }
    }
}

/// The type definition that a row stands for, with what its definition tells.
pub open spec fn typedef_record(answers: Answers<TypedefRow>) -> spec_fn(
    TypedefRow,
) -> TypedefInfoView {
    |row: TypedefRow|
        {
            let parts = split_definition(kept_under(answers, row.row.definition_hash));
            TypedefInfoView {
                name: row.row.name@,
                file_path: row.row.file_path@,
                git_file_hash: row.row.git_file_hash@,
                line_start: row.row.line as u32,
                underlying_type: parts.0,
                definition: parts.1,
            }
        }
}

/// The type definition that a row stands for, with its definition as it is kept.
pub open spec fn whole_typedef_record(answers: Answers<TypedefRow>) -> spec_fn(
    TypedefRow,
) -> TypedefInfoView {
    |row: TypedefRow|
        TypedefInfoView {
            name: row.row.name@,
            file_path: row.row.file_path@,
            git_file_hash: row.row.git_file_hash@,
            line_start: row.row.line as u32,
            underlying_type: "unknown"@,
            definition: kept_under(answers, row.row.definition_hash),
        }
}

proof fn lemma_typedef_text(answers: Answers<TypedefRow>)
    ensures
        forall|row: TypedefRow|
            kept_under(answers, row.row.definition_hash) == #[trigger] kept_text(row, answers),
{
}

/// A search for type definitions by name hands out, of the rows of exactly the name, or, where
/// there are none, with it as part of the name, those that are type definitions.
pub proof fn law_typedefs_by_name(
    name: Seq<char>,
    answers: Answers<TypedefRow>,
    outcome: Outcome<TypedefInfoView>,
)
    requires
        ends(search_start::<TypedefRow>(plan_of(name, Mode::Fuzzy, false)), answers, outcome),
    ensures
        reads(
            named_rows(answers, Table::Types, name, " AND kind = 'typedef'"@, 100).filter(
                |row: TypedefRow| row.row.kind@ == "typedef"@,
            ),
            |row: TypedefRow| None,
            typedef_record(answers),
            outcome,
        ),
{
    let plan = plan_of(name, Mode::Fuzzy, false);
    lemma_typedef_text(answers);
    lemma_search_reads::<TypedefRow>(
        plan,
        answers,
        outcome,
        |row: TypedefRow| row.row.kind@ == "typedef"@,
        |row: TypedefRow| None,
        typedef_record(answers),
    );
}

/// A search for type definitions by a pattern hands out those of the rows that the database
/// finds for the pattern that are type definitions.
pub proof fn law_typedefs_by_pattern(
    pattern: Seq<char>,
    answers: Answers<TypedefRow>,
    outcome: Outcome<TypedefInfoView>,
)
    requires
        ends(search_start::<TypedefRow>(plan_of(pattern, Mode::Regex, false)), answers, outcome),
    ensures
        reads(
            pattern_rows(answers, Table::Types, pattern).filter(
                |row: TypedefRow| row.row.kind@ == "typedef"@,
            ),
            |row: TypedefRow| None,
            typedef_record(answers),
            outcome,
        ),
{
    let plan = plan_of(pattern, Mode::Regex, false);
    lemma_typedef_text(answers);
    lemma_search_reads::<TypedefRow>(
        plan,
        answers,
        outcome,
        |row: TypedefRow| row.row.kind@ == "typedef"@,
        |row: TypedefRow| None,
        typedef_record(answers),
    );
}

/// A search for type definitions by name at a commit hands out those of exactly the name, or,
/// where there are none, those with it as part of the name, in the versions that their files
/// have at the commit.
pub proof fn law_typedefs_by_name_at_commit(
    name: Seq<char>,
    answers: Answers<TypedefRow>,
    outcome: Outcome<TypedefInfoView>,
)
    requires
        ends(search_start::<TypedefRow>(plan_of(name, Mode::Fuzzy, true)), answers, outcome),
    ensures
        reads_at_commit(
            named_rows(answers, Table::Types, name, " AND kind = 'typedef'"@, 1000),
            |row: TypedefRow| row.row.file_path@,
            answers.hashes,
            |hashes: Seq<Seq<char>>|
                named_file_rows(answers, Table::Types, name, " AND kind = 'typedef'"@, hashes),
            |row: TypedefRow| true,
            |row: TypedefRow| None,
            typedef_record(answers),
            outcome,
        ),
{
    let plan = plan_of(name, Mode::Fuzzy, true);
    let ending = " AND kind = 'typedef'"@;
    let ask = |hashes: Seq<Seq<char>>|
        named_file_rows(answers, Table::Types, name, ending, hashes);
    let exact = exact_answers::<TypedefRow>(plan, answers);
    lemma_typedef_text(answers);
    assert forall|part: Seq<Seq<char>>| #[trigger] ask(part) == (answers.rows)(
        (QueryView {
            table: Table::Types,
            filter: chunk_filter(plan, true, exact, part),
            limit: chunk_limit(plan),
        }),
    ) by {
        reveal_strlit(")");
        reveal_strlit(" AND kind = 'typedef'");
        reveal_strlit(") AND kind = 'typedef'");
        lemma_hash_condition(part);
        let filter = "("@ + hash_condition(part) + ")"@ + ending + name_condition(
            answers,
            Table::Types,
            name,
            ending,
        );
        assert(filter =~= chunk_filter(plan, true, exact, part));
    }
    lemma_search_reads_at_commit::<TypedefRow>(
        plan,
        answers,
        outcome,
        |row: TypedefRow| row.row.file_path@,
        ask,
        |row: TypedefRow| true,
        |row: TypedefRow| None,
        typedef_record(answers),
    );
}

/// A search for type definitions by a pattern at a commit hands out all type definitions, in
/// the versions that the files of those that the pattern finds have at the commit, whose name
/// the pattern is found in, upper and lower case taken as the same.
pub proof fn law_typedefs_by_pattern_at_commit(
    pattern: Seq<char>,
    answers: Answers<TypedefRow>,
    outcome: Outcome<TypedefInfoView>,
)
    requires
        ends(search_start::<TypedefRow>(plan_of(pattern, Mode::Regex, true)), answers, outcome),
    ensures
        reads_at_commit(
            pattern_rows(answers, Table::Types, pattern),
            |row: TypedefRow| row.row.file_path@,
            answers.hashes,
            |hashes: Seq<Seq<char>>| file_rows(answers, Table::Types, hashes),
            |row: TypedefRow|
                row.row.kind@ == "typedef"@ && matches_ignoring_case(pattern, row.row.name@),
            |row: TypedefRow| None,
            whole_typedef_record(answers),
            outcome,
        ),
{
    let plan = plan_of(pattern, Mode::Regex, true);
    let ask = |hashes: Seq<Seq<char>>| file_rows(answers, Table::Types, hashes);
    lemma_typedef_text(answers);
    assert forall|part: Seq<Seq<char>>| #[trigger] ask(part) == (answers.rows)(
        (QueryView {
            table: Table::Types,
            filter: chunk_filter(plan, true, exact_answers::<TypedefRow>(plan, answers), part),
            limit: chunk_limit(plan),
        }),
    ) by {
        lemma_hash_condition(part);
    }
    lemma_search_reads_at_commit::<TypedefRow>(
        plan,
        answers,
        outcome,
        |row: TypedefRow| row.row.file_path@,
        ask,
        |row: TypedefRow|
            row.row.kind@ == "typedef"@ && matches_ignoring_case(pattern, row.row.name@),
        |row: TypedefRow| None,
        whole_typedef_record(answers),
    );
}

} // verus!
