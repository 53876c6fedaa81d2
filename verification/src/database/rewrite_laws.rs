//! What the table of edges holds after it was sorted, whatever order the database reads in.

use vstd::prelude::*;

use crate::database::edge_laws::{merging_end, writes, written_rows};
use crate::database::edge_rewrite::{
    merging_counted, merging_next, merging_read, rows_with_versions, staging_next, staging_read,
    MergingView, SortStepView, StagingView,
};
use crate::database::edge_sort::{
    all_versions, ascending_texts, bound, bound_count, collapsed, group_key, group_keys, holds,
    in_range, is_of, law_collapse_exists, lemma_all_versions, lemma_sorted_versions, range_filter,
    staged_rows, EdgeVersionView,
};
use crate::database::edges::CallEdgeView;
use crate::database::sort_laws::{hands_out, law_sort, staging_rows};
use crate::database::staging_laws::{staging_end, versions_each};
use crate::lists::concatenated;
use crate::order::{key_less, lemma_text_run_injective, text_less, text_run};
use crate::text::decimal;

verus! {

/// A database that holds the table and the staging table, and a sort that goes on in it.
#[verifier::ext_equal]
pub struct SortRun {
    pub step: SortStepView,
    pub staging: Seq<CallEdgeView>,
    pub table: Seq<CallEdgeView>,
}

/// How a database reads: the rows of a table that a condition finds.
pub type Reader = spec_fn(Seq<CallEdgeView>, Seq<char>) -> Seq<CallEdgeView>;

/// The condition that a callee lies from one text on and below another.
pub open spec fn between(from: Seq<char>, to: Seq<char>) -> Seq<char> {
    "callee >= '"@ + from + "' AND callee < '"@ + to + "'"@
}

/// The condition that a callee lies from a text on.
pub open spec fn onward(from: Seq<char>) -> Seq<char> {
    "callee >= '"@ + from + "'"@
}

/// Whether a database reads rows as conditions on the callee ask for them, each as often as
/// the table holds it, in any order.
pub open spec fn reads_callees(reader: Reader) -> bool {
    &&& forall|table: Seq<CallEdgeView>, from: Seq<char>, to: Seq<char>|
        !from.contains('\'') && !to.contains('\'') ==> (#[trigger] reader(
            table,
            between(from, to),
        )).to_multiset() == table.to_multiset().filter(
            |edge: CallEdgeView| !text_less(edge.callee, from) && text_less(edge.callee, to),
        )
    &&& forall|table: Seq<CallEdgeView>, from: Seq<char>|
        !from.contains('\'') ==> (#[trigger] reader(table, onward(from))).to_multiset()
            == table.to_multiset().filter(
            |edge: CallEdgeView| !text_less(edge.callee, from),
        )
}

/// The sort after what its step asks for was done.
pub open spec fn done(run: SortRun, reader: Reader) -> SortRun {
    match run.step {
        SortStepView::Prepare(s) => SortRun {
            step: SortStepView::ReadSource(s),
            staging: seq![],
            ..run
        },
        SortStepView::ReadSource(s) => SortRun {
            step: staging_read(s, reader(run.table, range_filter(s.range as int))),
            ..run
        },
        SortStepView::AppendStaging(s, rows) => SortRun {
            step: staging_next(s),
            staging: run.staging + rows,
            ..run
        },
        SortStepView::ReadStaging(m) => SortRun {
            step: merging_read(m, reader(run.staging, range_filter(m.range as int))),
            ..run
        },
        SortStepView::Write(m, rows, replace) => SortRun {
            step: merging_next(m),
            table: if replace {
                rows
            } else {
                run.table + rows
            },
            ..run
        },
        SortStepView::CountSorted(m) => SortRun {
            step: merging_counted(m, run.table.len()),
            ..run
        },
        _ => run,
    }
}

/// The sort after so many steps.
pub open spec fn after_steps(run: SortRun, reader: Reader, steps: nat) -> SortRun
    decreases steps,
{
    if steps == 0 {
        run
    } else {
        after_steps(done(run, reader), reader, (steps - 1) as nat)
    }
}

/// Whether a sort comes to this.
pub open spec fn comes_to(run: SortRun, reader: Reader, end: SortRun) -> bool {
    exists|steps: nat| #[trigger] after_steps(run, reader, steps) == end
}

proof fn lemma_one_step(run: SortRun, reader: Reader, end: SortRun)
    requires
        comes_to(done(run, reader), reader, end),
    ensures
        comes_to(run, reader, end),
{
    let steps = choose|steps: nat| #[trigger] after_steps(done(run, reader), reader, steps) == end;
    assert(after_steps(run, reader, (steps + 1) as nat) == end);
}

proof fn lemma_here(run: SortRun, reader: Reader)
    ensures
        comes_to(run, reader, run),
{
    assert(after_steps(run, reader, 0) == run);
}

proof fn lemma_further(run: SortRun, reader: Reader, middle: SortRun, end: SortRun)
    requires
        comes_to(run, reader, middle),
        comes_to(middle, reader, end),
    ensures
        comes_to(run, reader, end),
{
    let a = choose|a: nat| #[trigger] after_steps(run, reader, a) == middle;
    let b = choose|b: nat| #[trigger] after_steps(middle, reader, b) == end;
    lemma_steps_add(run, reader, a, b);
    assert(after_steps(run, reader, a + b) == end);
}

proof fn lemma_steps_add(run: SortRun, reader: Reader, a: nat, b: nat)
    ensures
        after_steps(run, reader, a + b) == after_steps(after_steps(run, reader, a), reader, b),
    decreases a,
{
    if a > 0 {
        lemma_steps_add(done(run, reader), reader, (a - 1) as nat, b);
    }
}

/// What a table hands out range by range.
spec fn ranges(table: Seq<CallEdgeView>, reader: Reader) -> Seq<Seq<CallEdgeView>> {
    Seq::new(bound_count(), |i: int| reader(table, range_filter(i)))
}

proof fn lemma_ranges(table: Seq<CallEdgeView>, reader: Reader)
    requires
        reads_callees(reader),
    ensures
        hands_out(table, ranges(table, reader)),
{
    broadcast use vstd::multiset::group_multiset_axioms;

    let reads = ranges(table, reader);
    assert forall|i: int| 0 <= i < reads.len() implies (#[trigger] reads[i]).to_multiset()
        == table.to_multiset().filter(|edge: CallEdgeView| in_range(edge.callee, i)) by {
        let from = bound(i);
        let to = bound(i + 1);
        assert(!from.contains('\''));
        let all = table.to_multiset();
        if i + 1 < bound_count() {
            assert(!to.contains('\''));
            assert(range_filter(i) == between(from, to));
            let p = |edge: CallEdgeView|
                !text_less(edge.callee, from) && text_less(edge.callee, to);
            assert(reads[i] == reader(table, between(from, to)));
            assert(all.filter(p) =~= all.filter(|edge: CallEdgeView| in_range(edge.callee, i)));
        } else {
            assert(range_filter(i) == onward(from));
            let p = |edge: CallEdgeView| !text_less(edge.callee, from);
            assert(reads[i] == reader(table, onward(from)));
            assert(all.filter(p) =~= all.filter(|edge: CallEdgeView| in_range(edge.callee, i)));
        }
    }
}

proof fn lemma_first_pass(
    s: StagingView,
    staging: Seq<CallEdgeView>,
    table: Seq<CallEdgeView>,
    reader: Reader,
)
    requires
        s.range < bound_count(),
    ensures
        ({
            let reads = ranges(table, reader);
            comes_to(
                SortRun { step: SortStepView::ReadSource(s), staging, table },
                reader,
                SortRun {
                    step: staging_end(SortStepView::ReadSource(s), reads),
                    staging: staging + staging_rows(reads, s.range),
                    table,
                },
            )
        }),
    decreases bound_count() - s.range,
{
    let reads = ranges(table, reader);
    let edges = reads[s.range as int];
    let start = SortRun { step: SortStepView::ReadSource(s), staging, table };
    let own = staged_rows(all_versions(edges));
    let rest = staging_rows(reads, s.range + 1);
    let end = SortRun {
        step: staging_end(start.step, reads),
        staging: staging + staging_rows(reads, s.range),
        table,
    };
    let read = done(start, reader);
    let more = staging + own;
    assert(more + rest =~= end.staging);
    let after = if all_versions(edges).len() == 0 {
        s
    } else {
        StagingView {
            written: s.written + rows_with_versions(edges),
            ..s
        }
    };
    let next = SortRun { step: staging_next(after), staging: more, table };
    if all_versions(edges).len() == 0 {
        lemma_sorted_versions(all_versions(edges));
        assert(own =~= seq![]);
        assert(more =~= staging);
        assert(read == next);
    } else {
        assert(read.step == SortStepView::AppendStaging(after, own));
        assert(done(read, reader) == next);
    }
    assert(read.step == staging_read(s, edges));
    assert(staging_end(start.step, reads) == staging_end(read.step, reads));
    assert(staging_end(read.step, reads) == staging_end(next.step, reads));
    if s.range + 1 < bound_count() {
        lemma_first_pass(StagingView { range: s.range + 1, ..after }, more, table, reader);
    } else {
        assert(rest =~= seq![]);
        assert(end == next);
        lemma_here(next, reader);
    }
    if all_versions(edges).len() != 0 {
        lemma_one_step(read, reader, end);
    }
    lemma_one_step(start, reader, end);
}

/// A table after writes.
spec fn applied(table: Seq<CallEdgeView>, all: Seq<(Seq<CallEdgeView>, bool)>) -> Seq<CallEdgeView>
    decreases all.len(),
{
    if all.len() == 0 {
        table
    } else {
        applied(
            if all[0].1 {
                all[0].0
            } else {
                table + all[0].0
            },
            all.skip(1),
        )
    }
}

proof fn lemma_second_pass(
    step: SortStepView,
    staging: Seq<CallEdgeView>,
    table: Seq<CallEdgeView>,
    reader: Reader,
)
    requires
        match step {
            SortStepView::ReadStaging(m) => m.range < bound_count(),
            SortStepView::Write(m, _, _) => m.range < bound_count(),
            _ => true,
        },
    ensures
        ({
            let staged = ranges(staging, reader);
            comes_to(
                SortRun { step, staging, table },
                reader,
                SortRun {
                    step: merging_end(step, staged),
                    staging,
                    table: applied(table, writes(step, staged)),
                },
            )
        }),
    decreases
            (match step {
                SortStepView::ReadStaging(m) => 3 * (bound_count() - m.range) + 2,
                SortStepView::Write(m, _, _) => 3 * (bound_count() - m.range) + 1,
                _ => 0,
            }),
            (match step {
                SortStepView::Write(m, _, _) => m.buffer.len(),
                _ => 0,
            }),
{
    let staged = ranges(staging, reader);
    let start = SortRun { step, staging, table };
    let end = SortRun {
        step: merging_end(step, staged),
        staging,
        table: applied(table, writes(step, staged)),
    };
    match step {
        SortStepView::ReadStaging(m) => {
            let next = merging_read(m, staged[m.range as int]);
            lemma_second_pass(next, staging, table, reader);
            assert(done(start, reader) == SortRun { step: next, ..start });
            lemma_one_step(start, reader, end);
        },
        SortStepView::Write(m, rows, replace) => {
            let next = merging_next(m);
            let after = if replace {
                rows
            } else {
                table + rows
            };
            let all = writes(step, staged);
            assert(all.skip(1) =~= writes(next, staged));
            lemma_second_pass(next, staging, after, reader);
            assert(done(start, reader) == SortRun { step: next, staging, table: after });
            lemma_one_step(start, reader, end);
        },
        _ => {
            lemma_here(start, reader);
        },
    }
}

proof fn lemma_appended(table: Seq<CallEdgeView>, all: Seq<(Seq<CallEdgeView>, bool)>)
    requires
        forall|k: int| 0 <= k < all.len() ==> !(#[trigger] all[k]).1,
    ensures
        applied(table, all) == table + written_rows(all),
    decreases all.len(),
{
    let f = |write: (Seq<CallEdgeView>, bool)| write.0;
    if all.len() == 0 {
        assert(written_rows(all) =~= seq![]);
        assert(table + written_rows(all) =~= table);
    } else {
        let rest = all.skip(1);
        assert forall|k: int| 0 <= k < rest.len() implies !(#[trigger] rest[k]).1 by {
            assert(rest[k] == all[k + 1]);
        }
        lemma_appended(table + all[0].0, rest);
        lemma_first_write(all);
        assert(table + all[0].0 + written_rows(rest) =~= table + written_rows(all));
    }
}

proof fn lemma_first_write(all: Seq<(Seq<CallEdgeView>, bool)>)
    requires
        all.len() > 0,
    ensures
        written_rows(all) == all[0].0 + written_rows(all.skip(1)),
{
    let f = |write: (Seq<CallEdgeView>, bool)| write.0;
    let first = seq![all[0].0];
    assert(all.map_values(f) =~= first + all.skip(1).map_values(f));
    crate::lists::lemma_concatenated_two(first, all.skip(1).map_values(f));
    reveal_with_fuel(concatenated, 2);
    assert(first.drop_last() =~= seq![]);
    assert(concatenated(first) =~= all[0].0);
}

/// Whether a row comes before another: by the callee, then the caller, then the file, then
/// the kind.
pub open spec fn row_before(x: CallEdgeView, y: CallEdgeView) -> bool {
    ||| text_less(x.callee, y.callee)
    ||| x.callee == y.callee && text_less(x.caller, y.caller)
    ||| x.callee == y.callee && x.caller == y.caller && text_less(
        x.caller_file_path,
        y.caller_file_path,
    )
    ||| x.callee == y.callee && x.caller == y.caller && x.caller_file_path == y.caller_file_path
        && text_less(x.kind, y.kind)
}

/// Whether one of `rows` says that `caller`, in this file and version, refers to `callee`.
pub open spec fn says(
    rows: Seq<CallEdgeView>,
    callee: Seq<char>,
    caller: Seq<char>,
    path: Seq<char>,
    kind: Seq<char>,
    hash: Seq<char>,
) -> bool {
    exists|k: int|
        0 <= k < rows.len() && (#[trigger] rows[k]).callee == callee && rows[k].caller == caller
            && rows[k].caller_file_path == path && rows[k].kind == kind
            && rows[k].caller_git_file_hashes.contains(hash)
}

proof fn lemma_says(rows: Seq<CallEdgeView>, version: EdgeVersionView)
    ensures
        holds(rows, version) <==> says(
            rows,
            version.callee,
            version.caller,
            version.caller_file_path,
            version.kind,
            version.hash,
        ),
{
    if holds(rows, version) {
        let a = choose|a: int|
            0 <= a < rows.len() && is_of(version, #[trigger] rows[a])
                && rows[a].caller_git_file_hashes.contains(version.hash);
        assert(rows[a].callee == version.callee);
    }
    if says(
        rows,
        version.callee,
        version.caller,
        version.caller_file_path,
        version.kind,
        version.hash,
    ) {
        let k = choose|k: int|
            0 <= k < rows.len() && (#[trigger] rows[k]).callee == version.callee && rows[k].caller
                == version.caller && rows[k].caller_file_path == version.caller_file_path
                && rows[k].kind == version.kind && rows[k].caller_git_file_hashes.contains(
                version.hash,
            );
        assert(is_of(version, rows[k]));
    }
}

proof fn lemma_row_before(x: CallEdgeView, y: CallEdgeView)
    requires
        key_less(group_key(x), group_key(y)),
    ensures
        row_before(x, y),
{
    reveal_with_fuel(key_less, 5);
    let a = group_key(x);
    let b = group_key(y);
    assert(a.skip(1)[0] == a[1] && b.skip(1)[0] == b[1]);
    assert(a.skip(1).skip(1)[0] == a[2] && b.skip(1).skip(1)[0] == b[2]);
    assert(a.skip(1).skip(1).skip(1)[0] == a[3] && b.skip(1).skip(1).skip(1)[0] == b[3]);
    if text_run(x.callee) == text_run(y.callee) {
        lemma_text_run_injective(x.callee, y.callee);
        if text_run(x.caller) == text_run(y.caller) {
            lemma_text_run_injective(x.caller, y.caller);
            if text_run(x.caller_file_path) == text_run(y.caller_file_path) {
                lemma_text_run_injective(x.caller_file_path, y.caller_file_path);
            }
        }
    }
}

/// Whether `sorted` is a table in order: each row before those that follow it, each with one
/// version or more, the versions in order and none twice.
pub open spec fn in_callee_order(sorted: Seq<CallEdgeView>) -> bool {
    &&& forall|a: int, b: int|
        0 <= a < b < sorted.len() ==> row_before(#[trigger] sorted[a], #[trigger] sorted[b])
    &&& forall|a: int|
        0 <= a < sorted.len() ==> (#[trigger] sorted[a]).caller_git_file_hashes.len() > 0
    &&& forall|a: int, p: int, q: int|
        0 <= a < sorted.len() && 0 <= p < q < (#[trigger] sorted[a]).caller_git_file_hashes.len()
            ==> text_less(
            #[trigger] sorted[a].caller_git_file_hashes[p],
            #[trigger] sorted[a].caller_git_file_hashes[q],
        )
}

/// Whether two tables say the same: who refers to what, in which file, in which versions.
pub open spec fn say_the_same(x: Seq<CallEdgeView>, y: Seq<CallEdgeView>) -> bool {
    forall|
        callee: Seq<char>,
        caller: Seq<char>,
        path: Seq<char>,
        kind: Seq<char>,
        hash: Seq<char>,
    | #[trigger] says(x, callee, caller, path, kind, hash) <==> says(
        y,
        callee,
        caller,
        path,
        kind,
        hash,
    )
}

proof fn lemma_collapsed_says(table: Seq<CallEdgeView>)
    ensures
        in_callee_order(collapsed(all_versions(table))),
        say_the_same(table, collapsed(all_versions(table))),
{
    let versions = all_versions(table);
    let rows = collapsed(versions);
    law_collapse_exists(versions);
    assert forall|
        callee: Seq<char>,
        caller: Seq<char>,
        path: Seq<char>,
        kind: Seq<char>,
        hash: Seq<char>,
    | #[trigger] says(table, callee, caller, path, kind, hash) <==> says(
        rows,
        callee,
        caller,
        path,
        kind,
        hash,
    ) by {
        let version = EdgeVersionView { callee, caller, caller_file_path: path, kind, hash };
        lemma_says(table, version);
        lemma_says(rows, version);
        lemma_all_versions(table, version);
        assert(versions.contains(version) <==> holds(rows, version));
    }
    assert forall|a: int, b: int| 0 <= a < b < rows.len() implies row_before(
        #[trigger] rows[a],
        #[trigger] rows[b],
    ) by {
        assert(key_less(group_keys(rows)[a], group_keys(rows)[b]));
        lemma_row_before(rows[a], rows[b]);
    }
    assert forall|a: int, p: int, q: int|
        0 <= a < rows.len() && 0 <= p < q < (
        #[trigger] rows[a]).caller_git_file_hashes.len() implies text_less(
        #[trigger] rows[a].caller_git_file_hashes[p],
        #[trigger] rows[a].caller_git_file_hashes[q],
    ) by {
        assert(ascending_texts(rows[a].caller_git_file_hashes));
    }
}

/// A sort of a table of which each row has a version ends, and leaves the table in the order
/// of the callee, with the versions of each edge in one row, saying the same as before. The
/// database may read the rows of a range in any order.
pub proof fn law_table_is_sorted(table: Seq<CallEdgeView>, reader: Reader)
    requires
        reads_callees(reader),
        table.len() > 0,
        forall|k: int|
            0 <= k < table.len() ==> (#[trigger] table[k]).caller_git_file_hashes.len() > 0,
    ensures
        exists|staging: Seq<CallEdgeView>, sorted: Seq<CallEdgeView>| #[trigger]
            comes_to(
                SortRun {
                    step: SortStepView::Prepare(
                        StagingView { total: table.len(), written: 0, range: 0 },
                    ),
                    staging: seq![],
                    table,
                },
                reader,
                SortRun { step: SortStepView::DropStaging(table.len()), staging, table: sorted },
            ) && in_callee_order(sorted) && say_the_same(table, sorted),
{
    let s = StagingView { total: table.len(), written: 0, range: 0 };
    let reads = ranges(table, reader);
    let staging = staging_rows(reads, 0);
    let staged = ranges(staging, reader);
    let rows = collapsed(all_versions(table));
    lemma_ranges(table, reader);
    lemma_ranges(staging, reader);
    assert(versions_each(table));
    law_sort(table, reads, staged);
    let second = staging_end(SortStepView::ReadSource(s), reads);
    let all = writes(second, staged);
    let start = SortRun { step: SortStepView::Prepare(s), staging: seq![], table };
    let begun = SortRun { step: SortStepView::ReadSource(s), staging: seq![], table };
    let half = SortRun { step: second, staging, table };
    lemma_first_pass(s, seq![], table, reader);
    assert(seq![] + staging =~= staging);
    lemma_second_pass(second, staging, table, reader);
    lemma_collapsed_says(table);
    assert(rows.len() > 0) by {
        let hash = table[0].caller_git_file_hashes[0];
        assert(table[0].caller_git_file_hashes.contains(hash));
        assert(says(
            table,
            table[0].callee,
            table[0].caller,
            table[0].caller_file_path,
            table[0].kind,
            hash,
        ));
    }
    assert(applied(table, all) == rows) by {
        if all.len() == 0 {
            assert(written_rows(all) =~= seq![]);
        } else {
            assert(all[0].1);
            let rest = all.skip(1);
            assert forall|k: int| 0 <= k < rest.len() implies !(#[trigger] rest[k]).1 by {
                assert(rest[k] == all[k + 1]);
            }
            lemma_appended(all[0].0, rest);
            lemma_first_write(all);
        }
    }
    let counted = SortRun { step: merging_end(second, staged), staging, table: rows };
    let end = SortRun { step: SortStepView::DropStaging(table.len()), staging, table: rows };
    assert(done(counted, reader) == end);
    lemma_here(end, reader);
    lemma_one_step(counted, reader, end);
    lemma_further(half, reader, counted, end);
    lemma_further(begun, reader, half, end);
    assert(done(start, reader) == begun);
    lemma_one_step(start, reader, end);
}

/// In the second pass rows are put together until there are half a million, and then written;
/// fewer are written only after the last range. What is put together next is nothing of what
/// was written.
pub proof fn law_rows_are_flushed(merging: MergingView, edges: Seq<CallEdgeView>)
    ensures
        merging_read(merging, edges) matches SortStepView::Write(next, rows, first) ==> (rows.len()
            >= 500_000 || merging.range + 1 >= 64) && next.buffer.len() == 0 && !next.first
            && first == merging.first,
        merging_read(merging, edges) matches SortStepView::ReadStaging(next) ==> next.range
            == merging.range + 1 && next.first == merging.first && (next.buffer.len() < 500_000
            || next.buffer == merging.buffer),
{
}

/// A sort whose staging table got fewer rows than were counted, or more, fails and says how
/// many; so does one that leaves another number of rows than it has written.
pub proof fn law_lost_rows_are_told(staging: StagingView, merging: MergingView, count: nat)
    requires
        staging.range + 1 >= 64,
    ensures
        staging.written != staging.total <==> staging_next(staging) is Failed,
        staging_next(staging) matches SortStepView::Failed(message) ==> message
            == "staging call_edges lost rows: "@ + decimal(staging.written) + " of "@ + decimal(
            staging.total,
        ),
        count != merging.collapsed <==> merging_counted(merging, count) is Failed,
        merging_counted(merging, count) matches SortStepView::Failed(message) ==> message
            == "sorted call_edges has "@ + decimal(count) + " rows, expected "@ + decimal(
            merging.collapsed,
        ),
        staging.written == staging.total ==> (staging_next(
            staging,
        ) matches SortStepView::ReadStaging(next) && next.range == 0 && next.buffer.len() == 0
            && next.first && next.collapsed == 0 && next.total == staging.total),
{
}

} // verus!
