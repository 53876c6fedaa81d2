//! What holds of the table of edges.

use vstd::prelude::*;
use vstd::utf8::*;

use crate::database::edge_rewrite::{
    merging_next, merging_read, merging_start, MergingView, SortStepView, FLUSH_ROWS,
};
use crate::database::edge_sort::{
    all_versions, bound, bound_count, collapsed, in_range, law_collapse_exists,
    law_collapse_parts, leading, EdgeVersionView,
};
use crate::database::edges::{
    caller_edge, callers_filter, distinct_edges, edge_key, edge_keys, quoted_list,
    referrer_filters, CallEdgeView, KIND_CALL,
};
use crate::lists::{
    concatenated, first_places, law_first_places, lemma_concatenated_two, lemma_first_below,
};
use crate::order::{
    lemma_run_less_total, lemma_run_less_transitive, run_less, text_less, text_run,
};

verus! {

/// The run of a text of one ASCII character.
proof fn lemma_one_character(c: char)
    requires
        c < 128 as char,
    ensures
        text_run(seq![c]) == seq![c as int],
{
    let s = seq![c];
    reveal_with_fuel(encode_utf8, 2);
    assert(s.drop_first() =~= seq![]);
    let code = c as u32;
    assert(has_width_1_encoding(code));
    assert(encode_scalar(code) =~= seq![code as u8]) by {
        assert(code < 128 ==> (code & 0x7F) as u8 == code as u8) by (bit_vector);
    }
    assert(encode_utf8(s) =~= seq![code as u8]);
    assert(text_run(s) =~= seq![c as int]);
}

/// The bounds stand in order.
proof fn lemma_bounds_ascend(i: int, j: int)
    requires
        0 <= i < j < bound_count(),
    ensures
        text_less(bound(i), bound(j)),
{
    reveal_with_fuel(run_less, 2);
    lemma_one_character(leading(j));
    if i == 0 {
        assert(text_run(bound(0)) =~= seq![]);
    } else {
        lemma_one_character(leading(i));
        assert(leading(i) < leading(j));
    }
}

/// Every callee falls into a range.
pub proof fn law_ranges_cover(callee: Seq<char>)
    ensures
        exists|i: int| 0 <= i < bound_count() && #[trigger] in_range(callee, i),
{
    let last = bound_count() - 1;
    assert(!text_less(callee, bound(0)));
    let i = lemma_range_below(callee, last);
    assert(in_range(callee, i));
}

proof fn lemma_range_below(callee: Seq<char>, top: int) -> (i: int)
    requires
        0 <= top < bound_count(),
        top + 1 < bound_count() ==> text_less(callee, bound(top + 1)),
    ensures
        0 <= i <= top,
        in_range(callee, i),
    decreases top,
{
    if text_less(callee, bound(top)) {
        assert(text_run(bound(0)) =~= seq![]);
        lemma_range_below(callee, top - 1)
    } else {
        top
    }
}

/// The callees of one range come before those of a later one. So no callee falls
/// into two ranges.
pub proof fn law_ranges_ascend(x: Seq<char>, i: int, y: Seq<char>, j: int)
    requires
        0 <= i < j < bound_count(),
        in_range(x, i),
        in_range(y, j),
    ensures
        text_less(x, y),
{
    if i + 1 < j {
        lemma_bounds_ascend(i + 1, j);
        lemma_run_less_transitive(text_run(x), text_run(bound(i + 1)), text_run(bound(j)));
    }
    lemma_run_less_total(text_run(y), text_run(bound(j)));
    if text_run(y) != text_run(bound(j)) {
        lemma_run_less_transitive(text_run(x), text_run(bound(j)), text_run(y));
    }
}

/// What the second pass writes from a step on, where the staging table answers
/// `reads`, range by range: the rows, and whether they replace the table.
pub open spec fn writes(
    step: SortStepView,
    reads: Seq<Seq<CallEdgeView>>,
) -> Seq<(Seq<CallEdgeView>, bool)>
    decreases
        (match step {
            SortStepView::ReadStaging(m) => 3 * (bound_count() - m.range) + 2,
            SortStepView::Write(m, _, _) => 3 * (bound_count() - m.range) + 1,
            _ => 0,
        }),
        (match step {
            SortStepView::Write(m, _, _) => m.buffer.len(),
            _ => 0,
        }),
{
    match step {
        SortStepView::ReadStaging(m) => if m.range < bound_count() {
            writes(merging_read(m, reads[m.range as int]), reads)
        } else {
            seq![]
        },
        SortStepView::Write(m, rows, replace) => if m.range < bound_count() {
            seq![(rows, replace)] + writes(merging_next(m), reads)
        } else {
            seq![]
        },
        _ => seq![],
    }
}

/// The rows of all writes, one after the other.
pub open spec fn written_rows(all: Seq<(Seq<CallEdgeView>, bool)>) -> Seq<CallEdgeView> {
    concatenated(all.map_values(|write: (Seq<CallEdgeView>, bool)| write.0))
}

/// The rows that ranges from `from` on collapse to, one range after the other.
pub open spec fn collapsed_ranges(reads: Seq<Seq<CallEdgeView>>, from: nat) -> Seq<CallEdgeView>
    decreases reads.len() - from,
{
    if from >= reads.len() {
        seq![]
    } else {
        collapsed(all_versions(reads[from as int])) + collapsed_ranges(reads, from + 1)
    }
}

proof fn lemma_writes_prepend(
    write: (Seq<CallEdgeView>, bool),
    rest: Seq<(Seq<CallEdgeView>, bool)>,
)
    ensures
        written_rows(seq![write] + rest) == write.0 + written_rows(rest),
{
    let f = |write: (Seq<CallEdgeView>, bool)| write.0;
    let first = seq![write].map_values(f);
    assert((seq![write] + rest).map_values(f) =~= first + rest.map_values(f));
    lemma_concatenated_two(first, rest.map_values(f));
    assert(first.drop_last() =~= seq![]);
    reveal_with_fuel(concatenated, 2);
    assert(concatenated(first) =~= write.0);
}

/// Whether of a list of writes the first alone replaces the table, if `first`, and
/// none is without rows.
pub open spec fn replaces_once(all: Seq<(Seq<CallEdgeView>, bool)>, first: bool) -> bool {
    forall|k: int|
        0 <= k < all.len() ==> (#[trigger] all[k]).0.len() > 0 && (all[k].1 == (first && k == 0))
}

proof fn lemma_merge_from(m: MergingView, reads: Seq<Seq<CallEdgeView>>)
    requires
        reads.len() == bound_count(),
        m.range < bound_count(),
    ensures
        written_rows(writes(SortStepView::ReadStaging(m), reads)) == m.buffer + collapsed_ranges(
            reads,
            m.range,
        ),
        replaces_once(writes(SortStepView::ReadStaging(m), reads), m.first),
    decreases bound_count() - m.range, 0int,
{
    let edges = reads[m.range as int];
    let rows = collapsed(all_versions(edges));
    let gathered = m.buffer + rows;
    let step = merging_read(m, edges);
    law_collapse_exists(all_versions(edges));
    if all_versions(edges).len() == 0 {
        assert(all_versions(edges) =~= seq![]);
        lemma_no_rows(rows);
        lemma_merge_next(m, reads);
        assert(m.buffer + collapsed_ranges(reads, m.range) =~= m.buffer + collapsed_ranges(
            reads,
            m.range + 1,
        ));
    } else if gathered.len() >= FLUSH_ROWS {
        let after = MergingView {
            buffer: seq![],
            first: false,
            collapsed: m.collapsed + rows.len(),
            ..m
        };
        lemma_merge_next(after, reads);
        let rest = writes(merging_next(after), reads);
        let all = writes(step, reads);
        assert(all == seq![(gathered, m.first)] + rest);
        lemma_writes_prepend((gathered, m.first), rest);
        assert(written_rows(all) =~= m.buffer + collapsed_ranges(reads, m.range));
        assert forall|k: int| 0 <= k < all.len() implies (#[trigger] all[k]).0.len() > 0 && (
        all[k].1 == (m.first && k == 0)) by {
            if k > 0 {
                assert(all[k] == rest[k - 1]);
            }
        }
    } else {
        let after = MergingView {
            buffer: gathered,
            collapsed: m.collapsed + rows.len(),
            ..m
        };
        lemma_merge_next(after, reads);
        assert(gathered + collapsed_ranges(reads, m.range + 1) =~= m.buffer + collapsed_ranges(
            reads,
            m.range,
        ));
    }
}

proof fn lemma_no_rows(rows: Seq<CallEdgeView>)
    requires
        crate::database::edge_sort::collapses(seq![], rows),
    ensures
        rows =~= seq![],
{
    if rows.len() > 0 {
        let edge = rows[0];
        let version = EdgeVersionView {
            callee: edge.callee,
            caller: edge.caller,
            caller_file_path: edge.caller_file_path,
            kind: edge.kind,
            hash: edge.caller_git_file_hashes[0],
        };
        assert(edge.caller_git_file_hashes.contains(version.hash));
        assert(crate::database::edge_sort::is_of(version, rows[0]));
        assert(crate::database::edge_sort::holds(rows, version));
        assert(Seq::<EdgeVersionView>::empty().contains(version));
    }
}

proof fn lemma_merge_next(m: MergingView, reads: Seq<Seq<CallEdgeView>>)
    requires
        reads.len() == bound_count(),
        m.range < bound_count(),
    ensures
        written_rows(writes(merging_next(m), reads)) == m.buffer + collapsed_ranges(
            reads,
            m.range + 1,
        ),
        replaces_once(writes(merging_next(m), reads), m.first),
    decreases bound_count() - m.range - 1, 1int,
{
    if m.range + 1 < bound_count() {
        let after = MergingView { range: m.range + 1, ..m };
        lemma_merge_from(after, reads);
    } else if m.buffer.len() > 0 {
        let after = MergingView { buffer: seq![], first: false, ..m };
        let all = writes(merging_next(m), reads);
        assert(writes(merging_next(after), reads) =~= seq![]);
        assert(all =~= seq![(m.buffer, m.first)] + seq![]);
        lemma_writes_prepend((m.buffer, m.first), seq![]);
        assert(written_rows(seq![]) =~= seq![]);
        assert(written_rows(all) =~= m.buffer + collapsed_ranges(reads, m.range + 1));
    } else {
        let all = writes(merging_next(m), reads);
        assert(all =~= seq![]);
        assert(written_rows(all) =~= seq![]);
        assert(m.buffer + collapsed_ranges(reads, m.range + 1) =~= seq![]);
    }
}

/// The rows of ranges from `from` on, one range after the other.
pub open spec fn range_rows(reads: Seq<Seq<CallEdgeView>>, from: nat) -> Seq<EdgeVersionView>
    decreases reads.len() - from,
{
    if from >= reads.len() {
        seq![]
    } else {
        all_versions(reads[from as int]) + range_rows(reads, from + 1)
    }
}

/// Whether each of the ranges holds callees of that range only.
pub open spec fn reads_by_range(reads: Seq<Seq<CallEdgeView>>) -> bool {
    &&& reads.len() == bound_count()
    &&& forall|i: int, k: int|
        0 <= i < reads.len() && 0 <= k < all_versions(#[trigger] reads[i]).len() ==> in_range(
            (#[trigger] all_versions(reads[i])[k]).callee,
            i,
        )
}

proof fn lemma_later_ranges(reads: Seq<Seq<CallEdgeView>>, from: nat, k: int) -> (i: int)
    requires
        reads_by_range(reads),
        0 <= k < range_rows(reads, from).len(),
    ensures
        from <= i < bound_count(),
        in_range(range_rows(reads, from)[k].callee, i),
    decreases reads.len() - from,
{
    let own = all_versions(reads[from as int]);
    if k < own.len() {
        assert(range_rows(reads, from)[k] == own[k]);
        from as int
    } else {
        assert(range_rows(reads, from)[k] == range_rows(reads, from + 1)[k - own.len()]);
        lemma_later_ranges(reads, from + 1, k - own.len())
    }
}

proof fn lemma_ranges_collapse(reads: Seq<Seq<CallEdgeView>>, from: nat)
    requires
        reads_by_range(reads),
    ensures
        collapsed_ranges(reads, from) == collapsed(range_rows(reads, from)),
    decreases reads.len() - from,
{
    if from >= reads.len() {
        law_collapse_exists(range_rows(reads, from));
        lemma_no_rows(collapsed(range_rows(reads, from)));
    } else {
        let own = all_versions(reads[from as int]);
        let rest = range_rows(reads, from + 1);
        lemma_ranges_collapse(reads, from + 1);
        assert forall|a: int, b: int| 0 <= a < own.len() && 0 <= b < rest.len() implies text_less(
            (#[trigger] own[a]).callee,
            (#[trigger] rest[b]).callee,
        ) by {
            let j = lemma_later_ranges(reads, from + 1, b);
            assert(in_range(all_versions(reads[from as int])[a].callee, from as int));
            law_ranges_ascend(own[a].callee, from as int, rest[b].callee, j);
        }
        law_collapse_parts(own, rest);
    }
}

/// What the rewrite writes, one write after the other, is all the rows of the
/// staging table with the versions of each edge in one row, in order; the first
/// write replaces the table and the others add to it.
pub proof fn law_rewrite_sorts(total: nat, reads: Seq<Seq<CallEdgeView>>)
    requires
        reads_by_range(reads),
    ensures
        ({
            let all = writes(SortStepView::ReadStaging(merging_start(total)), reads);
            written_rows(all) == collapsed(range_rows(reads, 0)) && replaces_once(all, true)
        }),
{
    let m = merging_start(total);
    lemma_merge_from(m, reads);
    lemma_ranges_collapse(reads, 0);
    assert(m.buffer + collapsed_ranges(reads, 0) =~= collapsed_ranges(reads, 0));
}

/// The step at which the second pass ends, where the staging table answers `reads`, range
/// by range.
pub open spec fn merging_end(step: SortStepView, reads: Seq<Seq<CallEdgeView>>) -> SortStepView
    decreases
        (match step {
            SortStepView::ReadStaging(m) => 3 * (bound_count() - m.range) + 2,
            SortStepView::Write(m, _, _) => 3 * (bound_count() - m.range) + 1,
            _ => 0,
        }),
        (match step {
            SortStepView::Write(m, _, _) => m.buffer.len(),
            _ => 0,
        }),
{
    match step {
        SortStepView::ReadStaging(m) => if m.range < bound_count() {
            merging_end(merging_read(m, reads[m.range as int]), reads)
        } else {
            step
        },
        SortStepView::Write(m, rows, replace) => if m.range < bound_count() {
            merging_end(merging_next(m), reads)
        } else {
            step
        },
        _ => step,
    }
}

/// Whether a step asks for the count of a table that had `total` rows and shall have
/// `rows`.
pub open spec fn counts(step: SortStepView, total: nat, rows: nat) -> bool {
    step matches SortStepView::CountSorted(m) && m.total == total && m.collapsed == rows
}

proof fn lemma_end_from(m: MergingView, reads: Seq<Seq<CallEdgeView>>)
    requires
        reads.len() == bound_count(),
        m.range < bound_count(),
    ensures
        counts(
            merging_end(SortStepView::ReadStaging(m), reads),
            m.total,
            m.collapsed + collapsed_ranges(reads, m.range).len(),
        ),
    decreases bound_count() - m.range, 0int,
{
    let edges = reads[m.range as int];
    let rows = collapsed(all_versions(edges));
    let gathered = m.buffer + rows;
    law_collapse_exists(all_versions(edges));
    assert(collapsed_ranges(reads, m.range).len() == rows.len() + collapsed_ranges(
        reads,
        m.range + 1,
    ).len());
    if all_versions(edges).len() == 0 {
        assert(all_versions(edges) =~= seq![]);
        lemma_no_rows(rows);
        lemma_end_next(m, reads);
    } else {
        let after = MergingView {
            buffer: if gathered.len() >= FLUSH_ROWS {
                seq![]
            } else {
                gathered
            },
            first: m.first && gathered.len() < FLUSH_ROWS,
            collapsed: m.collapsed + rows.len(),
            ..m
        };
        lemma_end_next(after, reads);
        assert(merging_end(merging_read(m, edges), reads) == merging_end(
            merging_next(after),
            reads,
        ));
    }
}

proof fn lemma_end_next(m: MergingView, reads: Seq<Seq<CallEdgeView>>)
    requires
        reads.len() == bound_count(),
        m.range < bound_count(),
    ensures
        counts(
            merging_end(merging_next(m), reads),
            m.total,
            m.collapsed + collapsed_ranges(reads, m.range + 1).len(),
        ),
    decreases bound_count() - m.range - 1, 1int,
{
    if m.range + 1 < bound_count() {
        let after = MergingView { range: m.range + 1, ..m };
        lemma_end_from(after, reads);
    } else {
        assert(collapsed_ranges(reads, m.range + 1).len() == 0);
        if m.buffer.len() > 0 {
            let after = MergingView { buffer: seq![], first: false, ..m };
            assert(merging_end(merging_next(after), reads) == SortStepView::CountSorted(after));
        }
    }
}

/// The second pass ends by asking for the count of the table, and expects as many rows
/// as it has written.
pub proof fn law_rewrite_counts(total: nat, reads: Seq<Seq<CallEdgeView>>)
    requires
        reads_by_range(reads),
    ensures
        counts(
            merging_end(SortStepView::ReadStaging(merging_start(total)), reads),
            total,
            collapsed(range_rows(reads, 0)).len(),
        ),
{
    lemma_end_from(merging_start(total), reads);
    lemma_ranges_collapse(reads, 0);
}

/// Whether one of `edges` has `key`.
pub open spec fn holds_key(edges: Seq<CallEdgeView>, key: Seq<Seq<int>>) -> bool {
    exists|a: int| 0 <= a < edges.len() && edge_key(#[trigger] edges[a]) == key
}

/// Of the edges that share a key, a batch holds one, and it holds one for each key
/// of its piece.
pub proof fn law_batch_keys(edges: Seq<CallEdgeView>)
    ensures
        forall|i: int|
            0 <= i < edges.len() ==> holds_key(
                distinct_edges(edges),
                edge_key(#[trigger] edges[i]),
            ),
        forall|a: int, b: int|
            0 <= a < b < distinct_edges(edges).len() ==> edge_key(
                #[trigger] distinct_edges(edges)[a],
            ) != edge_key(#[trigger] distinct_edges(edges)[b]),
        forall|a: int|
            0 <= a < distinct_edges(edges).len() ==> edges.contains(
                #[trigger] distinct_edges(edges)[a],
            ),
{
    let keys = edge_keys(edges);
    let kept = first_places(keys);
    let batch = distinct_edges(edges);
    law_first_places(keys);
    lemma_first_below(keys, keys.len() as int);
    assert forall|a: int| 0 <= a < kept.len() implies 0 <= #[trigger] kept[a] < edges.len()
        && batch[a] == edges[kept[a]] && keys[kept[a]] == edge_key(batch[a]) by {
        assert(kept.contains(kept[a]));
    }
    assert forall|i: int| 0 <= i < edges.len() implies holds_key(
        batch,
        edge_key(#[trigger] edges[i]),
    ) by {
        assert(keys[i] == edge_key(edges[i]));
        let a = choose|a: int| 0 <= a < kept.len() && keys[#[trigger] kept[a]] == keys[i];
        assert(edge_key(batch[a]) == edge_key(edges[i]));
    }
    assert forall|a: int, b: int| 0 <= a < b < batch.len() implies edge_key(#[trigger] batch[a])
        != edge_key(#[trigger] batch[b]) by {
        assert(keys[kept[a]] != keys[kept[b]]);
    }
}

/// Changing each item alike keeps which items there are, and how often.
proof fn lemma_mapped_alike<A, B>(x: Seq<A>, y: Seq<A>, f: spec_fn(A) -> B)
    requires
        x.to_multiset() == y.to_multiset(),
    ensures
        x.map_values(f).to_multiset() == y.map_values(f).to_multiset(),
    decreases x.len(),
{
    broadcast use vstd::multiset::group_multiset_axioms;

    vstd::seq_lib::to_multiset_len(x);
    vstd::seq_lib::to_multiset_len(y);
    if x.len() == 0 {
        assert(x.map_values(f) =~= y.map_values(f));
    } else {
        let last = x.last();
        let fewer = x.drop_last();
        assert(x =~= fewer.push(last));
        vstd::seq_lib::to_multiset_build(fewer, last);
        vstd::seq_lib::to_multiset_contains(x, last);
        vstd::seq_lib::to_multiset_contains(y, last);
        assert(x[x.len() - 1] == last);
        let j = choose|j: int| 0 <= j < y.len() && y[j] == last;
        let rest = y.remove(j);
        vstd::seq_lib::to_multiset_remove(y, j);
        assert(fewer.to_multiset() =~= rest.to_multiset());
        lemma_mapped_alike(fewer, rest, f);
        assert(x.map_values(f) =~= fewer.map_values(f).push(f(last)));
        vstd::seq_lib::to_multiset_build(fewer.map_values(f), f(last));
        assert(y =~= rest.insert(j, last));
        assert(y.map_values(f) =~= rest.map_values(f).insert(j, f(last)));
        vstd::seq_lib::to_multiset_insert(rest.map_values(f), j, f(last));
    }
}

/// A filter keeps an item that it lets through as often as it was there.
proof fn lemma_filter_count<A>(list: Seq<A>, pred: spec_fn(A) -> bool, item: A)
    ensures
        list.filter(pred).to_multiset().count(item) == (if pred(item) {
            list.to_multiset().count(item)
        } else {
            0
        }),
    decreases list.len(),
{
    broadcast use vstd::multiset::group_multiset_axioms;

    reveal(Seq::filter);
    if list.len() == 0 {
        assert(list.filter(pred) =~= list);
        vstd::seq_lib::to_multiset_contains(list, item);
    } else {
        let fewer = list.drop_last();
        lemma_filter_count(fewer, pred, item);
        assert(list =~= fewer.push(list.last()));
        vstd::seq_lib::to_multiset_build(fewer, list.last());
        vstd::seq_lib::to_multiset_build(fewer.filter(pred), list.last());
    }
}

/// Whether a condition is answered with the rows of a table of which something holds, in
/// any order.
pub open spec fn answers_with(
    answer: Seq<CallEdgeView>,
    table: Seq<CallEdgeView>,
    holds: spec_fn(CallEdgeView) -> bool,
) -> bool {
    answer.to_multiset() == table.to_multiset().filter(holds)
}

/// The calls among the edges to a callee, without the file of the caller.
pub open spec fn calls_among(edges: Seq<CallEdgeView>, callee: Seq<char>) -> Seq<CallEdgeView> {
    edges.filter(|edge: CallEdgeView| edge.kind == KIND_CALL@).map_values(
        |edge: CallEdgeView| CallEdgeView { callee, caller_file_path: seq![], ..edge },
    )
}

/// The edges that the answer to the condition for the calls of a callee is read as.
pub open spec fn callers_read(rows: Seq<CallEdgeView>, callee: Seq<char>) -> Seq<CallEdgeView> {
    rows.map_values(
        |row: CallEdgeView| caller_edge(callee, row.caller, Some(row.caller_git_file_hashes)),
    )
}

/// The condition for the edges to one callee.
pub open spec fn referrers_filter(callee: Seq<char>) -> Seq<char> {
    "callee IN ("@ + quoted_list(seq![callee]) + ")"@
}

/// The callers of a function are the calls among the edges to it: the edges to one callee
/// take one condition, and of what is found by it those of the kind of a call are, each as
/// often, what is found by the condition for callers. Callers are read without the file.
/// The database is taken to answer both conditions from one table, with the rows that
/// meet them.
pub proof fn law_callers_are_referrers(
    table: Seq<CallEdgeView>,
    callee: Seq<char>,
    answers: spec_fn(Seq<char>) -> Seq<CallEdgeView>,
)
    requires
        answers_with(
            answers(callers_filter(callee)),
            table,
            |edge: CallEdgeView| edge.callee == callee && edge.kind == KIND_CALL@,
        ),
        answers_with(
            answers(referrers_filter(callee)),
            table,
            |edge: CallEdgeView| edge.callee == callee,
        ),
    ensures
        referrer_filters(seq![callee]) == seq![referrers_filter(callee)],
        callers_read(answers(callers_filter(callee)), callee).to_multiset() == calls_among(
            answers(referrers_filter(callee)),
            callee,
        ).to_multiset(),
{
    broadcast use vstd::multiset::group_multiset_axioms;

    assert(referrer_filters(seq![callee]) =~= seq![referrers_filter(callee)]);
    let rows = answers(callers_filter(callee));
    let referrers = answers(referrers_filter(callee));
    let is_call = |edge: CallEdgeView| edge.kind == KIND_CALL@;
    let calls = referrers.filter(is_call);
    let wanted = |edge: CallEdgeView| edge.callee == callee && edge.kind == KIND_CALL@;
    let pointing = |edge: CallEdgeView| edge.callee == callee;
    assert forall|edge: CallEdgeView| #[trigger]
        rows.to_multiset().count(edge) == calls.to_multiset().count(edge) by {
        lemma_filter_count(referrers, is_call, edge);
        assert(rows.to_multiset().count(edge) == table.to_multiset().filter(wanted).count(edge));
        assert(referrers.to_multiset().count(edge) == table.to_multiset().filter(
            pointing,
        ).count(edge));
    }
    assert(rows.to_multiset() =~= calls.to_multiset());
    let read = |edge: CallEdgeView|
        CallEdgeView { callee, caller_file_path: seq![], ..edge };
    lemma_mapped_alike(rows, calls, read);
    assert(callers_read(rows, callee) =~= rows.map_values(read)) by {
        assert forall|k: int| 0 <= k < rows.len() implies caller_edge(
            callee,
            #[trigger] rows[k].caller,
            Some(rows[k].caller_git_file_hashes),
        ) == read(rows[k]) by {
            vstd::seq_lib::to_multiset_contains(rows, rows[k]);
            assert(rows.contains(rows[k]));
            assert(table.to_multiset().filter(wanted).count(rows[k]) > 0);
            assert(wanted(rows[k]));
        }
    }
}

} // verus!
