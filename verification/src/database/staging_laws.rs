//! What holds of the first pass of the sorted rewrite.

use vstd::prelude::*;

use crate::database::edge_rewrite::{
    merging_start, rows_with_versions, staging_next, staging_read, SortStepView, StagingView,
};
use crate::database::edge_sort::{all_versions, bound_count, versions_of};
use crate::database::edges::CallEdgeView;
use crate::text::decimal;

verus! {

/// The step at which the first pass ends, where the table answers `reads`, range by
/// range.
pub open spec fn staging_end(step: SortStepView, reads: Seq<Seq<CallEdgeView>>) -> SortStepView
    decreases
        (match step {
            SortStepView::ReadSource(s) => 3 * (bound_count() - s.range) + 2,
            SortStepView::AppendStaging(s, _) => 3 * (bound_count() - s.range) + 1,
            _ => 0,
        }),
{
    match step {
        SortStepView::ReadSource(s) => if s.range < bound_count() {
            staging_end(staging_read(s, reads[s.range as int]), reads)
        } else {
            step
        },
        SortStepView::AppendStaging(s, _) => if s.range < bound_count() {
            staging_end(staging_next(s), reads)
        } else {
            step
        },
        _ => step,
    }
}

/// The first pass at its start.
pub open spec fn staging_start(total: nat) -> StagingView {
    StagingView { total, written: 0, range: 0 }
}

/// The step after the first pass, where `written` rows of the table went to the staging
/// table.
pub open spec fn after_staging(total: nat, written: nat) -> SortStepView {
    if written != total {
        SortStepView::Failed(
            "staging call_edges lost rows: "@ + decimal(written) + " of "@ + decimal(total),
        )
    } else {
        SortStepView::ReadStaging(merging_start(total))
    }
}

/// How many rows of the ranges from `from` on have a version.
pub open spec fn versioned_count(reads: Seq<Seq<CallEdgeView>>, from: nat) -> nat
    decreases reads.len() - from,
{
    if from >= reads.len() {
        0
    } else {
        rows_with_versions(reads[from as int]) + versioned_count(reads, from + 1)
    }
}

/// Rows without a version are as good as none.
proof fn lemma_no_versions(edges: Seq<CallEdgeView>)
    requires
        all_versions(edges).len() == 0,
    ensures
        rows_with_versions(edges) == 0,
    decreases edges.len(),
{
    reveal(Seq::filter);
    if edges.len() > 0 {
        let fewer = edges.drop_last();
        assert(all_versions(edges).len() == all_versions(fewer).len() + versions_of(
            edges.last(),
        ).len());
        lemma_no_versions(fewer);
    }
}

proof fn lemma_staging(s: StagingView, reads: Seq<Seq<CallEdgeView>>)
    requires
        reads.len() == bound_count(),
        s.range < bound_count(),
    ensures
        staging_end(SortStepView::ReadSource(s), reads) == after_staging(
            s.total,
            s.written + versioned_count(reads, s.range),
        ),
    decreases bound_count() - s.range,
{
    let edges = reads[s.range as int];
    let after = StagingView { written: s.written + rows_with_versions(edges), ..s };
    let step = staging_read(s, edges);
    if all_versions(edges).len() == 0 {
        lemma_no_versions(edges);
        assert(after == s);
    }
    assert(staging_end(step, reads) == staging_end(staging_next(after), reads));
    assert(versioned_count(reads, s.range) == rows_with_versions(edges) + versioned_count(
        reads,
        s.range + 1,
    ));
    if s.range + 1 < bound_count() {
        lemma_staging(StagingView { range: s.range + 1, ..after }, reads);
    } else {
        assert(versioned_count(reads, s.range + 1) == 0);
    }
}

/// The first pass counts the rows of the table that have a version, and goes on if and
/// only if there are as many as the table had rows. So a row that did not reach the
/// staging table does not pass unseen.
pub proof fn law_staging_counts(total: nat, reads: Seq<Seq<CallEdgeView>>)
    requires
        reads.len() == bound_count(),
    ensures
        staging_end(SortStepView::ReadSource(staging_start(total)), reads) == after_staging(
            total,
            versioned_count(reads, 0),
        ),
{
    lemma_staging(staging_start(total), reads);
}

/// How many rows the ranges from `from` on hold.
pub open spec fn row_count(reads: Seq<Seq<CallEdgeView>>, from: nat) -> nat
    decreases reads.len() - from,
{
    if from >= reads.len() {
        0
    } else {
        reads[from as int].len() + row_count(reads, from + 1)
    }
}

/// Whether each row has a version.
pub open spec fn versions_each(edges: Seq<CallEdgeView>) -> bool {
    forall|k: int|
        0 <= k < edges.len() ==> (#[trigger] edges[k]).caller_git_file_hashes.len() > 0
}

proof fn lemma_versions_each(edges: Seq<CallEdgeView>)
    ensures
        rows_with_versions(edges) <= edges.len(),
        rows_with_versions(edges) == edges.len() <==> versions_each(edges),
    decreases edges.len(),
{
    reveal(Seq::filter);
    if edges.len() > 0 {
        let fewer = edges.drop_last();
        lemma_versions_each(fewer);
        if versions_each(edges) {
            assert forall|k: int| 0 <= k < fewer.len() implies (
            #[trigger] fewer[k]).caller_git_file_hashes.len() > 0 by {
                assert(fewer[k] == edges[k]);
            }
            assert(edges[edges.len() - 1].caller_git_file_hashes.len() > 0);
        }
        if rows_with_versions(edges) == edges.len() {
            assert forall|k: int| 0 <= k < edges.len() implies (
            #[trigger] edges[k]).caller_git_file_hashes.len() > 0 by {
                if k < fewer.len() {
                    assert(fewer[k] == edges[k]);
                }
            }
        }
    }
}

proof fn lemma_row_count(reads: Seq<Seq<CallEdgeView>>, from: nat)
    ensures
        versioned_count(reads, from) <= row_count(reads, from),
        versioned_count(reads, from) == row_count(reads, from) <==> forall|i: int|
            from <= i < reads.len() ==> versions_each(#[trigger] reads[i]),
    decreases reads.len() - from,
{
    if from < reads.len() {
        lemma_versions_each(reads[from as int]);
        lemma_row_count(reads, from + 1);
    }
}

/// Where the ranges hand out all the rows of a table, the first pass goes on if and only
/// if each row has a version. Rows as indexing writes them have one; rows that a sort
/// left have one or more.
pub proof fn law_indexed_rows_pass(total: nat, reads: Seq<Seq<CallEdgeView>>)
    requires
        reads.len() == bound_count(),
        row_count(reads, 0) == total,
    ensures
        staging_end(SortStepView::ReadSource(staging_start(total)), reads)
            == SortStepView::ReadStaging(merging_start(total)) <==> forall|i: int|
            0 <= i < reads.len() ==> versions_each(#[trigger] reads[i]),
{
    law_staging_counts(total, reads);
    lemma_row_count(reads, 0);
}

} // verus!
