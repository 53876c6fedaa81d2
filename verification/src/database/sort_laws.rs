//! What the sorted rewrite of the edge table does to the table as a whole.

use vstd::prelude::*;

use crate::database::edge_laws::{
    law_ranges_ascend, law_ranges_cover, law_rewrite_counts, law_rewrite_sorts, merging_end,
    range_rows, reads_by_range, replaces_once, writes, written_rows,
};
use crate::database::edge_rewrite::{merging_counted, merging_start, SortStepView};
use crate::database::edge_sort::{
    all_versions, bound_count, collapsed, holds, in_range, is_of, law_collapse_again,
    law_collapse_exists, law_collapse_unique, lemma_all_versions, lemma_same_versions,
    lemma_sorted_versions, single, sorted_versions, staged_rows, EdgeVersionView,
};
use crate::database::edges::CallEdgeView;
use crate::database::staging_laws::{
    law_indexed_rows_pass, row_count, staging_end, staging_start, versions_each,
};
use crate::order::lemma_run_less_total;

verus! {

/// Whether `reads` is what a table hands out range by range: in each range the rows with
/// a callee of it, in any order.
pub open spec fn hands_out(table: Seq<CallEdgeView>, reads: Seq<Seq<CallEdgeView>>) -> bool {
    &&& reads.len() == bound_count()
    &&& forall|i: int|
        0 <= i < reads.len() ==> (#[trigger] reads[i]).to_multiset() == table.to_multiset().filter(
            |edge: CallEdgeView| in_range(edge.callee, i),
        )
}

/// The rows that the first pass puts into the staging table, from the range `from` on.
pub open spec fn staging_rows(reads: Seq<Seq<CallEdgeView>>, from: nat) -> Seq<CallEdgeView>
    decreases reads.len() - from,
{
    if from >= reads.len() {
        seq![]
    } else {
        staged_rows(all_versions(reads[from as int])) + staging_rows(reads, from + 1)
    }
}

/// The rows of the ranges from `from` on.
spec fn joined(reads: Seq<Seq<CallEdgeView>>, from: nat) -> Seq<CallEdgeView>
    decreases reads.len() - from,
{
    if from >= reads.len() {
        seq![]
    } else {
        reads[from as int] + joined(reads, from + 1)
    }
}

proof fn lemma_joined_count(
    table: Seq<CallEdgeView>,
    reads: Seq<Seq<CallEdgeView>>,
    from: nat,
    edge: CallEdgeView,
    own: int,
)
    requires
        hands_out(table, reads),
        from <= reads.len(),
        0 <= own < bound_count(),
        in_range(edge.callee, own),
    ensures
        joined(reads, from).to_multiset().count(edge) == (if from <= own {
            table.to_multiset().count(edge)
        } else {
            0
        }),
        joined(reads, from).len() == row_count(reads, from),
    decreases reads.len() - from,
{
    broadcast use vstd::multiset::group_multiset_axioms;

    if from < reads.len() {
        lemma_joined_count(table, reads, from + 1, edge, own);
        vstd::seq_lib::lemma_multiset_commutative(reads[from as int], joined(reads, from + 1));
        if from != own && in_range(edge.callee, from as int) {
            if from < own {
                law_ranges_ascend(edge.callee, from as int, edge.callee, own);
            } else {
                law_ranges_ascend(edge.callee, own, edge.callee, from as int);
            }
            lemma_run_less_total(
                crate::order::text_run(edge.callee),
                crate::order::text_run(edge.callee),
            );
        }
        assert(reads[from as int].to_multiset().count(edge) == table.to_multiset().filter(
            |edge: CallEdgeView| in_range(edge.callee, from as int),
        ).count(edge));
    } else {
        assert(joined(reads, from) =~= seq![]);
        assert(Seq::<CallEdgeView>::empty().to_multiset().count(edge) == 0) by {
            vstd::seq_lib::to_multiset_contains(Seq::<CallEdgeView>::empty(), edge);
        }
    }
}

/// The ranges hand out each row of a table once.
proof fn lemma_all_handed_out(table: Seq<CallEdgeView>, reads: Seq<Seq<CallEdgeView>>)
    requires
        hands_out(table, reads),
    ensures
        row_count(reads, 0) == table.len(),
{
    let all = joined(reads, 0);
    assert forall|edge: CallEdgeView| #[trigger]
        all.to_multiset().count(edge) == table.to_multiset().count(edge) by {
        law_ranges_cover(edge.callee);
        let own = choose|i: int| 0 <= i < bound_count() && #[trigger] in_range(edge.callee, i);
        lemma_joined_count(table, reads, 0, edge, own);
    }
    assert(all.to_multiset() =~= table.to_multiset());
    vstd::seq_lib::to_multiset_len(all);
    vstd::seq_lib::to_multiset_len(table);
    law_ranges_cover(seq![]);
    let own = choose|i: int| 0 <= i < bound_count() && #[trigger] in_range(seq![], i);
    let edge = CallEdgeView {
        callee: seq![],
        caller: seq![],
        caller_file_path: seq![],
        caller_git_file_hashes: seq![],
        kind: seq![],
    };
    lemma_joined_count(table, reads, 0, edge, own);
}

/// Which rows the range at `i` hands out.
proof fn lemma_in_read(
    table: Seq<CallEdgeView>,
    reads: Seq<Seq<CallEdgeView>>,
    i: int,
    edge: CallEdgeView,
)
    requires
        hands_out(table, reads),
        0 <= i < reads.len(),
    ensures
        reads[i].contains(edge) <==> table.contains(edge) && in_range(edge.callee, i),
{
    broadcast use vstd::multiset::group_multiset_axioms;

    vstd::seq_lib::to_multiset_contains(reads[i], edge);
    vstd::seq_lib::to_multiset_contains(table, edge);
    assert(reads[i].to_multiset().count(edge) == table.to_multiset().filter(
        |edge: CallEdgeView| in_range(edge.callee, i),
    ).count(edge));
}

/// The versions in a range are those of the table with a callee of the range.
proof fn lemma_read_holds(
    table: Seq<CallEdgeView>,
    reads: Seq<Seq<CallEdgeView>>,
    i: int,
    version: EdgeVersionView,
)
    requires
        hands_out(table, reads),
        0 <= i < reads.len(),
    ensures
        holds(reads[i], version) <==> holds(table, version) && in_range(version.callee, i),
{
    if holds(reads[i], version) {
        let a = choose|a: int|
            0 <= a < reads[i].len() && is_of(version, #[trigger] reads[i][a])
                && reads[i][a].caller_git_file_hashes.contains(version.hash);
        let edge = reads[i][a];
        assert(reads[i].contains(edge));
        lemma_in_read(table, reads, i, edge);
        let b = choose|b: int| 0 <= b < table.len() && table[b] == edge;
        assert(is_of(version, table[b]));
    }
    if holds(table, version) && in_range(version.callee, i) {
        let b = choose|b: int|
            0 <= b < table.len() && is_of(version, #[trigger] table[b])
                && table[b].caller_git_file_hashes.contains(version.hash);
        let edge = table[b];
        assert(table.contains(edge));
        lemma_in_read(table, reads, i, edge);
        let a = choose|a: int| 0 <= a < reads[i].len() && reads[i][a] == edge;
        assert(is_of(version, reads[i][a]));
    }
}

/// The versions of the ranges from `from` on are those of the table that fall there.
proof fn lemma_range_rows(
    table: Seq<CallEdgeView>,
    reads: Seq<Seq<CallEdgeView>>,
    from: nat,
    version: EdgeVersionView,
    own: int,
)
    requires
        hands_out(table, reads),
        from <= reads.len(),
        0 <= own < bound_count(),
        in_range(version.callee, own),
    ensures
        range_rows(reads, from).contains(version) <==> from <= own && holds(table, version),
    decreases reads.len() - from,
{
    if from < reads.len() {
        lemma_range_rows(table, reads, from + 1, version, own);
        lemma_read_holds(table, reads, from as int, version);
        let here = all_versions(reads[from as int]);
        let rest = range_rows(reads, from + 1);
        let all = range_rows(reads, from);
        lemma_all_versions(reads[from as int], version);
        assert(all =~= here + rest);
        if here.contains(version) {
            let k = choose|k: int| 0 <= k < here.len() && here[k] == version;
            assert(all[k] == version);
            if from != own {
                if from < own {
                    law_ranges_ascend(version.callee, from as int, version.callee, own);
                } else {
                    law_ranges_ascend(version.callee, own, version.callee, from as int);
                }
                lemma_run_less_total(
                    crate::order::text_run(version.callee),
                    crate::order::text_run(version.callee),
                );
            }
        }
        if rest.contains(version) {
            let k = choose|k: int| 0 <= k < rest.len() && rest[k] == version;
            assert(all[k + here.len()] == version);
        }
        if all.contains(version) {
            let k = choose|k: int| 0 <= k < all.len() && all[k] == version;
            if k < here.len() {
                assert(here[k] == version);
            } else {
                assert(rest[k - here.len()] == version);
            }
        }
    } else {
        assert(range_rows(reads, from) =~= seq![]);
    }
}

/// Rows of one version each hold the versions they were made of.
proof fn lemma_staged_holds(versions: Seq<EdgeVersionView>, version: EdgeVersionView)
    ensures
        holds(staged_rows(versions), version) <==> versions.contains(version),
{
    let sorted = sorted_versions(versions);
    let rows = staged_rows(versions);
    lemma_sorted_versions(versions);
    assert(sorted.contains(version) <==> versions.contains(version));
    if holds(rows, version) {
        let a = choose|a: int|
            0 <= a < rows.len() && is_of(version, #[trigger] rows[a])
                && rows[a].caller_git_file_hashes.contains(version.hash);
        assert(rows[a] == single(sorted[a]));
        assert(rows[a].caller_git_file_hashes[0] == sorted[a].hash);
        assert(sorted[a] == version);
    }
    if sorted.contains(version) {
        let a = choose|a: int| 0 <= a < sorted.len() && sorted[a] == version;
        assert(rows[a] == single(version));
        assert(rows[a].caller_git_file_hashes[0] == version.hash);
        assert(is_of(version, rows[a]));
    }
}

/// The staging table holds the versions of all ranges.
proof fn lemma_staging_holds(
    reads: Seq<Seq<CallEdgeView>>,
    from: nat,
    version: EdgeVersionView,
)
    ensures
        holds(staging_rows(reads, from), version) <==> range_rows(reads, from).contains(version),
    decreases reads.len() - from,
{
    let all = staging_rows(reads, from);
    let versions = range_rows(reads, from);
    if from < reads.len() {
        let own = all_versions(reads[from as int]);
        let here = staged_rows(own);
        let rest = staging_rows(reads, from + 1);
        let rest_versions = range_rows(reads, from + 1);
        lemma_staging_holds(reads, from + 1, version);
        lemma_staged_holds(own, version);
        assert(all =~= here + rest);
        assert(versions =~= own + rest_versions);
        if holds(all, version) {
            let a = choose|a: int|
                0 <= a < all.len() && is_of(version, #[trigger] all[a])
                    && all[a].caller_git_file_hashes.contains(version.hash);
            if a < here.len() {
                assert(is_of(version, here[a]));
                let k = choose|k: int| 0 <= k < own.len() && own[k] == version;
                assert(versions[k] == version);
            } else {
                assert(is_of(version, rest[a - here.len()]));
                let k = choose|k: int|
                    0 <= k < rest_versions.len() && rest_versions[k] == version;
                assert(versions[k + own.len()] == version);
            }
        }
        if versions.contains(version) {
            let k = choose|k: int| 0 <= k < versions.len() && versions[k] == version;
            if k < own.len() {
                assert(own[k] == version);
                assert(holds(here, version));
                let a = choose|a: int|
                    0 <= a < here.len() && is_of(version, #[trigger] here[a])
                        && here[a].caller_git_file_hashes.contains(version.hash);
                assert(is_of(version, all[a]));
            } else {
                assert(rest_versions[k - own.len()] == version);
                let a = choose|a: int|
                    0 <= a < rest.len() && is_of(version, #[trigger] rest[a])
                        && rest[a].caller_git_file_hashes.contains(version.hash);
                assert(is_of(version, all[a + here.len()]));
            }
        }
    } else {
        assert(all =~= seq![]);
        assert(versions =~= seq![]);
    }
}

/// Reading by range hands out callees of the range only.
proof fn lemma_reads_by_range(table: Seq<CallEdgeView>, reads: Seq<Seq<CallEdgeView>>)
    requires
        hands_out(table, reads),
    ensures
        reads_by_range(reads),
{
    assert forall|i: int, k: int|
        0 <= i < reads.len() && 0 <= k < all_versions(#[trigger] reads[i]).len() implies in_range(
        (#[trigger] all_versions(reads[i])[k]).callee,
        i,
    ) by {
        let version = all_versions(reads[i])[k];
        assert(all_versions(reads[i]).contains(version));
        lemma_all_versions(reads[i], version);
        lemma_read_holds(table, reads, i, version);
    }
}

/// Whether `staged` is what the staging table hands out after the first pass over a table
/// that handed out `reads`.
pub open spec fn stages(
    reads: Seq<Seq<CallEdgeView>>,
    staged: Seq<Seq<CallEdgeView>>,
) -> bool {
    hands_out(staging_rows(reads, 0), staged)
}

/// What a sort of a table does, where `reads` is what the table hands out and `staged` is
/// what the staging table does: the first pass goes on to the second; the second writes
/// `rows`, the first write in place of the table and the others behind it; and a count of
/// as many rows ends the sort.
pub open spec fn sorts_to(
    table: Seq<CallEdgeView>,
    reads: Seq<Seq<CallEdgeView>>,
    staged: Seq<Seq<CallEdgeView>>,
    rows: Seq<CallEdgeView>,
) -> bool {
    let total = table.len();
    let second = SortStepView::ReadStaging(merging_start(total));
    &&& staging_end(SortStepView::ReadSource(staging_start(total)), reads) == second
    &&& written_rows(writes(second, staged)) == rows
    &&& replaces_once(writes(second, staged), true)
    &&& merging_end(second, staged) matches SortStepView::CountSorted(m) && merging_counted(
        m,
        rows.len(),
    ) == SortStepView::DropStaging(total)
}

/// A sort puts the rows of a table, each of which has a version, in order, with the
/// versions of each edge in one row, and loses and adds none.
pub proof fn law_sort(
    table: Seq<CallEdgeView>,
    reads: Seq<Seq<CallEdgeView>>,
    staged: Seq<Seq<CallEdgeView>>,
)
    requires
        versions_each(table),
        hands_out(table, reads),
        stages(reads, staged),
    ensures
        sorts_to(table, reads, staged, collapsed(all_versions(table))),
{
    let total = table.len();
    let staging = staging_rows(reads, 0);
    lemma_all_handed_out(table, reads);
    assert forall|i: int| 0 <= i < reads.len() implies versions_each(#[trigger] reads[i]) by {
        assert forall|k: int| 0 <= k < reads[i].len() implies (
        #[trigger] reads[i][k]).caller_git_file_hashes.len() > 0 by {
            let edge = reads[i][k];
            assert(reads[i].contains(edge));
            lemma_in_read(table, reads, i, edge);
            let b = choose|b: int| 0 <= b < table.len() && table[b] == edge;
            assert(table[b].caller_git_file_hashes.len() > 0);
        }
    }
    law_indexed_rows_pass(total, reads);
    lemma_reads_by_range(staging, staged);
    law_rewrite_sorts(total, staged);
    law_rewrite_counts(total, staged);
    let x = range_rows(staged, 0);
    let y = all_versions(table);
    assert forall|version: EdgeVersionView| #[trigger] x.contains(version) <==> y.contains(
        version,
    ) by {
        law_ranges_cover(version.callee);
        let own = choose|i: int| 0 <= i < bound_count() && #[trigger] in_range(version.callee, i);
        lemma_range_rows(staging, staged, 0, version, own);
        lemma_staging_holds(reads, 0, version);
        lemma_range_rows(table, reads, 0, version, own);
        lemma_all_versions(table, version);
    }
    law_collapse_exists(x);
    law_collapse_exists(y);
    lemma_same_versions(x, y, collapsed(x));
    law_collapse_unique(y, collapsed(x), collapsed(y));
}

/// A sort of rows that a sort has left goes through, and writes the same rows in the same
/// order.
pub proof fn law_sort_again(
    versions: Seq<EdgeVersionView>,
    reads: Seq<Seq<CallEdgeView>>,
    staged: Seq<Seq<CallEdgeView>>,
)
    requires
        hands_out(collapsed(versions), reads),
        stages(reads, staged),
    ensures
        sorts_to(collapsed(versions), reads, staged, collapsed(versions)),
{
    law_collapse_exists(versions);
    law_sort(collapsed(versions), reads, staged);
    law_collapse_again(versions);
}

} // verus!
