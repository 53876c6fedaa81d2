//! The steps of the sorted rewrite of the edge table. Each step names what the
//! database has to do; what it answers leads to the next step.
//!
//! The rows of each range of callees go to a staging table first. Then each range
//! is read back from there, the versions of each edge are put into one row, and
//! the rows replace those of the table. Reading by range, not by a scan, keeps the
//! order: a scan hands out batches in any order.

use vstd::prelude::*;
use vstd::string::*;

use crate::database::edge_sort::{
    all_versions, append_sorted, bound_count, collapse, collapsed, list_versions,
    partition_bounds, range_filter, staged_rows, versions_view,
};
use crate::database::edges::{edges_view, CallEdge, CallEdgeStore, CallEdgeView};
use crate::text::{decimal, number, texts};

verus! {

/// How many rows are gathered before they are written.
pub const FLUSH_ROWS: usize = 500_000;

/// The first pass: range by range from the table to the staging table.
pub struct Staging {
    total: usize,
    written: usize,
    range: usize,
}

#[verifier::ext_equal]
pub struct StagingView {
    /// How many rows the table had.
    pub total: nat,
    /// How many rows of the table went to the staging table.
    pub written: nat,
    /// The range at hand.
    pub range: nat,
}

impl View for Staging {
    type V = StagingView;

    closed spec fn view(&self) -> StagingView {
        StagingView {
            total: self.total as nat,
            written: self.written as nat,
            range: self.range as nat,
        }
    }
}

/// The second pass: range by range from the staging table back.
pub struct Merging {
    total: usize,
    range: usize,
    buffer: Vec<CallEdge>,
    first: bool,
    collapsed: usize,
}

#[verifier::ext_equal]
pub struct MergingView {
    /// How many rows the table had.
    pub total: nat,
    /// The range at hand.
    pub range: nat,
    /// Rows that are to be written.
    pub buffer: Seq<CallEdgeView>,
    /// Whether nothing was written yet.
    pub first: bool,
    /// How many rows there are now that the versions of an edge share one.
    pub collapsed: nat,
}

impl View for Merging {
    type V = MergingView;

    closed spec fn view(&self) -> MergingView {
        MergingView {
            total: self.total as nat,
            range: self.range as nat,
            buffer: edges_view(self.buffer@),
            first: self.first,
            collapsed: self.collapsed as nat,
        }
    }
}

/// What is to be done next.
pub enum SortStep {
    /// Nothing more.
    Finished,
    /// Give up, with this message.
    Failed(String),
    /// Drop a staging table that may be left over and create an empty one; then
    /// [`Staging::prepared`].
    Prepare(Staging),
    /// Read the rows that [`Staging::filter`] finds in the table; then
    /// [`Staging::read`].
    ReadSource(Staging),
    /// Append these rows to the staging table; then [`Staging::appended`].
    AppendStaging(Staging, Vec<CallEdge>),
    /// Read the rows that [`Merging::filter`] finds in the staging table; then
    /// [`Merging::read`].
    ReadStaging(Merging),
    /// Write these rows to the table, in place of what it holds where the flag is
    /// set, behind it otherwise; then [`Merging::written`].
    Write(Merging, Vec<CallEdge>, bool),
    /// Count the rows of the table; then [`Merging::counted`].
    CountSorted(Merging),
    /// Drop the staging table: this many rows were sorted.
    DropStaging(usize),
}

#[verifier::ext_equal]
pub enum SortStepView {
    Finished,
    Failed(Seq<char>),
    Prepare(StagingView),
    ReadSource(StagingView),
    AppendStaging(StagingView, Seq<CallEdgeView>),
    ReadStaging(MergingView),
    Write(MergingView, Seq<CallEdgeView>, bool),
    CountSorted(MergingView),
    DropStaging(nat),
}

impl View for SortStep {
    type V = SortStepView;

    open spec fn view(&self) -> SortStepView {
        match *self {
            SortStep::Finished => SortStepView::Finished,
            SortStep::Failed(message) => SortStepView::Failed(message@),
            SortStep::Prepare(staging) => SortStepView::Prepare(staging@),
            SortStep::ReadSource(staging) => SortStepView::ReadSource(staging@),
            SortStep::AppendStaging(staging, rows) => SortStepView::AppendStaging(
                staging@,
                edges_view(rows@),
            ),
            SortStep::ReadStaging(merging) => SortStepView::ReadStaging(merging@),
            SortStep::Write(merging, rows, replace) => SortStepView::Write(
                merging@,
                edges_view(rows@),
                replace,
            ),
            SortStep::CountSorted(merging) => SortStepView::CountSorted(merging@),
            SortStep::DropStaging(total) => SortStepView::DropStaging(total as nat),
        }
    }
}

/// The second pass at its start.
pub open spec fn merging_start(total: nat) -> MergingView {
    MergingView { total, range: 0, buffer: seq![], first: true, collapsed: 0 }
}

/// How many of the rows have a version.
pub open spec fn rows_with_versions(edges: Seq<CallEdgeView>) -> nat {
    edges.filter(|edge: CallEdgeView| edge.caller_git_file_hashes.len() > 0).len()
}

/// The step after a range of the first pass is done. A row that did not reach the
/// staging table would be a caller lost, so all are counted.
pub open spec fn staging_next(staging: StagingView) -> SortStepView {
    if staging.range + 1 < bound_count() {
        SortStepView::ReadSource(StagingView { range: staging.range + 1, ..staging })
    } else if staging.written != staging.total {
        SortStepView::Failed(
            "staging call_edges lost rows: "@ + decimal(staging.written) + " of "@ + decimal(
                staging.total,
            ),
        )
    } else {
        SortStepView::ReadStaging(merging_start(staging.total))
    }
}

/// The step after the rows of a range were read in the first pass. A row without a
/// version does not go to the staging table.
pub open spec fn staging_read(
    staging: StagingView,
    edges: Seq<CallEdgeView>,
) -> SortStepView {
    let versions = all_versions(edges);
    if versions.len() == 0 {
        staging_next(staging)
    } else {
        SortStepView::AppendStaging(
            StagingView { written: staging.written + rows_with_versions(edges), ..staging },
            staged_rows(versions),
        )
    }
}

/// The step after a range of the second pass is done. What is left in the buffer
/// after the last range is written then.
pub open spec fn merging_next(merging: MergingView) -> SortStepView {
    if merging.range + 1 < bound_count() {
        SortStepView::ReadStaging(MergingView { range: merging.range + 1, ..merging })
    } else if merging.buffer.len() > 0 {
        SortStepView::Write(
            MergingView { buffer: seq![], first: false, ..merging },
            merging.buffer,
            merging.first,
        )
    } else {
        SortStepView::CountSorted(merging)
    }
}

/// The step after the rows of a range were read in the second pass.
pub open spec fn merging_read(merging: MergingView, edges: Seq<CallEdgeView>) -> SortStepView {
    let rows = collapsed(all_versions(edges));
    let buffer = merging.buffer + rows;
    if all_versions(edges).len() == 0 {
        merging_next(merging)
    } else if buffer.len() >= FLUSH_ROWS {
        SortStepView::Write(
            MergingView {
                buffer: seq![],
                first: false,
                collapsed: merging.collapsed + rows.len(),
                ..merging
            },
            buffer,
            merging.first,
        )
    } else {
        merging_next(
            MergingView { buffer, collapsed: merging.collapsed + rows.len(), ..merging },
        )
    }
}

/// The step after the rows of the rewritten table were counted.
pub open spec fn merging_counted(merging: MergingView, count: nat) -> SortStepView {
    if count != merging.collapsed {
        SortStepView::Failed(
            "sorted call_edges has "@ + decimal(count) + " rows, expected "@ + decimal(
                merging.collapsed,
            ),
        )
    } else {
        SortStepView::DropStaging(merging.total)
    }
}

/// The condition that finds the rows of the range at `range`.
fn range_condition(range: usize) -> (filter: String)
    requires
        range < bound_count(),
    ensures
        filter@ == range_filter(range as int),
{
    let list = partition_bounds();
    assert(texts(list@).len() == bound_count());
    assert(texts(list@)[range as int] == list@[range as int]@);
    if range + 1 < list.len() {
        assert(texts(list@)[range + 1] == list@[range + 1]@);
        String::from_str("callee >= '").concat(list[range].as_str()).concat(
            "' AND callee < '",
        ).concat(list[range + 1].as_str()).concat("'")
    } else {
        String::from_str("callee >= '").concat(list[range].as_str()).concat("'")
    }
}

/// How many of the rows have a version.
fn count_with_versions(edges: &Vec<CallEdge>) -> (count: usize)
    ensures
        count == rows_with_versions(edges_view(edges@)),
        count <= edges@.len(),
{
    let ghost rows = edges_view(edges@);
    let ghost versioned = |edge: CallEdgeView| edge.caller_git_file_hashes.len() > 0;
    let mut count: usize = 0;
    let mut i: usize = 0;
    proof {
        reveal(Seq::filter);
        assert(rows.take(0).filter(versioned) =~= seq![]);
    }
    while i < edges.len()
        invariant
            i <= edges@.len(),
            count <= i,
            rows == edges_view(edges@),
            versioned == (|edge: CallEdgeView| edge.caller_git_file_hashes.len() > 0),
            count == rows.take(i as int).filter(versioned).len(),
        decreases edges@.len() - i,
    {
        proof {
            reveal(Seq::filter);
            assert(rows.take(i + 1).drop_last() =~= rows.take(i as int));
            assert(rows.take(i + 1).last() == edges@[i as int]@);
            assert(texts(edges@[i as int].caller_git_file_hashes@).len()
                == edges@[i as int].caller_git_file_hashes@.len());
        }
        if edges[i].caller_git_file_hashes.len() > 0 {
            count = count + 1;
        }
        i = i + 1;
    }
    assert(rows.take(i as int) =~= rows);
    count
}

impl CallEdgeStore {
    /// Starts the rewrite of a table of `total` rows in the order of the callee.
    pub fn sort_by_callee(&self, total: usize) -> (step: SortStep)
        ensures
            step@ == (if total == 0 {
                SortStepView::Finished
            } else {
                SortStepView::Prepare(
                    StagingView { total: total as nat, written: 0, range: 0 },
                )
            }),
    {
        if total == 0 {
            SortStep::Finished
        } else {
            SortStep::Prepare(Staging { total, written: 0, range: 0 })
        }
    }
}

impl Staging {
    #[verifier::type_invariant]
    spec fn valid(self) -> bool {
        self.range < bound_count()
    }

    /// How many rows of the table went to the staging table.
    pub fn rows_written(&self) -> (rows: usize)
        ensures
            rows == self@.written,
    {
        self.written
    }

    /// The staging table is there and empty.
    pub fn prepared(self) -> (step: SortStep)
        ensures
            step@ == SortStepView::ReadSource(self@),
    {
        SortStep::ReadSource(self)
    }

    /// The condition that finds the rows of the range at hand.
    pub fn filter(&self) -> (filter: String)
        ensures
            filter@ == range_filter(self@.range as int),
    {
        proof {
            use_type_invariant(self);
        }
        range_condition(self.range)
    }

    /// The rows of the range at hand were read.
    pub fn read(self, edges: Vec<CallEdge>) -> (step: SortStep)
        requires
            self@.written + rows_with_versions(edges_view(edges@)) <= usize::MAX,
        ensures
            step@ == staging_read(self@, edges_view(edges@)),
    {
        proof {
            use_type_invariant(&self);
        }
        let versions = list_versions(&edges);
        assert(versions_view(versions@).len() == versions@.len());
        if versions.len() == 0 {
            return self.next();
        }
        let rows = append_sorted(&versions);
        let sources: usize = count_with_versions(&edges);
        SortStep::AppendStaging(
            Staging {
                total: self.total,
                written: self.written + sources,
                range: self.range,
            },
            rows,
        )
    }

    /// The rows of the range at hand went to the staging table.
    pub fn appended(self) -> (step: SortStep)
        ensures
            step@ == staging_next(self@),
    {
        self.next()
    }

    fn next(self) -> (step: SortStep)
        ensures
            step@ == staging_next(self@),
    {
        proof {
            use_type_invariant(&self);
        }
        if self.range < 63 {
            SortStep::ReadSource(
                Staging { total: self.total, written: self.written, range: self.range + 1 },
            )
        } else if self.written != self.total {
            SortStep::Failed(
                String::from_str("staging call_edges lost rows: ").concat(
                    number(self.written).as_str(),
                ).concat(" of ").concat(number(self.total).as_str()),
            )
        } else {
            let step = SortStep::ReadStaging(
                Merging {
                    total: self.total,
                    range: 0,
                    buffer: Vec::new(),
                    first: true,
                    collapsed: 0,
                },
            );
            assert(step@ =~= SortStepView::ReadStaging(merging_start(self.total as nat)));
            step
        }
    }
}

impl Merging {
    #[verifier::type_invariant]
    spec fn valid(self) -> bool {
        self.range < bound_count()
    }

    /// How many rows there are so far, with one for each edge.
    pub fn rows_collapsed(&self) -> (rows: usize)
        ensures
            rows == self@.collapsed,
    {
        self.collapsed
    }

    /// The condition that finds the rows of the range at hand.
    pub fn filter(&self) -> (filter: String)
        ensures
            filter@ == range_filter(self@.range as int),
    {
        proof {
            use_type_invariant(self);
        }
        range_condition(self.range)
    }

    /// The rows of the range at hand were read back.
    pub fn read(self, edges: Vec<CallEdge>) -> (step: SortStep)
        requires
            self@.collapsed + collapsed(all_versions(edges_view(edges@))).len() <= usize::MAX,
        ensures
            step@ == merging_read(self@, edges_view(edges@)),
    {
        proof {
            use_type_invariant(&self);
        }
        let versions = list_versions(&edges);
        assert(versions_view(versions@).len() == versions@.len());
        if versions.len() == 0 {
            return self.next();
        }
        let mut rows = collapse(&versions);
        let Merging { total, range, mut buffer, first, collapsed: before } = self;
        assert(edges_view(rows@).len() == rows@.len());
        let count: usize = before + rows.len();
        let ghost gathered = edges_view(buffer@) + edges_view(rows@);
        buffer.append(&mut rows);
        assert(edges_view(buffer@) =~= gathered);
        if buffer.len() >= FLUSH_ROWS {
            let left: Vec<CallEdge> = Vec::new();
            assert(edges_view(left@) =~= seq![]);
            SortStep::Write(
                Merging { total, range, buffer: left, first: false, collapsed: count },
                buffer,
                first,
            )
        } else {
            Merging { total, range, buffer, first, collapsed: count }.next()
        }
    }

    /// The rows were written.
    pub fn written(self) -> (step: SortStep)
        ensures
            step@ == merging_next(self@),
    {
        self.next()
    }

    fn next(self) -> (step: SortStep)
        ensures
            step@ == merging_next(self@),
    {
        proof {
            use_type_invariant(&self);
        }
        let Merging { total, range, buffer, first, collapsed } = self;
        if range < 63 {
            SortStep::ReadStaging(Merging { total, range: range + 1, buffer, first, collapsed })
        } else if buffer.len() > 0 {
            let left: Vec<CallEdge> = Vec::new();
            assert(edges_view(left@) =~= seq![]);
            SortStep::Write(
                Merging { total, range, buffer: left, first: false, collapsed },
                buffer,
                first,
            )
        } else {
            SortStep::CountSorted(Merging { total, range, buffer, first, collapsed })
        }
    }

    /// The rewritten table has `count` rows.
    pub fn counted(self, count: usize) -> (step: SortStep)
        ensures
            step@ == merging_counted(self@, count as nat),
    {
        if count != self.collapsed {
            SortStep::Failed(
                String::from_str("sorted call_edges has ").concat(number(count).as_str()).concat(
                    " rows, expected ",
                ).concat(number(self.collapsed).as_str()),
            )
        } else {
            SortStep::DropStaging(self.total)
        }
    }
}

} // verus!
