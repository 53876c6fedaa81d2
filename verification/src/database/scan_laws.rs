//! What a scan of one table of contents hands out for vectors.

use vstd::prelude::*;

use crate::database::vectors::{
    after_shard_rows, cpu_chunk, new_content, unknown, written, ShardStepView, MEMORY_CHUNK,
};
use crate::lists::{concatenated, law_pieces_cover, pieces};

verus! {

/// The entries of a table that are read from an offset on.
pub open spec fn portion(table: Seq<(Seq<char>, Seq<char>)>, at: nat) -> Seq<
    (Seq<char>, Seq<char>),
> {
    if at >= table.len() {
        seq![]
    } else if at + MEMORY_CHUNK >= table.len() {
        table.skip(at as int)
    } else {
        table.subrange(at as int, at + MEMORY_CHUNK)
    }
}

/// The step after a step was answered: entries were read, shared among as many processors
/// as `cpus` says for the offset, or the vectors of texts were made.
pub open spec fn scanned(
    step: ShardStepView,
    table: Seq<(Seq<char>, Seq<char>)>,
    known: Set<Seq<char>>,
    cpus: spec_fn(nat) -> nat,
) -> ShardStepView {
    match step {
        ShardStepView::Done => step,
        ShardStepView::Read(at) => after_shard_rows(at, portion(table, at), known, cpus(at)),
        ShardStepView::Vectorize(at, _) => ShardStepView::Read(at + MEMORY_CHUNK as nat),
    }
}

/// The step that a scan has reached after some answers.
pub open spec fn scan_run(
    step: ShardStepView,
    table: Seq<(Seq<char>, Seq<char>)>,
    known: Set<Seq<char>>,
    cpus: spec_fn(nat) -> nat,
    steps: nat,
) -> ShardStepView
    decreases steps,
{
    if steps == 0 {
        step
    } else {
        scan_run(scanned(step, table, known, cpus), table, known, cpus, (steps - 1) as nat)
    }
}

/// The texts that a scan hands out for vectors within some answers, one after the other.
pub open spec fn handed_out(
    step: ShardStepView,
    table: Seq<(Seq<char>, Seq<char>)>,
    known: Set<Seq<char>>,
    cpus: spec_fn(nat) -> nat,
    steps: nat,
) -> Seq<(Seq<char>, Seq<char>)>
    decreases steps,
{
    if steps == 0 {
        seq![]
    } else {
        let rest = handed_out(
            scanned(step, table, known, cpus),
            table,
            known,
            cpus,
            (steps - 1) as nat,
        );
        match step {
            ShardStepView::Vectorize(_, batches) => concatenated(batches) + rest,
            _ => rest,
        }
    }
}

/// Whether a scan ends, and has handed out these texts by then.
pub open spec fn scan_ends(
    step: ShardStepView,
    table: Seq<(Seq<char>, Seq<char>)>,
    known: Set<Seq<char>>,
    cpus: spec_fn(nat) -> nat,
    found: Seq<(Seq<char>, Seq<char>)>,
) -> bool {
    exists|steps: nat|
        #[trigger] scan_run(step, table, known, cpus, steps) == ShardStepView::Done && handed_out(
            step,
            table,
            known,
            cpus,
            steps,
        ) == found
}

proof fn lemma_written_two(x: Seq<(Seq<char>, Seq<char>)>, y: Seq<(Seq<char>, Seq<char>)>)
    ensures
        written(x + y) == written(x) + written(y),
    decreases y.len(),
{
    if y.len() == 0 {
        assert(x + y =~= x);
        assert(written(x) + written(y) =~= written(x));
    } else {
        assert((x + y).drop_last() =~= x + y.drop_last());
        assert((x + y).last() == y.last());
        lemma_written_two(x, y.drop_last());
        assert(written(x + y) =~= written(x) + written(y));
    }
}

proof fn lemma_unknown_two(
    x: Seq<(Seq<char>, Seq<char>)>,
    y: Seq<(Seq<char>, Seq<char>)>,
    known: Set<Seq<char>>,
)
    ensures
        unknown(x + y, known) == unknown(x, known) + unknown(y, known),
    decreases y.len(),
{
    if y.len() == 0 {
        assert(x + y =~= x);
        assert(unknown(x, known) + unknown(y, known) =~= unknown(x, known));
    } else {
        assert((x + y).drop_last() =~= x + y.drop_last());
        assert((x + y).last() == y.last());
        lemma_unknown_two(x, y.drop_last(), known);
        assert(unknown(x + y, known) =~= unknown(x, known) + unknown(y, known));
    }
}

/// What is handed out by a step and what follows it.
proof fn lemma_scan_step(
    step: ShardStepView,
    table: Seq<(Seq<char>, Seq<char>)>,
    known: Set<Seq<char>>,
    cpus: spec_fn(nat) -> nat,
    found: Seq<(Seq<char>, Seq<char>)>,
)
    requires
        scan_ends(scanned(step, table, known, cpus), table, known, cpus, found),
    ensures
        scan_ends(
            step,
            table,
            known,
            cpus,
            match step {
                ShardStepView::Vectorize(_, batches) => concatenated(batches) + found,
                _ => found,
            },
        ),
{
    let next = scanned(step, table, known, cpus);
    let steps = choose|steps: nat|
        #[trigger] scan_run(next, table, known, cpus, steps) == ShardStepView::Done && handed_out(
            next,
            table,
            known,
            cpus,
            steps,
        ) == found;
    assert(scan_run(step, table, known, cpus, (steps + 1) as nat) == ShardStepView::Done);
}

proof fn lemma_scan_from(
    at: nat,
    table: Seq<(Seq<char>, Seq<char>)>,
    known: Set<Seq<char>>,
    cpus: spec_fn(nat) -> nat,
)
    requires
        forall|n: nat| #[trigger] cpus(n) >= 1,
        at <= table.len() + MEMORY_CHUNK,
    ensures
        scan_ends(
            ShardStepView::Read(at),
            table,
            known,
            cpus,
            if at >= table.len() {
                seq![]
            } else {
                new_content(table.skip(at as int), known)
            },
        ),
    decreases table.len() + MEMORY_CHUNK - at,
{
    let step = ShardStepView::Read(at);
    let next = scanned(step, table, known, cpus);
    let rows = portion(table, at);
    if at >= table.len() {
        assert(scan_run(next, table, known, cpus, 0) == ShardStepView::Done);
        assert(handed_out(next, table, known, cpus, 0) =~= seq![]);
        lemma_scan_step(step, table, known, cpus, seq![]);
    } else {
        let after = at + MEMORY_CHUNK as nat;
        let fresh = new_content(rows, known);
        let rest = if after >= table.len() {
            seq![]
        } else {
            new_content(table.skip(after as int), known)
        };
        lemma_scan_from(after, table, known, cpus);
        assert(fresh + rest =~= new_content(table.skip(at as int), known)) by {
            if after < table.len() {
                let tail = table.skip(after as int);
                assert(table.skip(at as int) =~= rows + tail);
                lemma_written_two(rows, tail);
                lemma_unknown_two(written(rows), written(tail), known);
            }
        }
        if fresh.len() == 0 {
            assert(fresh + rest =~= rest);
        } else {
            let size = cpu_chunk(fresh.len(), cpus(at));
            assert(next == ShardStepView::Vectorize(at, pieces(fresh, size)));
            law_pieces_cover(fresh, size);
            lemma_scan_step(next, table, known, cpus, rest);
        }
        lemma_scan_step(step, table, known, cpus, fresh + rest);
    }
}

/// A scan of a table that hands out its entries portion by portion ends. However many
/// processors share the work, the texts it hands out for vectors, one after the other, are
/// those of the whole table that are more than white space and have no vector yet, in the
/// order of the table.
pub proof fn law_scan(
    table: Seq<(Seq<char>, Seq<char>)>,
    known: Set<Seq<char>>,
    cpus: spec_fn(nat) -> nat,
)
    requires
        forall|n: nat| #[trigger] cpus(n) >= 1,
    ensures
        scan_ends(ShardStepView::Read(0), table, known, cpus, new_content(table, known)),
{
    lemma_scan_from(0, table, known, cpus);
    if table.len() == 0 {
        assert(new_content(table, known) =~= seq![]);
    } else {
        assert(table.skip(0) =~= table);
    }
}

} // verus!
