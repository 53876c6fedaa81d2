//! Which texts get vectors, and which vector each gets.

use vstd::prelude::*;

use crate::database::edge_rewrite::{merging_counted, MergingView, SortStepView};
use crate::database::scan_laws::{law_scan, scan_ends};
use crate::database::similar::{is_root_of, lemma_root, planned_index, root_of};
use crate::database::vectors::{
    after_shard_rows, all_paired, commit_update, cpu_chunk, new_content, new_emails, paired, unknown,
    unknown_count, worker_count, written, CommitText, CommitUpdateView, EmailText, ShardStepView,
    COMMIT_BATCH, MEMORY_CHUNK, SHARDS,
};
use crate::lists::{
    are_portions, concatenated, law_pieces_are_portions, lemma_concatenated_two, pieces,
};
use crate::text::trimmed;
use crate::text_laws::{all_white, law_trimmed};

verus! {

proof fn lemma_unknown_filter(list: Seq<(Seq<char>, Seq<char>)>, known: Set<Seq<char>>)
    ensures
        unknown(list, known) == list.filter(
            |entry: (Seq<char>, Seq<char>)| !known.contains(entry.0),
        ),
    decreases list.len(),
{
    reveal(Seq::filter);
    if list.len() > 0 {
        lemma_unknown_filter(list.drop_last(), known);
    }
}

proof fn lemma_new_content(table: Seq<(Seq<char>, Seq<char>)>, known: Set<Seq<char>>)
    ensures
        new_content(table, known) == needs_vectors(table, known),
    decreases table.len(),
{
    reveal(Seq::filter);
    if table.len() > 0 {
        let fewer = table.drop_last();
        let last = table.last();
        lemma_new_content(fewer, known);
        law_trimmed(last.1);
        if trimmed(last.1).len() > 0 {
            assert(written(table).drop_last() =~= written(fewer));
            assert(written(table).last() == last);
        }
    } else {
        assert(new_content(table, known) =~= seq![]);
    }
}

/// The entries of a table that need a vector: those with more than white space in their text
/// and a name that has none yet.
pub open spec fn needs_vectors(
    table: Seq<(Seq<char>, Seq<char>)>,
    known: Set<Seq<char>>,
) -> Seq<(Seq<char>, Seq<char>)> {
    table.filter(
        |entry: (Seq<char>, Seq<char>)| !all_white(entry.1) && !known.contains(entry.0),
    )
}

/// A scan of a table, portion by portion and however many processors share the work, hands out
/// for vectors exactly the entries that have more than white space in their text and no vector
/// yet, each once and in the order of the table, and ends.
pub proof fn law_contents_get_vectors(
    table: Seq<(Seq<char>, Seq<char>)>,
    known: Set<Seq<char>>,
    cpus: spec_fn(nat) -> nat,
)
    requires
        forall|n: nat| #[trigger] cpus(n) >= 1,
    ensures
        scan_ends(ShardStepView::Read(0), table, known, cpus, needs_vectors(table, known)),
{
    law_scan(table, known, cpus);
    lemma_new_content(table, known);
}

/// Where every batch got as many vectors as it has texts, each text is stored under its own
/// name with the vector that was made from it.
pub proof fn law_vectors_are_paired<V>(
    batches: Seq<Seq<(Seq<char>, Seq<char>)>>,
    vectors: Seq<Seq<V>>,
)
    requires
        batches.len() == vectors.len(),
        forall|k: int| 0 <= k < batches.len() ==> (#[trigger] batches[k]).len() == vectors[k].len(),
    ensures
        concatenated(batches).len() == concatenated(vectors).len(),
        all_paired(batches, vectors) == Seq::new(
            concatenated(batches).len(),
            |i: int| (concatenated(batches)[i].0, concatenated(vectors)[i]),
        ),
    decreases batches.len(),
{
    if batches.len() == 0 {
        assert(all_paired(batches, vectors) =~= Seq::new(
            concatenated(batches).len(),
            |i: int| (concatenated(batches)[i].0, concatenated(vectors)[i]),
        ));
    } else {
        let rest = batches.drop_first();
        let more = vectors.drop_first();
        assert forall|k: int| 0 <= k < rest.len() implies (#[trigger] rest[k]).len()
            == more[k].len() by {
            assert(batches[k + 1].len() == vectors[k + 1].len());
        }
        law_vectors_are_paired(rest, more);
        let first = seq![batches[0]];
        let second = seq![vectors[0]];
        lemma_concatenated_two(first, rest);
        lemma_concatenated_two(second, more);
        reveal_with_fuel(concatenated, 2);
        assert(first.drop_last() =~= seq![] && second.drop_last() =~= seq![]);
        assert(concatenated(first) =~= batches[0]);
        assert(concatenated(second) =~= vectors[0]);
        assert(batches =~= first + rest);
        assert(vectors =~= second + more);
        assert(batches[0].len() == vectors[0].len());
        assert(all_paired(batches, vectors) =~= Seq::new(
            concatenated(batches).len(),
            |i: int| (concatenated(batches)[i].0, concatenated(vectors)[i]),
        ));
    }
}

/// The texts of the commits that have no vector yet: the message, an empty line and the diff,
/// each under the id of the commit.
pub open spec fn commit_texts(
    commits: Seq<CommitText>,
    known: Set<Seq<char>>,
) -> Seq<(Seq<char>, Seq<char>)> {
    commits.filter(|commit: CommitText| !known.contains(commit.git_sha@)).map_values(
        |commit: CommitText| (commit.git_sha@, commit.message@ + "\n\n"@ + commit.diff@),
    )
}

proof fn lemma_commit_texts(commits: Seq<CommitText>, known: Set<Seq<char>>)
    ensures
        unknown(
            commits.map_values(
                |commit: CommitText| crate::database::vectors::commit_text(commit),
            ),
            known,
        ) == commit_texts(commits, known),
    decreases commits.len(),
{
    reveal(Seq::filter);
    let f = |commit: CommitText| crate::database::vectors::commit_text(commit);
    let g = |commit: CommitText| (commit.git_sha@, commit.message@ + "\n\n"@ + commit.diff@);
    if commits.len() > 0 {
        let fewer = commits.drop_last();
        lemma_commit_texts(fewer, known);
        assert(commits.map_values(f).drop_last() =~= fewer.map_values(f));
        let kept = fewer.filter(|commit: CommitText| !known.contains(commit.git_sha@));
        assert(kept.push(commits.last()).map_values(g) =~= kept.map_values(g).push(
            g(commits.last()),
        ));
        assert(unknown(commits.map_values(f), known) =~= commit_texts(commits, known));
    } else {
        assert(unknown(commits.map_values(f), known) =~= commit_texts(commits, known));
    }
}

/// The commits without a vector get one, each from its message and its diff, in batches of five
/// hundred; where there are no commits, or none without a vector, that is told.
pub proof fn law_commits_get_vectors(commits: Seq<CommitText>, known: Set<Seq<char>>)
    ensures
        match commit_update(commits, known) {
            CommitUpdateView::NoCommits => commits.len() == 0,
            CommitUpdateView::AllDone => commits.len() > 0 && forall|i: int|
                0 <= i < commits.len() ==> known.contains((#[trigger] commits[i]).git_sha@),
            CommitUpdateView::Batches(batches) => batches.len() > 0 && are_portions(
                batches,
                commit_texts(commits, known),
                500,
            ),
        },
{
    lemma_commit_texts(commits, known);
    let fresh = commit_texts(commits, known);
    law_pieces_are_portions(fresh, COMMIT_BATCH as nat);
    if commits.len() > 0 && fresh.len() == 0 {
        let wanted = |commit: CommitText| !known.contains(commit.git_sha@);
        assert forall|i: int| 0 <= i < commits.len() implies known.contains(
            (#[trigger] commits[i]).git_sha@,
        ) by {
            if wanted(commits[i]) {
                broadcast use vstd::seq_lib::group_filter_ensures;

                assert(commits.filter(wanted).contains(commits[i]));
            }
        }
    }
    if fresh.len() > 0 {
        assert(pieces(fresh, COMMIT_BATCH as nat).len() > 0);
    }
}

/// The texts of the emails that have no vector yet: the sender, the recipients, the subject and
/// the body, each under the id of the email.
pub open spec fn email_texts(
    emails: Seq<EmailText>,
    known: Set<Seq<char>>,
) -> Seq<(Seq<char>, Seq<char>)> {
    emails.filter(|email: EmailText| !known.contains(email.message_id@)).map_values(
        |email: EmailText|
            (
                email.message_id@,
                "From: "@ + email.from@ + "\nTo/Cc: "@ + email.recipients@ + "\nSubject: "@
                    + email.subject@ + "\n\n"@ + email.body@,
            ),
    )
}

/// The emails without a vector get one, each from its sender, recipients, subject and body.
pub proof fn law_emails_get_vectors(emails: Seq<EmailText>, known: Set<Seq<char>>)
    ensures
        new_emails(emails, known) == email_texts(emails, known),
    decreases emails.len(),
{
    reveal(Seq::filter);
    let f = |email: EmailText| crate::database::vectors::email_text(email);
    let g = |email: EmailText|
        (
            email.message_id@,
            "From: "@ + email.from@ + "\nTo/Cc: "@ + email.recipients@ + "\nSubject: "@
                + email.subject@ + "\n\n"@ + email.body@,
        );
    if emails.len() > 0 {
        let fewer = emails.drop_last();
        law_emails_get_vectors(fewer, known);
        assert(emails.map_values(f).drop_last() =~= fewer.map_values(f));
        let kept = fewer.filter(|email: EmailText| !known.contains(email.message_id@));
        assert(kept.push(emails.last()).map_values(g) =~= kept.map_values(g).push(
            g(emails.last()),
        ));
        assert(new_emails(emails, known) =~= email_texts(emails, known));
    } else {
        assert(new_emails(emails, known) =~= email_texts(emails, known));
    }
}

/// As many emails need a vector as have an id that has none yet.
pub proof fn law_emails_counted(ids: Seq<Seq<char>>, known: Set<Seq<char>>)
    ensures
        unknown_count(ids, known) == ids.filter(|id: Seq<char>| !known.contains(id)).len(),
    decreases ids.len(),
{
    reveal(Seq::filter);
    if ids.len() > 0 {
        law_emails_counted(ids.drop_last(), known);
    }
}

/// A processor gets no fewer than ten texts at a time, and as many as its share where that is
/// more; there are no fewer than four workers for emails, and one for each processor where
/// there are more.
pub proof fn law_work_is_shared(count: nat, cpus: nat)
    requires
        cpus > 0,
    ensures
        cpu_chunk(count, cpus) >= 10,
        cpu_chunk(count, cpus) > 10 ==> cpu_chunk(count, cpus) == count / cpus,
        cpu_chunk(count, cpus) >= count / cpus,
        worker_count(cpus) >= 4 && worker_count(cpus) >= cpus,
        worker_count(cpus) == 4 || worker_count(cpus) == cpus,
{
}

/// A sort that leaves another number of rows than it has written fails; else it ends.
pub proof fn law_sort_is_counted(merging: MergingView, count: nat)
    ensures
        merging_counted(merging, count) is Failed <==> count != merging.collapsed,
        count == merging.collapsed ==> merging_counted(merging, count)
            == SortStepView::DropStaging(merging.total),
{
}

/// An index is planned for ten vectors or more. It has as many partitions as the whole root of
/// their number; of up to 255 vectors no fewer than two and no more than there are vectors, of
/// more from 256 to 1024. It is trained on no more than 256 vectors for each partition.
pub proof fn law_index_is_planned(count: nat)
    ensures
        planned_index(count) is None <==> count < 10,
        planned_index(count) matches Some(plan) ==> {
            &&& exists|root: nat|
                #![trigger root * root]
                root * root <= count && count < (root + 1) * (root + 1) && (if count < 256 {
                    plan.num_partitions == root || (root < 2 && plan.num_partitions == 2)
                } else {
                    plan.num_partitions == root || (root < 256 && plan.num_partitions == 256) || (
                    root > 1024 && plan.num_partitions == 1024)
                })
            &&& count < 256 ==> 2 <= plan.num_partitions <= count && plan.sample_rate == count
            &&& count >= 256 ==> 256 <= plan.num_partitions <= 1024 && plan.sample_rate == 256
            &&& plan.num_sub_vectors == 8 && plan.num_bits == 8 && plan.max_iterations == 50
        },
{
    lemma_root(count);
    let root = root_of(count);
    assert(is_root_of(root, count));
    if 10 <= count < 256 {
        assert(root <= count) by (nonlinear_arith)
            requires
                root * root <= count,
        ;
    }
    assert(root * root <= count);
}

/// A table of contents is read ten thousand entries at a time, and there are sixteen of them: a
/// portion without entries is the last, one without new texts is followed by the next, and the
/// new texts of any other are handed out before.
pub proof fn law_contents_are_portioned(
    at: nat,
    rows: Seq<(Seq<char>, Seq<char>)>,
    known: Set<Seq<char>>,
    cpus: nat,
)
    requires
        cpus > 0,
    ensures
        MEMORY_CHUNK == 10_000,
        SHARDS == 16,
        rows.len() == 0 <==> after_shard_rows(at, rows, known, cpus) is Done,
        rows.len() > 0 && needs_vectors(rows, known).len() == 0 ==> after_shard_rows(
            at,
            rows,
            known,
            cpus,
        ) == ShardStepView::Read(at + 10_000),
        rows.len() > 0 && needs_vectors(rows, known).len() > 0 ==> (after_shard_rows(
            at,
            rows,
            known,
            cpus,
        ) matches ShardStepView::Vectorize(place, batches) && place == at && are_portions(
            batches,
            needs_vectors(rows, known),
            cpu_chunk(needs_vectors(rows, known).len(), cpus),
        )),
{
    lemma_new_content(rows, known);
    let fresh = new_content(rows, known);
    law_pieces_are_portions(fresh, cpu_chunk(fresh.len(), cpus));
}

/// Of a batch that got fewer vectors than it has texts, or more, the first texts get the first
/// vectors, as far as both go.
pub proof fn law_batch_is_paired<V>(batch: Seq<(Seq<char>, Seq<char>)>, vectors: Seq<V>)
    ensures
        paired(batch, vectors).len() <= batch.len() && paired(batch, vectors).len()
            <= vectors.len(),
        paired(batch, vectors).len() == batch.len() || paired(batch, vectors).len()
            == vectors.len(),
        forall|i: int|
            0 <= i < paired(batch, vectors).len() ==> (#[trigger] paired(batch, vectors)[i])
                == (batch[i].0, vectors[i]),
        all_paired(seq![batch], seq![vectors]) == paired(batch, vectors),
{
    reveal_with_fuel(all_paired, 2);
    assert(all_paired(seq![batch], seq![vectors]) =~= paired(batch, vectors));
}

} // verus!
