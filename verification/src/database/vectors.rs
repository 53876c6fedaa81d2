//! Which texts still need a vector, and the batches in which they get one.
//!
//! What turns a text into a vector stands outside. Here a vector is whatever comes
//! back for a text.

use vstd::hash_set::StringHashSet;
use vstd::prelude::*;
use vstd::string::*;

use crate::database::similar::VectorSearchManager;
use crate::lists::{concatenated, cut, lemma_concatenated_two, lists, pieces};
use crate::text::{decimal, number, texts, to_chars, trim, trimmed};

verus! {

/// How many tables the contents are spread over.
pub const SHARDS: usize = 16;

/// How many entries of one such table are held in memory at a time.
pub const MEMORY_CHUNK: usize = 10000;

/// How many commits get their vectors at a time.
pub const COMMIT_BATCH: usize = 500;

/// The least number of texts that one processor gets at a time.
pub const CPU_CHUNK_MINIMUM: usize = 10;

/// The least number of workers for emails.
pub const WORKERS_MINIMUM: usize = 4;

/// A vector with the name that it is stored under.
#[derive(Debug)]
pub struct VectorEntry<V> {
    pub content_hash: String,
    pub vector: V,
}

/// The contents of a list of vectors with their names.
pub open spec fn entries_view<V>(entries: Seq<VectorEntry<V>>) -> Seq<(Seq<char>, V)> {
    entries.map_values(|entry: VectorEntry<V>| (entry.content_hash@, entry.vector))
}

/// The contents of a list of names with texts.
pub open spec fn named_texts(list: Seq<(String, String)>) -> Seq<(Seq<char>, Seq<char>)> {
    list.map_values(|entry: (String, String)| (entry.0@, entry.1@))
}

/// The contents of a list of lists of names with texts.
pub open spec fn named_batches(batches: Seq<Vec<(String, String)>>) -> Seq<
    Seq<(Seq<char>, Seq<char>)>,
> {
    batches.map_values(|batch: Vec<(String, String)>| named_texts(batch@))
}

/// Names paired with vectors, as far as both go.
pub open spec fn paired<V>(
    batch: Seq<(Seq<char>, Seq<char>)>,
    vectors: Seq<V>,
) -> Seq<(Seq<char>, V)> {
    Seq::new(
        if batch.len() < vectors.len() {
            batch.len()
        } else {
            vectors.len()
        },
        |i: int| (batch[i].0, vectors[i]),
    )
}

/// Of names with texts, those whose name is not known yet.
pub open spec fn unknown(
    list: Seq<(Seq<char>, Seq<char>)>,
    known: Set<Seq<char>>,
) -> Seq<(Seq<char>, Seq<char>)>
    decreases list.len(),
{
    if list.len() == 0 {
        seq![]
    } else {
        let before = unknown(list.drop_last(), known);
        if known.contains(list.last().0) {
            before
        } else {
            before.push(list.last())
        }
    }
}

/// Of names with texts, those whose text is more than white space.
pub open spec fn written(list: Seq<(Seq<char>, Seq<char>)>) -> Seq<(Seq<char>, Seq<char>)>
    decreases list.len(),
{
    if list.len() == 0 {
        seq![]
    } else {
        let before = written(list.drop_last());
        if trimmed(list.last().1).len() == 0 {
            before
        } else {
            before.push(list.last())
        }
    }
}

/// Names that have a vector already.
pub struct Known {
    names: StringHashSet,
}

impl View for Known {
    type V = Set<Seq<char>>;

    closed spec fn view(&self) -> Set<Seq<char>> {
        self.names@
    }
}

/// The entries of a list, as a set.
pub open spec fn set_of(list: Seq<Seq<char>>) -> Set<Seq<char>> {
    Set::new(|text: Seq<char>| list.contains(text))
}

impl Known {
    /// The names of a list.
    pub fn of(names: &Vec<String>) -> (known: Known)
        ensures
            known@ == set_of(texts(names@)),
    {
        let set = crate::database::lore_fields::set_of_texts(names);
        assert(set@ =~= set_of(texts(names@)));
        Known { names: set }
    }

    /// Whether a name has a vector already.
    pub fn has(&self, name: &str) -> (yes: bool)
        ensures
            yes == self@.contains(name@),
    {
        self.names.contains(name)
    }
}

/// Of names with texts, those whose name is not known yet and whose text, where
/// `blank` is not wanted, is more than white space.
fn keep_unknown(list: Vec<(String, String)>, known: &Known, blank: bool) -> (kept: Vec<
    (String, String),
>)
    ensures
        named_texts(kept@) == unknown(
            if blank {
                named_texts(list@)
            } else {
                written(named_texts(list@))
            },
            known@,
        ),
{
    let ghost all = named_texts(list@);
    let ghost wanted = |n: int|
        if blank {
            all.take(n)
        } else {
            written(all.take(n))
        };
    let mut kept: Vec<(String, String)> = Vec::new();
    let mut i: usize = 0;
    assert(all.take(0) =~= seq![]);
    assert(named_texts(kept@) =~= unknown(wanted(0), known@));
    while i < list.len()
        invariant
            i <= list@.len(),
            all == named_texts(list@),
            wanted == (|n: int|
                if blank {
                    all.take(n)
                } else {
                    written(all.take(n))
                }),
            named_texts(kept@) == unknown(wanted(i as int), known@),
        decreases list@.len() - i,
    {
        let ghost before = named_texts(kept@);
        let entry = &list[i];
        proof {
            assert(all.take(i + 1).drop_last() =~= all.take(i as int));
            assert(all.take(i + 1).last() == (entry.0@, entry.1@));
            assert(all.take(i + 1) =~= all.take(i as int).push(all[i as int]));
        }
        let text = to_chars(trim(entry.1.as_str()).as_str());
        let keep = blank || text.len() > 0;
        proof {
            let w = wanted(i as int);
            if keep {
                assert(wanted(i + 1) =~= w.push(all[i as int]));
                assert(w.push(all[i as int]).drop_last() =~= w);
            } else {
                assert(wanted(i + 1) =~= w);
            }
        }
        if keep && !known.has(entry.0.as_str()) {
            kept.push((entry.0.clone(), entry.1.clone()));
            assert(named_texts(kept@) =~= before.push(all[i as int]));
        }
        i = i + 1;
    }
    assert(all.take(i as int) =~= all);
    kept
}

/// Pairs the names of a batch with the vectors of its texts.
pub fn pair_vectors<V>(batch: &Vec<(String, String)>, vectors: Vec<V>) -> (entries: Vec<
    VectorEntry<V>,
>)
    ensures
        entries_view(entries@) == paired(named_texts(batch@), vectors@),
{
    let ghost all = paired(named_texts(batch@), vectors@);
    let ghost given = vectors@;
    let mut vectors = vectors;
    vectors.truncate(batch.len());
    let mut backwards: Vec<VectorEntry<V>> = Vec::new();
    let count: usize = vectors.len();
    while vectors.len() > 0
        invariant
            count <= batch@.len(),
            count == all.len(),
            vectors@.len() + backwards@.len() == count,
            count <= given.len(),
            vectors@ == given.take(vectors@.len() as int),
            all == paired(named_texts(batch@), given),
            forall|k: int|
                0 <= k < backwards@.len() ==> ((#[trigger] backwards@[k]).content_hash@,
                backwards@[k].vector) == all[count - 1 - k],
        decreases vectors@.len(),
    {
        let at: usize = vectors.len() - 1;
        match vectors.pop() {
            Some(vector) => {
                assert(vector == given[at as int]);
                backwards.push(VectorEntry { content_hash: batch[at].0.clone(), vector });
            },
            None => {},
        }
    }
    let mut entries: Vec<VectorEntry<V>> = Vec::new();
    while backwards.len() > 0
        invariant
            count == all.len(),
            entries@.len() + backwards@.len() == count,
            forall|k: int|
                0 <= k < backwards@.len() ==> ((#[trigger] backwards@[k]).content_hash@,
                backwards@[k].vector) == all[count - 1 - k],
            forall|k: int|
                0 <= k < entries@.len() ==> ((#[trigger] entries@[k]).content_hash@,
                entries@[k].vector) == all[k],
        decreases backwards@.len(),
    {
        let ghost before = backwards@;
        match backwards.pop() {
            Some(entry) => {
                assert(entry == before[before.len() - 1]);
                entries.push(entry);
            },
            None => {},
        }
    }
    assert(entries_view(entries@) =~= all);
    entries
}

/// The pieces of a list of names with texts, seen by their contents.
proof fn lemma_named_pieces(list: Seq<(String, String)>, size: nat)
    ensures
        pieces(named_texts(list), size) == pieces(list, size).map_values(
            |piece: Seq<(String, String)>| named_texts(piece),
        ),
    decreases list.len(),
{
    let all = named_texts(list);
    let seen = pieces(list, size).map_values(|piece: Seq<(String, String)>| named_texts(piece));
    if list.len() == 0 || size == 0 {
        assert(pieces(all, size) =~= seen);
    } else if list.len() <= size {
        assert(pieces(all, size) =~= seen);
    } else {
        let rest = list.skip(size as int);
        lemma_named_pieces(rest, size);
        assert(named_texts(rest) =~= all.skip(size as int));
        assert(named_texts(list.take(size as int)) =~= all.take(size as int));
        assert(pieces(all, size) =~= seen);
    }
}

/// Cuts names with texts into batches.
fn cut_named(list: Vec<(String, String)>, size: usize) -> (batches: Vec<Vec<(String, String)>>)
    requires
        size > 0,
    ensures
        named_batches(batches@) == pieces(named_texts(list@), size as nat),
{
    let ghost all = list@;
    let batches = cut(list, size);
    proof {
        lemma_named_pieces(all, size as nat);
        assert(named_batches(batches@) =~= pieces(named_texts(all), size as nat)) by {
            assert(lists(batches@).len() == batches@.len());
            assert forall|k: int| 0 <= k < batches@.len() implies named_batches(batches@)[k]
                == pieces(named_texts(all), size as nat)[k] by {
                assert(lists(batches@)[k] == batches@[k]@);
            }
        }
    }
    batches
}

/// `num_cpus::get`: the number of processors that can be used, which is at least
/// one. What it is depends on the machine.
#[verifier::external_body]
fn processor_count() -> (count: usize)
    ensures
        count >= 1,
{
    num_cpus::get()
}

/// How many texts one of `cpus` processors gets at a time.
pub open spec fn cpu_chunk(count: nat, cpus: nat) -> nat {
    if count / cpus < CPU_CHUNK_MINIMUM {
        CPU_CHUNK_MINIMUM as nat
    } else {
        count / cpus
    }
}

/// The name of a table of contents.
pub fn shard_table(shard: usize) -> (name: String)
    ensures
        name@ == "content_"@ + decimal(shard as nat),
{
    String::from_str("content_").concat(number(shard).as_str())
}

/// A scan of one table of contents.
pub struct ShardScan {
    offset: usize,
}

/// A scan that waits for the vectors of texts.
pub struct AwaitVectors {
    scan: ShardScan,
    batches: Vec<Vec<(String, String)>>,
}

impl ShardScan {
    pub closed spec fn at(&self) -> nat {
        self.offset as nat
    }
}

impl AwaitVectors {
    pub closed spec fn at(&self) -> nat {
        self.scan.at()
    }

    pub closed spec fn batches(&self) -> Seq<Seq<(Seq<char>, Seq<char>)>> {
        named_batches(self.batches@)
    }
}

/// What is to be done next with one table of contents.
pub enum ShardStep {
    /// Nothing more.
    Done,
    /// Read [`MEMORY_CHUNK`] entries from this offset on; then [`ShardScan::rows`].
    Read(usize, ShardScan),
    /// Turn the texts of each batch into vectors, the batches at the same time; then
    /// [`AwaitVectors::vectors`].
    Vectorize(AwaitVectors),
}

#[verifier::ext_equal]
pub enum ShardStepView {
    Done,
    Read(nat),
    Vectorize(nat, Seq<Seq<(Seq<char>, Seq<char>)>>),
}

impl View for ShardStep {
    type V = ShardStepView;

    open spec fn view(&self) -> ShardStepView {
        match *self {
            ShardStep::Done => ShardStepView::Done,
            ShardStep::Read(offset, scan) => ShardStepView::Read(offset as nat),
            ShardStep::Vectorize(wait) => ShardStepView::Vectorize(wait.at(), wait.batches()),
        }
    }
}

/// Of the entries of a table of contents, those that need a vector.
pub open spec fn new_content(
    rows: Seq<(Seq<char>, Seq<char>)>,
    known: Set<Seq<char>>,
) -> Seq<(Seq<char>, Seq<char>)> {
    unknown(written(rows), known)
}

/// The step after entries came. A scan ends where there are no more.
pub open spec fn after_shard_rows(
    at: nat,
    rows: Seq<(Seq<char>, Seq<char>)>,
    known: Set<Seq<char>>,
    cpus: nat,
) -> ShardStepView {
    let fresh = new_content(rows, known);
    if rows.len() == 0 {
        ShardStepView::Done
    } else if fresh.len() == 0 {
        ShardStepView::Read(at + MEMORY_CHUNK as nat)
    } else {
        ShardStepView::Vectorize(at, pieces(fresh, cpu_chunk(fresh.len(), cpus)))
    }
}

/// The vectors of all batches with their names, one batch after the other.
pub open spec fn all_paired<V>(
    batches: Seq<Seq<(Seq<char>, Seq<char>)>>,
    vectors: Seq<Seq<V>>,
) -> Seq<(Seq<char>, V)>
    decreases batches.len(),
{
    if batches.len() == 0 || vectors.len() == 0 {
        seq![]
    } else {
        paired(batches[0], vectors[0]) + all_paired(batches.drop_first(), vectors.drop_first())
    }
}

impl ShardScan {
    /// A scan of a table from its start.
    pub fn start() -> (step: ShardStep)
        ensures
            step@ == ShardStepView::Read(0),
            step matches ShardStep::Read(offset, scan) && offset == 0 && scan.at() == 0,
    {
        ShardStep::Read(0, ShardScan { offset: 0 })
    }

    /// The entries that were read, to be shared among `cpus` processors.
    pub fn rows_for(
        self,
        rows: Vec<(String, String)>,
        known: &Known,
        cpus: usize,
    ) -> (step: ShardStep)
        requires
            rows@.len() > 0 ==> self.at() + MEMORY_CHUNK <= usize::MAX,
            cpus >= 1,
        ensures
            step@ == after_shard_rows(self.at(), named_texts(rows@), known@, cpus as nat),
            step matches ShardStep::Read(offset, scan) ==> scan.at() == offset,
    {
        assert(named_texts(rows@).len() == rows@.len());
        if rows.len() == 0 {
            return ShardStep::Done;
        }
        let fresh = keep_unknown(rows, known, false);
        assert(named_texts(fresh@).len() == fresh@.len());
        if fresh.len() == 0 {
            let offset: usize = self.offset + MEMORY_CHUNK;
            return ShardStep::Read(offset, ShardScan { offset });
        }
        let share: usize = fresh.len() / cpus;
        let size: usize = if share < CPU_CHUNK_MINIMUM {
            CPU_CHUNK_MINIMUM
        } else {
            share
        };
        let batches = cut_named(fresh, size);
        ShardStep::Vectorize(AwaitVectors { scan: self, batches })
    }

    /// The entries that were read, to be shared among the processors there are.
    pub fn rows(self, rows: Vec<(String, String)>, known: &Known) -> (step: ShardStep)
        requires
            rows@.len() > 0 ==> self.at() + MEMORY_CHUNK <= usize::MAX,
        ensures
            exists|cpus: nat|
                cpus >= 1 && step@ == #[trigger] after_shard_rows(
                    self.at(),
                    named_texts(rows@),
                    known@,
                    cpus,
                ),
            step matches ShardStep::Read(offset, scan) ==> scan.at() == offset,
    {
        let cpus = processor_count();
        let ghost at = self.at();
        let ghost all = named_texts(rows@);
        let step = self.rows_for(rows, known, cpus);
        assert(step@ == after_shard_rows(at, all, known@, cpus as nat));
        step
    }
}

impl AwaitVectors {
    /// The batches of texts that are to become vectors.
    pub fn texts(&self) -> (batches: &Vec<Vec<(String, String)>>)
        ensures
            named_batches(batches@) == self.batches(),
    {
        &self.batches
    }

    /// The vectors of the batches: those to store, and the scan that goes on with
    /// the entries that follow.
    pub fn vectors<V>(self, vectors: Vec<Vec<V>>) -> (next: (Vec<VectorEntry<V>>, ShardStep))
        requires
            self.at() + MEMORY_CHUNK <= usize::MAX,
        ensures
            entries_view(next.0@) == all_paired(self.batches(), lists(vectors@)),
            next.1@ == ShardStepView::Read(self.at() + MEMORY_CHUNK as nat),
            next.1 matches ShardStep::Read(offset, scan) ==> scan.at() == offset,
    {
        let ghost all = all_paired(self.batches(), lists(vectors@));
        let ghost given = lists(vectors@);
        let ghost wanted = self.batches();
        let mut vectors = vectors;
        let mut entries: Vec<VectorEntry<V>> = Vec::new();
        vectors.truncate(self.batches.len());
        let count: usize = vectors.len();
        let mut forwards: Vec<Vec<V>> = Vec::new();
        while vectors.len() > 0
            invariant
                vectors@.len() + forwards@.len() == count,
                count <= given.len(),
                forall|k: int| 0 <= k < vectors@.len() ==> (#[trigger] vectors@[k])@ == given[k],
                forall|k: int|
                    0 <= k < forwards@.len() ==> (#[trigger] forwards@[k])@ == given[count - 1 - k],
            decreases vectors@.len(),
        {
            let ghost before = vectors@;
            match vectors.pop() {
                Some(part) => {
                    assert(part == before[before.len() - 1]);
                    forwards.push(part);
                },
                None => {},
            }
        }
        let mut i: usize = 0;
        proof {
            assert(wanted.skip(0) =~= wanted);
            assert(given.skip(0) =~= given);
            assert(entries_view(entries@) + all_paired(wanted, given) =~= all);
        }
        while forwards.len() > 0
            invariant
                i + forwards@.len() == count,
                count <= given.len(),
                count <= self.batches@.len(),
                wanted == named_batches(self.batches@),
                forall|k: int|
                    0 <= k < forwards@.len() ==> (#[trigger] forwards@[k])@ == given[count - 1 - k],
                entries_view(entries@) + all_paired(wanted.skip(i as int), given.skip(i as int))
                    == all,
            decreases forwards@.len(),
        {
            let ghost before = entries_view(entries@);
            let ghost rest = forwards@;
            match forwards.pop() {
                Some(part) => {
                    assert(part == rest[rest.len() - 1]);
                    assert(part@ == given[i as int]);
                    let mut own = pair_vectors(&self.batches[i], part);
                    let ghost paired_own = entries_view(own@);
                    entries.append(&mut own);
                    proof {
                        assert(entries_view(entries@) =~= before + paired_own);
                        let w = wanted.skip(i as int);
                        let g = given.skip(i as int);
                        assert(w[0] == named_texts(self.batches@[i as int]@));
                        assert(g[0] == given[i as int]);
                        assert(w.drop_first() =~= wanted.skip(i + 1));
                        assert(g.drop_first() =~= given.skip(i + 1));
                        assert(entries_view(entries@) + all_paired(
                            wanted.skip(i + 1),
                            given.skip(i + 1),
                        ) =~= all);
                    }
                },
                None => {},
            }
            i = i + 1;
        }
        assert(entries_view(entries@) =~= all);
        let offset: usize = self.scan.offset + MEMORY_CHUNK;
        (entries, ShardStep::Read(offset, ShardScan { offset }))
    }
}

/// A commit whose vector is to be made from its message and its changes.
#[derive(Debug)]
pub struct CommitText {
    pub git_sha: String,
    pub message: String,
    pub diff: String,
}

/// The text that stands for a commit.
pub open spec fn commit_text(commit: CommitText) -> (Seq<char>, Seq<char>) {
    (commit.git_sha@, commit.message@ + "\n\n"@ + commit.diff@)
}

/// What there is to do for commits.
pub enum CommitUpdate {
    /// There are no commits.
    NoCommits,
    /// All have a vector.
    AllDone,
    /// These batches of texts are to get vectors.
    Batches(Vec<Vec<(String, String)>>),
}

#[verifier::ext_equal]
pub enum CommitUpdateView {
    NoCommits,
    AllDone,
    Batches(Seq<Seq<(Seq<char>, Seq<char>)>>),
}

impl View for CommitUpdate {
    type V = CommitUpdateView;

    open spec fn view(&self) -> CommitUpdateView {
        match *self {
            CommitUpdate::NoCommits => CommitUpdateView::NoCommits,
            CommitUpdate::AllDone => CommitUpdateView::AllDone,
            CommitUpdate::Batches(batches) => CommitUpdateView::Batches(named_batches(batches@)),
        }
    }
}

/// What there is to do for commits of which some have a vector already.
pub open spec fn commit_update(
    commits: Seq<CommitText>,
    known: Set<Seq<char>>,
) -> CommitUpdateView {
    let fresh = unknown(commits.map_values(|commit: CommitText| commit_text(commit)), known);
    if commits.len() == 0 {
        CommitUpdateView::NoCommits
    } else if fresh.len() == 0 {
        CommitUpdateView::AllDone
    } else {
        CommitUpdateView::Batches(pieces(fresh, COMMIT_BATCH as nat))
    }
}

/// An email whose vector is to be made from what a reader sees of it.
#[derive(Debug)]
pub struct EmailText {
    pub message_id: String,
    pub from: String,
    pub subject: String,
    pub recipients: String,
    pub body: String,
}

/// The text that stands for an email.
pub open spec fn email_text(email: EmailText) -> (Seq<char>, Seq<char>) {
    (
        email.message_id@,
        "From: "@ + email.from@ + "\nTo/Cc: "@ + email.recipients@ + "\nSubject: "@
            + email.subject@ + "\n\n"@ + email.body@,
    )
}

/// Of emails, the texts of those that need a vector.
pub open spec fn new_emails(emails: Seq<EmailText>, known: Set<Seq<char>>) -> Seq<
    (Seq<char>, Seq<char>),
> {
    unknown(emails.map_values(|email: EmailText| email_text(email)), known)
}

/// How many of `ids` are not known yet.
pub open spec fn unknown_count(ids: Seq<Seq<char>>, known: Set<Seq<char>>) -> nat
    decreases ids.len(),
{
    if ids.len() == 0 {
        0
    } else if known.contains(ids.last()) {
        unknown_count(ids.drop_last(), known)
    } else {
        unknown_count(ids.drop_last(), known) + 1
    }
}

/// How many workers turn emails into vectors, where there are `cpus` processors.
pub open spec fn worker_count(cpus: nat) -> nat {
    if cpus < WORKERS_MINIMUM {
        WORKERS_MINIMUM as nat
    } else {
        cpus
    }
}

impl VectorSearchManager {
    /// Whether there is anything to vectorize: the tables of contents that are to be
    /// scanned, none where they are empty.
    pub fn update_vectors(&self, total_entries: usize) -> (tables: Vec<String>)
        ensures
            texts(tables@) == (if total_entries == 0 {
                seq![]
            } else {
                Seq::new(SHARDS as nat, |shard: int| "content_"@ + decimal(shard as nat))
            }),
    {
        let mut tables: Vec<String> = Vec::new();
        if total_entries == 0 {
            assert(texts(tables@) =~= seq![]);
            return tables;
        }
        let ghost all = Seq::new(
            SHARDS as nat,
            |shard: int| "content_"@ + decimal(shard as nat),
        );
        let mut shard: usize = 0;
        while shard < SHARDS
            invariant
                shard <= SHARDS,
                all == Seq::new(
                    SHARDS as nat,
                    |shard: int| "content_"@ + decimal(shard as nat),
                ),
                texts(tables@) == all.take(shard as int),
            decreases SHARDS - shard,
        {
            let ghost before = texts(tables@);
            tables.push(shard_table(shard));
            assert(texts(tables@) =~= before.push(all[shard as int]));
            assert(all.take(shard + 1) =~= before.push(all[shard as int]));
            shard = shard + 1;
        }
        assert(all.take(shard as int) =~= all);
        tables
    }

    /// What there is to do for commits of which some have a vector already.
    pub fn update_commit_vectors(&self, commits: Vec<CommitText>, known: &Known) -> (update:
        CommitUpdate)
        ensures
            update@ == commit_update(commits@, known@),
    {
        if commits.len() == 0 {
            return CommitUpdate::NoCommits;
        }
        let ghost all = commits@.map_values(|commit: CommitText| commit_text(commit));
        let mut list: Vec<(String, String)> = Vec::new();
        let mut i: usize = 0;
        while i < commits.len()
            invariant
                i <= commits@.len(),
                all == commits@.map_values(|commit: CommitText| commit_text(commit)),
                named_texts(list@) == all.take(i as int),
            decreases commits@.len() - i,
        {
            let ghost before = named_texts(list@);
            let commit = &commits[i];
            let text = String::from_str(commit.message.as_str()).concat("\n\n").concat(
                commit.diff.as_str(),
            );
            list.push((commit.git_sha.clone(), text));
            assert(named_texts(list@) =~= before.push(all[i as int]));
            assert(all.take(i + 1) =~= before.push(all[i as int]));
            i = i + 1;
        }
        assert(all.take(i as int) =~= all);
        let fresh = keep_unknown(list, known, true);
        assert(named_texts(fresh@).len() == fresh@.len());
        if fresh.len() == 0 {
            return CommitUpdate::AllDone;
        }
        CommitUpdate::Batches(cut_named(fresh, COMMIT_BATCH))
    }

    /// How many emails need a vector.
    pub fn emails_needing_vectors(&self, ids: &Vec<String>, known: &Known) -> (count: usize)
        ensures
            count == unknown_count(texts(ids@), known@),
    {
        let ghost all = texts(ids@);
        let mut count: usize = 0;
        let mut i: usize = 0;
        assert(all.take(0) =~= seq![]);
        while i < ids.len()
            invariant
                i <= ids@.len(),
                all == texts(ids@),
                count <= i,
                count == unknown_count(all.take(i as int), known@),
            decreases ids@.len() - i,
        {
            assert(all.take(i + 1).drop_last() =~= all.take(i as int));
            if !known.has(ids[i].as_str()) {
                count = count + 1;
            }
            i = i + 1;
        }
        assert(all.take(i as int) =~= all);
        count
    }

    /// Of emails, the texts of those that need a vector.
    pub fn update_lore_vectors(&self, emails: Vec<EmailText>, known: &Known) -> (fresh: Vec<
        (String, String),
    >)
        ensures
            named_texts(fresh@) == new_emails(emails@, known@),
    {
        let ghost all = emails@.map_values(|email: EmailText| email_text(email));
        let mut list: Vec<(String, String)> = Vec::new();
        let mut i: usize = 0;
        while i < emails.len()
            invariant
                i <= emails@.len(),
                all == emails@.map_values(|email: EmailText| email_text(email)),
                named_texts(list@) == all.take(i as int),
            decreases emails@.len() - i,
        {
            let ghost before = named_texts(list@);
            let email = &emails[i];
            let text = String::from_str("From: ").concat(email.from.as_str()).concat(
                "\nTo/Cc: ",
            ).concat(email.recipients.as_str()).concat("\nSubject: ").concat(
                email.subject.as_str(),
            ).concat("\n\n").concat(email.body.as_str());
            list.push((email.message_id.clone(), text));
            assert(named_texts(list@) =~= before.push(all[i as int]));
            assert(all.take(i + 1) =~= before.push(all[i as int]));
            i = i + 1;
        }
        assert(all.take(i as int) =~= all);
        keep_unknown(list, known, true)
    }

    /// How many workers turn emails into vectors, where there are `cpus` processors.
    pub fn lore_workers_for(&self, cpus: usize) -> (workers: usize)
        ensures
            workers == worker_count(cpus as nat),
    {
        if cpus < WORKERS_MINIMUM {
            WORKERS_MINIMUM
        } else {
            cpus
        }
    }

    /// How many workers turn emails into vectors on this machine.
    pub fn lore_workers(&self) -> (workers: usize)
        ensures
            exists|cpus: nat| cpus >= 1 && workers == #[trigger] worker_count(cpus),
    {
        let cpus = processor_count();
        let workers = self.lore_workers_for(cpus);
        assert(workers == worker_count(cpus as nat));
        workers
    }
}

/// What needs a vector is what is not known yet, and nothing that is.
pub proof fn law_unknown(
    list: Seq<(Seq<char>, Seq<char>)>,
    known: Set<Seq<char>>,
    entry: (Seq<char>, Seq<char>),
)
    ensures
        unknown(list, known).contains(entry) <==> list.contains(entry) && !known.contains(entry.0),
    decreases list.len(),
{
    if list.len() > 0 {
        let rest = list.drop_last();
        law_unknown(rest, known, entry);
        let before = unknown(rest, known);
        let all = unknown(list, known);
        if before.contains(entry) {
            let p = choose|p: int| 0 <= p < before.len() && before[p] == entry;
            assert(all[p] == entry);
            let q = choose|q: int| 0 <= q < rest.len() && rest[q] == entry;
            assert(list[q] == entry);
        }
        if list.contains(entry) && !known.contains(entry.0) {
            let q = choose|q: int| 0 <= q < list.len() && list[q] == entry;
            if q < rest.len() {
                assert(rest[q] == entry);
            } else {
                assert(all[all.len() - 1] == entry);
            }
        }
        if all.contains(entry) {
            let p = choose|p: int| 0 <= p < all.len() && all[p] == entry;
            if p < before.len() {
                assert(before[p] == entry);
            } else {
                assert(list[list.len() - 1] == entry);
            }
        }
    }
}

/// Once the names of a list are known, nothing of it needs a vector.
pub proof fn law_nothing_twice(list: Seq<(Seq<char>, Seq<char>)>, known: Set<Seq<char>>)
    requires
        forall|i: int| 0 <= i < list.len() ==> known.contains((#[trigger] list[i]).0),
    ensures
        unknown(list, known) == Seq::<(Seq<char>, Seq<char>)>::empty(),
{
    let left = unknown(list, known);
    if left.len() > 0 {
        law_unknown(list, known, left[0]);
        assert(left.contains(left[0]));
        let q = choose|q: int| 0 <= q < list.len() && list[q] == left[0];
        assert(known.contains(list[q].0));
    }
    assert(left =~= Seq::empty());
}

/// Where every batch got as many vectors as it has texts, the entries have the names
/// of the texts, one after the other.
pub proof fn law_vectors_named<V>(
    batches: Seq<Seq<(Seq<char>, Seq<char>)>>,
    vectors: Seq<Seq<V>>,
)
    requires
        batches.len() == vectors.len(),
        forall|k: int| 0 <= k < batches.len() ==> (#[trigger] batches[k]).len() == vectors[k].len(),
    ensures
        all_paired(batches, vectors).map_values(|entry: (Seq<char>, V)| entry.0) == concatenated(
            batches,
        ).map_values(|entry: (Seq<char>, Seq<char>)| entry.0),
    decreases batches.len(),
{
    let f = |entry: (Seq<char>, V)| entry.0;
    let g = |entry: (Seq<char>, Seq<char>)| entry.0;
    if batches.len() == 0 {
        assert(all_paired(batches, vectors).map_values(f) =~= concatenated(batches).map_values(g));
    } else {
        let rest = batches.drop_first();
        assert forall|k: int| 0 <= k < rest.len() implies (#[trigger] rest[k]).len()
            == vectors.drop_first()[k].len() by {
            assert(rest[k] == batches[k + 1]);
        }
        law_vectors_named(rest, vectors.drop_first());
        let first = seq![batches[0]];
        assert(batches =~= first + rest);
        lemma_concatenated_two(first, rest);
        reveal_with_fuel(concatenated, 2);
        assert(first.drop_last() =~= seq![]);
        assert(concatenated(first) =~= batches[0]);
        assert(paired(batches[0], vectors[0]).map_values(f) =~= batches[0].map_values(g));
        assert(all_paired(batches, vectors).map_values(f) =~= paired(
            batches[0],
            vectors[0],
        ).map_values(f) + all_paired(rest, vectors.drop_first()).map_values(f));
        assert(concatenated(batches).map_values(g) =~= batches[0].map_values(g) + concatenated(
            rest,
        ).map_values(g));
    }
}

} // verus!
