//! Functions and commits by similarity, and the index that finds neighbours.
//!
//! A search is a chain of steps. Each step asks something of the database, and what
//! comes back leads to the next step.

use vstd::hash_map::StringHashMap;
use vstd::prelude::*;
use vstd::string::*;

use crate::database::conditions::{any_of_pieces, write_any_of_pieces};
use crate::json::{json_text_list, json_text_lists, parse_text_list, parse_text_lists};
use crate::lists::{distinct, distinct_texts};
use crate::scores::{
    by_score, names_of, pairs_view, score_map, score_of, scored_view, sort_by_score, Scores,
};
use crate::text::texts;
use crate::types::{
    copy_texts, text_or_none, texts_or_none, FunctionInfo, FunctionInfoView, GitCommitInfo,
    GitCommitInfoView,
};

verus! {

/// How many hashes one condition names.
pub const SIMILAR_CHUNK: usize = 100;

/// A function that was found by similarity.
#[derive(Debug)]
pub struct FunctionMatch {
    pub function: FunctionInfo,
    /// Larger where the function is more similar.
    pub similarity_score: u32,
}

/// The contents of a list of matches.
pub open spec fn matches_view(matches: Seq<FunctionMatch>) -> Seq<(FunctionInfoView, u32)> {
    matches.map_values(|m: FunctionMatch| (m.function@, m.similarity_score))
}

/// A function without its body.
#[derive(Debug)]
pub struct FunctionMeta {
    pub name: String,
    pub file_path: String,
    pub git_file_hash: String,
    pub line_start: u32,
    pub line_end: u32,
    pub return_type: String,
    pub parameters: String,
    /// What is wrong with the parameters, where they are not the JSON that they should be.
    pub fault: Option<String>,
    /// Where the body is kept; absent where there is none.
    pub body_hash: Option<String>,
    pub calls: Option<Vec<String>>,
    pub types: Option<Vec<String>>,
}

/// What is kept under a hash, of several entries the last.
pub open spec fn lookup(contents: Seq<(Seq<char>, Seq<char>)>, hash: Seq<char>) -> Option<
    Seq<char>,
>
    decreases contents.len(),
{
    if contents.len() == 0 {
        None
    } else if contents.last().0 == hash {
        Some(contents.last().1)
    } else {
        lookup(contents.drop_last(), hash)
    }
}

/// The contents of a list of hashes with what is kept under them.
pub open spec fn contents_view(contents: Seq<(String, String)>) -> Seq<(Seq<char>, Seq<char>)> {
    contents.map_values(|entry: (String, String)| (entry.0@, entry.1@))
}

/// The function of a row with its score: that of its body, and none without one.
pub open spec fn match_of(
    meta: FunctionMeta,
    scores: Map<Seq<char>, u32>,
    contents: Seq<(Seq<char>, Seq<char>)>,
) -> (FunctionInfoView, u32) {
    (
        FunctionInfoView {
            name: meta.name@,
            file_path: meta.file_path@,
            git_file_hash: meta.git_file_hash@,
            line_start: meta.line_start,
            line_end: meta.line_end,
            return_type: meta.return_type@,
            parameters: meta.parameters@,
            body: match meta.body_hash {
                Some(hash) => match lookup(contents, hash@) {
                    Some(text) => text,
                    None => seq![],
                },
                None => seq![],
            },
            calls: texts_or_none(meta.calls),
            types: texts_or_none(meta.types),
        },
        match meta.body_hash {
            Some(hash) => score_of(scores, hash@),
            None => 0,
        },
    )
}

/// The functions of rows with their scores, the most similar first.
pub open spec fn matches_of(
    metas: Seq<FunctionMeta>,
    scores: Map<Seq<char>, u32>,
    contents: Seq<(Seq<char>, Seq<char>)>,
) -> Seq<(FunctionInfoView, u32)> {
    by_score(metas.map_values(|meta: FunctionMeta| match_of(meta, scores, contents)))
}

/// Of rows, those that can be read.
pub open spec fn readable(metas: Seq<FunctionMeta>) -> Seq<FunctionMeta>
    decreases metas.len(),
{
    if metas.len() == 0 {
        seq![]
    } else if metas.last().fault is None {
        readable(metas.drop_last()).push(metas.last())
    } else {
        readable(metas.drop_last())
    }
}

/// The hashes of the bodies of rows that have one.
pub open spec fn body_hashes(metas: Seq<FunctionMeta>) -> Seq<Seq<char>>
    decreases metas.len(),
{
    if metas.len() == 0 {
        seq![]
    } else {
        match metas.last().body_hash {
            Some(hash) => body_hashes(metas.drop_last()).push(hash@),
            None => body_hashes(metas.drop_last()),
        }
    }
}

/// A search for functions that waits for neighbours.
pub struct AwaitBodies {}

/// A search for functions that waits for rows.
pub struct AwaitFunctions {
    scores: Scores,
    filters: Vec<String>,
    next: usize,
    metas: Vec<FunctionMeta>,
}

/// A search for functions that waits for bodies.
pub struct AwaitContents {
    scores: Scores,
    metas: Vec<FunctionMeta>,
}

#[verifier::ext_equal]
pub struct FunctionState {
    pub scores: Map<Seq<char>, u32>,
    /// The conditions that find the functions.
    pub filters: Seq<Seq<char>>,
    /// The condition that comes next.
    pub next: nat,
    /// The rows so far.
    pub metas: Seq<FunctionMeta>,
}

impl AwaitFunctions {
    pub closed spec fn state(&self) -> FunctionState {
        FunctionState {
            scores: self.scores@,
            filters: texts(self.filters@),
            next: self.next as nat,
            metas: self.metas@,
        }
    }
}

impl AwaitContents {
    pub closed spec fn scores(&self) -> Map<Seq<char>, u32> {
        self.scores@
    }

    pub closed spec fn metas(&self) -> Seq<FunctionMeta> {
        self.metas@
    }
}

/// What is to be done next to find functions.
pub enum FunctionStep {
    /// Nothing more: these were found.
    Done(Vec<FunctionMatch>),
    /// Ask for this many nearest neighbours, with this condition where there is one;
    /// then [`AwaitBodies::neighbours`].
    Nearest(usize, Option<String>, AwaitBodies),
    /// Ask for functions; then [`AwaitFunctions::rows`].
    Functions(String, AwaitFunctions),
    /// Fetch what is kept under these hashes; then [`AwaitContents::contents`].
    Contents(Vec<String>, AwaitContents),
}

#[verifier::ext_equal]
pub enum FunctionStepView {
    Done(Seq<(FunctionInfoView, u32)>),
    Nearest(nat, Option<Seq<char>>),
    Functions(Seq<char>, FunctionState),
    Contents(Seq<Seq<char>>, Map<Seq<char>, u32>, Seq<FunctionMeta>),
}

impl View for FunctionStep {
    type V = FunctionStepView;

    open spec fn view(&self) -> FunctionStepView {
        match *self {
            FunctionStep::Done(matches) => FunctionStepView::Done(matches_view(matches@)),
            FunctionStep::Nearest(count, filter, _) => FunctionStepView::Nearest(
                count as nat,
                text_or_none(filter),
            ),
            FunctionStep::Functions(filter, wait) => FunctionStepView::Functions(
                filter@,
                wait.state(),
            ),
            FunctionStep::Contents(hashes, wait) => FunctionStepView::Contents(
                texts(hashes@),
                wait.scores(),
                wait.metas(),
            ),
        }
    }
}

/// The step when the next functions are due. When all are there, the bodies are
/// fetched, each once.
pub open spec fn next_functions(state: FunctionState) -> FunctionStepView {
    if state.next < state.filters.len() {
        FunctionStepView::Functions(
            state.filters[state.next as int],
            FunctionState { next: state.next + 1, ..state },
        )
    } else if body_hashes(state.metas).len() > 0 {
        FunctionStepView::Contents(
            distinct(body_hashes(state.metas)),
            state.scores,
            state.metas,
        )
    } else {
        FunctionStepView::Done(matches_of(state.metas, state.scores, seq![]))
    }
}

/// The step after the neighbours came.
pub open spec fn after_bodies(neighbours: Seq<(Seq<char>, u32)>) -> FunctionStepView {
    if neighbours.len() == 0 {
        FunctionStepView::Done(seq![])
    } else {
        next_functions(
            FunctionState {
                scores: score_map(neighbours),
                filters: any_of_pieces(
                    "body_hash"@,
                    names_of(neighbours),
                    false,
                    SIMILAR_CHUNK as nat,
                ),
                next: 0,
                metas: seq![],
            },
        )
    }
}

/// The names of a list of names with scores.
pub fn list_all_names(pairs: &Vec<(String, u32)>) -> (names: Vec<String>)
    ensures
        texts(names@) == names_of(pairs_view(pairs@)),
{
    let mut names: Vec<String> = Vec::new();
    let mut i: usize = 0;
    while i < pairs.len()
        invariant
            i <= pairs@.len(),
            names@.len() == i,
            forall|k: int| 0 <= k < i ==> (#[trigger] names@[k])@ == pairs@[k].0@,
        decreases pairs@.len() - i,
    {
        names.push(pairs[i].0.clone());
        i = i + 1;
    }
    assert(texts(names@) =~= names_of(pairs_view(pairs@)));
    names
}

fn copy_list(list: &Option<Vec<String>>) -> (copy: Option<Vec<String>>)
    ensures
        texts_or_none(copy) == texts_or_none(*list),
{
    match list {
        Some(l) => Some(copy_texts(l)),
        None => None,
    }
}

/// What is kept under hashes, to look up.
fn index_contents(contents: &Vec<(String, String)>) -> (map: StringHashMap<usize>)
    ensures
        forall|hash: Seq<char>| #[trigger]
            map@.contains_key(hash) <==> lookup(contents_view(contents@), hash) is Some,
        forall|hash: Seq<char>| #[trigger]
            map@.contains_key(hash) ==> map@[hash] < contents@.len() && lookup(
                contents_view(contents@),
                hash,
            ) == Some(contents@[map@[hash] as int].1@),
{
    let mut map: StringHashMap<usize> = StringHashMap::new();
    let ghost all = contents_view(contents@);
    let mut i: usize = 0;
    assert(all.take(0) =~= seq![]);
    while i < contents.len()
        invariant
            i <= contents@.len(),
            all == contents_view(contents@),
            forall|hash: Seq<char>| #[trigger]
                map@.contains_key(hash) <==> lookup(all.take(i as int), hash) is Some,
            forall|hash: Seq<char>| #[trigger]
                map@.contains_key(hash) ==> map@[hash] < i && lookup(all.take(i as int), hash)
                    == Some(contents@[map@[hash] as int].1@),
        decreases contents@.len() - i,
    {
        map.insert(contents[i].0.clone(), i);
        assert(all.take(i + 1).drop_last() =~= all.take(i as int));
        assert(all.take(i + 1).last() == (contents@[i as int].0@, contents@[i as int].1@));
        i = i + 1;
    }
    assert(all.take(i as int) =~= all);
    map
}

/// The functions of rows with their scores, the most similar first.
fn make_matches(metas: &Vec<FunctionMeta>, scores: &Scores, contents: &Vec<(String, String)>) -> (
matches: Vec<FunctionMatch>)
    ensures
        matches_view(matches@) == matches_of(metas@, scores@, contents_view(contents@)),
{
    let map = index_contents(contents);
    let ghost kept = contents_view(contents@);
    let ghost all = metas@.map_values(|meta: FunctionMeta| match_of(meta, scores@, kept));
    let mut list: Vec<(FunctionInfo, u32)> = Vec::new();
    let mut i: usize = 0;
    while i < metas.len()
        invariant
            i <= metas@.len(),
            kept == contents_view(contents@),
            forall|hash: Seq<char>| #[trigger]
                map@.contains_key(hash) <==> lookup(kept, hash) is Some,
            forall|hash: Seq<char>| #[trigger]
                map@.contains_key(hash) ==> map@[hash] < contents@.len() && lookup(kept, hash)
                    == Some(contents@[map@[hash] as int].1@),
            all == metas@.map_values(|meta: FunctionMeta| match_of(meta, scores@, kept)),
            scored_view(list@) == all.take(i as int),
        decreases metas@.len() - i,
    {
        let meta = &metas[i];
        let ghost before = scored_view(list@);
        let score: u32 = match &meta.body_hash {
            Some(hash) => scores.of_name(hash.as_str()),
            None => 0,
        };
        let body = match &meta.body_hash {
            Some(hash) => match map.get(hash.as_str()) {
                Some(place) => contents[*place].1.clone(),
                None => String::new(),
            },
            None => String::new(),
        };
        let function = FunctionInfo {
            name: meta.name.clone(),
            file_path: meta.file_path.clone(),
            git_file_hash: meta.git_file_hash.clone(),
            line_start: meta.line_start,
            line_end: meta.line_end,
            return_type: meta.return_type.clone(),
            parameters: meta.parameters.clone(),
            body,
            calls: copy_list(&meta.calls),
            types: copy_list(&meta.types),
        };
        proof {
            assert(function@ =~= all[i as int].0);
        }
        let ghost entry = (function@, score);
        list.push((function, score));
        assert(scored_view(list@) =~= before.push(entry));
        assert(all.take(i + 1) =~= before.push(all[i as int]));
        i = i + 1;
    }
    assert(all.take(i as int) =~= all);
    let sorted = sort_by_score(list);
    to_matches(sorted)
}

fn to_matches(list: Vec<(FunctionInfo, u32)>) -> (matches: Vec<FunctionMatch>)
    ensures
        matches_view(matches@) == scored_view(list@),
{
    let ghost all = scored_view(list@);
    let mut list = list;
    let mut backwards: Vec<FunctionMatch> = Vec::new();
    while list.len() > 0
        invariant
            scored_view(list@) + matches_view(backwards@).reverse() =~= all,
        decreases list@.len(),
    {
        let ghost before = scored_view(list@);
        let ghost old_back = matches_view(backwards@);
        match list.pop() {
            Some((function, similarity_score)) => {
                let ghost entry = (function@, similarity_score);
                backwards.push(FunctionMatch { function, similarity_score });
                assert(matches_view(backwards@) =~= old_back.push(entry));
                assert(before =~= scored_view(list@).push(entry));
                assert(old_back.push(entry).reverse() =~= seq![entry] + old_back.reverse());
            },
            None => {},
        }
    }
    let mut matches: Vec<FunctionMatch> = Vec::new();
    while backwards.len() > 0
        invariant
            matches_view(matches@) + matches_view(backwards@).reverse() =~= all,
        decreases backwards@.len(),
    {
        let ghost before = matches_view(matches@);
        let ghost old_back = matches_view(backwards@);
        match backwards.pop() {
            Some(m) => {
                let ghost entry = (m.function@, m.similarity_score);
                matches.push(m);
                assert(matches_view(matches@) =~= before.push(entry));
                assert(old_back =~= matches_view(backwards@).push(entry));
                assert(old_back.reverse() =~= seq![entry] + matches_view(backwards@).reverse());
            },
            None => {},
        }
    }
    assert(matches_view(matches@) =~= all);
    matches
}

/// The hashes of the bodies of rows that have one.
fn list_body_hashes(metas: &Vec<FunctionMeta>) -> (hashes: Vec<String>)
    ensures
        texts(hashes@) == body_hashes(metas@),
{
    let mut hashes: Vec<String> = Vec::new();
    let mut i: usize = 0;
    assert(metas@.take(0) =~= seq![]);
    assert(texts(hashes@) =~= body_hashes(metas@.take(0)));
    while i < metas.len()
        invariant
            i <= metas@.len(),
            texts(hashes@) == body_hashes(metas@.take(i as int)),
        decreases metas@.len() - i,
    {
        let ghost before = texts(hashes@);
        assert(metas@.take(i + 1).drop_last() =~= metas@.take(i as int));
        assert(metas@.take(i + 1).last() == metas@[i as int]);
        match &metas[i].body_hash {
            Some(hash) => {
                hashes.push(hash.clone());
                assert(texts(hashes@) =~= before.push(hash@));
            },
            None => {},
        }
        i = i + 1;
    }
    assert(metas@.take(i as int) =~= metas@);
    hashes
}

impl AwaitBodies {
    /// The nearest neighbours: hashes of bodies, with their scores.
    pub fn neighbours(self, neighbours: Vec<(String, u32)>) -> (step: FunctionStep)
        ensures
            step@ == after_bodies(pairs_view(neighbours@)),
    {
        assert(pairs_view(neighbours@).len() == neighbours@.len());
        if neighbours.len() == 0 {
            let matches: Vec<FunctionMatch> = Vec::new();
            assert(matches_view(matches@) =~= seq![]);
            return FunctionStep::Done(matches);
        }
        let scores = Scores::of(&neighbours);
        let names = list_all_names(&neighbours);
        let filters = write_any_of_pieces("body_hash", names, false, SIMILAR_CHUNK);
        AwaitFunctions { scores, filters, next: 0, metas: Vec::new() }.advance()
    }
}

/// Of rows, those that can be read.
fn keep_readable(metas: Vec<FunctionMeta>) -> (kept: Vec<FunctionMeta>)
    ensures
        kept@ == readable(metas@),
{
    let ghost all = metas@;
    let mut rest = metas;
    let mut backwards: Vec<FunctionMeta> = Vec::new();
    assert(readable(all) =~= readable(rest@) + backwards@.reverse());
    while rest.len() > 0
        invariant
            readable(all) == readable(rest@) + backwards@.reverse(),
        decreases rest@.len(),
    {
        let ghost before = rest@;
        let ghost old_back = backwards@;
        match rest.pop() {
            Some(meta) => {
                assert(before.drop_last() =~= rest@);
                if meta.fault.is_none() {
                    let ghost it = meta;
                    backwards.push(meta);
                    assert(readable(rest@).push(it) + old_back.reverse() =~= readable(rest@)
                        + backwards@.reverse());
                }
            },
            None => {},
        }
    }
    let mut kept: Vec<FunctionMeta> = Vec::new();
    assert(kept@ + backwards@.reverse() =~= readable(all));
    while backwards.len() > 0
        invariant
            readable(all) == kept@ + backwards@.reverse(),
        decreases backwards@.len(),
    {
        let ghost old_back = backwards@;
        let ghost old_kept = kept@;
        match backwards.pop() {
            Some(meta) => {
                let ghost it = meta;
                kept.push(meta);
                assert(old_back.reverse() =~= seq![it] + backwards@.reverse());
                assert(kept@ + backwards@.reverse() =~= old_kept + old_back.reverse());
            },
            None => {},
        }
    }
    assert(kept@ + backwards@.reverse() =~= kept@);
    kept
}

/// The step after rows came. Rows that cannot be read are left out.
pub open spec fn after_functions(state: FunctionState, rows: Seq<FunctionMeta>) -> FunctionStepView {
    next_functions(FunctionState { metas: state.metas + readable(rows), ..state })
}

impl AwaitFunctions {
    /// The rows that were asked for.
    pub fn rows(self, rows: Vec<FunctionMeta>) -> (step: FunctionStep)
        ensures
            step@ == after_functions(self.state(), rows@),
    {
        let ghost state = self.state();
        let ghost more = readable(rows@);
        let AwaitFunctions { scores, filters, next, metas } = self;
        let mut metas = metas;
        let mut rows = keep_readable(rows);
        metas.append(&mut rows);
        assert(metas@ =~= state.metas + more);
        AwaitFunctions { scores, filters, next, metas }.advance()
    }

    fn advance(self) -> (step: FunctionStep)
        ensures
            step@ == next_functions(self.state()),
    {
        if self.next < self.filters.len() {
            let filter = self.filters[self.next].clone();
            assert(filter@ == self.state().filters[self.next as int]);
            let AwaitFunctions { scores, filters, next, metas } = self;
            return FunctionStep::Functions(
                filter,
                AwaitFunctions { scores, filters, next: next + 1, metas },
            );
        }
        let hashes = list_body_hashes(&self.metas);
        assert(texts(hashes@).len() == hashes@.len());
        if hashes.len() > 0 {
            let wanted = distinct_texts(&hashes);
            FunctionStep::Contents(
                wanted,
                AwaitContents { scores: self.scores, metas: self.metas },
            )
        } else {
            let none: Vec<(String, String)> = Vec::new();
            assert(contents_view(none@) =~= seq![]);
            FunctionStep::Done(make_matches(&self.metas, &self.scores, &none))
        }
    }
}

impl AwaitContents {
    /// What is kept under the hashes.
    pub fn contents(self, contents: Vec<(String, String)>) -> (step: FunctionStep)
        ensures
            step@ == FunctionStepView::Done(
                matches_of(self.metas(), self.scores(), contents_view(contents@)),
            ),
    {
        FunctionStep::Done(make_matches(&self.metas, &self.scores, &contents))
    }
}

/// The functions of matches, without the scores.
pub open spec fn functions_of(matches: Seq<(FunctionInfoView, u32)>) -> Seq<FunctionInfoView> {
    matches.map_values(|m: (FunctionInfoView, u32)| m.0)
}

/// A row of the table of commits.
#[derive(Debug)]
pub struct CommitRow {
    pub git_sha: String,
    /// A list of texts in JSON.
    pub parent_sha: String,
    pub author: String,
    pub subject: String,
    pub message: String,
    /// Lists of texts by name in JSON.
    pub tags: String,
    pub diff: String,
    /// A list of texts in JSON.
    pub symbols: String,
    /// A list of texts in JSON.
    pub files: String,
}

/// The commit of a row, or what is wrong with the first of its columns that is not
/// what it should be.
pub open spec fn commit_of(row: CommitRow) -> Result<GitCommitInfoView, Seq<char>> {
    match (
        json_text_list(row.parent_sha@),
        json_text_lists(row.tags@),
        json_text_list(row.symbols@),
        json_text_list(row.files@),
    ) {
        (Err(message), _, _, _) => Err(message),
        (_, Err(message), _, _) => Err(message),
        (_, _, Err(message), _) => Err(message),
        (_, _, _, Err(message)) => Err(message),
        (Ok(parent_sha), Ok(tags), Ok(symbols), Ok(files)) => Ok(
            GitCommitInfoView {
                git_sha: row.git_sha@,
                parent_sha,
                author: row.author@,
                subject: row.subject@,
                message: row.message@,
                tags,
                diff: row.diff@,
                symbols,
                files,
            },
        ),
    }
}

/// The commits of rows with their scores behind those of `found`, or what is wrong
/// with the first row that is not what it should be.
pub open spec fn with_commits(
    found: Seq<(GitCommitInfoView, u32)>,
    scores: Map<Seq<char>, u32>,
    rows: Seq<CommitRow>,
) -> Result<Seq<(GitCommitInfoView, u32)>, Seq<char>>
    decreases rows.len(),
{
    if rows.len() == 0 {
        Ok(found)
    } else {
        match with_commits(found, scores, rows.drop_last()) {
            Ok(before) => match commit_of(rows.last()) {
                Ok(commit) => Ok(before.push((commit, score_of(scores, rows.last().git_sha@)))),
                Err(message) => Err(message),
            },
            Err(message) => Err(message),
        }
    }
}

/// A search for commits that waits for neighbours.
pub struct AwaitCommitIds {}

/// A search for commits that waits for rows.
pub struct AwaitCommits {
    scores: Scores,
    filters: Vec<String>,
    next: usize,
    found: Vec<(GitCommitInfo, u32)>,
}

#[verifier::ext_equal]
pub struct CommitState {
    pub scores: Map<Seq<char>, u32>,
    /// The conditions that find the commits.
    pub filters: Seq<Seq<char>>,
    /// The condition that comes next.
    pub next: nat,
    pub found: Seq<(GitCommitInfoView, u32)>,
}

impl AwaitCommits {
    pub closed spec fn state(&self) -> CommitState {
        CommitState {
            scores: self.scores@,
            filters: texts(self.filters@),
            next: self.next as nat,
            found: scored_view(self.found@),
        }
    }
}

/// What is to be done next to find commits.
pub enum CommitStep {
    /// Nothing more: these were found.
    Done(Vec<(GitCommitInfo, u32)>),
    /// Give up, with this message: a row is not what it should be.
    Failed(String),
    /// Ask for this many nearest neighbours; then [`AwaitCommitIds::neighbours`].
    Nearest(usize, AwaitCommitIds),
    /// Ask for commits; then [`AwaitCommits::rows`].
    Commits(String, AwaitCommits),
}

#[verifier::ext_equal]
pub enum CommitStepView {
    Done(Seq<(GitCommitInfoView, u32)>),
    Failed(Seq<char>),
    Nearest(nat),
    Commits(Seq<char>, CommitState),
}

impl View for CommitStep {
    type V = CommitStepView;

    open spec fn view(&self) -> CommitStepView {
        match *self {
            CommitStep::Done(found) => CommitStepView::Done(scored_view(found@)),
            CommitStep::Failed(message) => CommitStepView::Failed(message@),
            CommitStep::Nearest(count, _) => CommitStepView::Nearest(count as nat),
            CommitStep::Commits(filter, wait) => CommitStepView::Commits(filter@, wait.state()),
        }
    }
}

/// The step when the next commits are due.
pub open spec fn next_commits(state: CommitState) -> CommitStepView {
    if state.next < state.filters.len() {
        CommitStepView::Commits(
            state.filters[state.next as int],
            CommitState { next: state.next + 1, ..state },
        )
    } else {
        CommitStepView::Done(by_score(state.found))
    }
}

/// The step after the neighbours came.
pub open spec fn after_commit_ids(neighbours: Seq<(Seq<char>, u32)>) -> CommitStepView {
    if neighbours.len() == 0 {
        CommitStepView::Done(seq![])
    } else {
        next_commits(
            CommitState {
                scores: score_map(neighbours),
                filters: any_of_pieces(
                    "git_sha"@,
                    names_of(neighbours),
                    true,
                    SIMILAR_CHUNK as nat,
                ),
                next: 0,
                found: seq![],
            },
        )
    }
}

/// The step after rows came.
pub open spec fn after_commit_rows(state: CommitState, rows: Seq<CommitRow>) -> CommitStepView {
    match with_commits(state.found, state.scores, rows) {
        Ok(found) => next_commits(CommitState { found, ..state }),
        Err(message) => CommitStepView::Failed(message),
    }
}

/// The contents of a commit, or of a message.
pub open spec fn commit_result(result: Result<GitCommitInfo, String>) -> Result<
    GitCommitInfoView,
    Seq<char>,
> {
    match result {
        Ok(commit) => Ok(commit@),
        Err(message) => Err(message@),
    }
}

/// The commit of a row, or what is wrong with it.
fn make_commit(row: &CommitRow) -> (result: Result<GitCommitInfo, String>)
    ensures
        commit_result(result) == commit_of(*row),
{
    let parent_sha = match parse_text_list(row.parent_sha.as_str()) {
        Ok(list) => list,
        Err(message) => {
            return Err(message);
        },
    };
    let tags = match parse_text_lists(row.tags.as_str()) {
        Ok(lists) => lists,
        Err(message) => {
            return Err(message);
        },
    };
    let symbols = match parse_text_list(row.symbols.as_str()) {
        Ok(list) => list,
        Err(message) => {
            return Err(message);
        },
    };
    let files = match parse_text_list(row.files.as_str()) {
        Ok(list) => list,
        Err(message) => {
            return Err(message);
        },
    };
    Ok(
        GitCommitInfo {
            git_sha: row.git_sha.clone(),
            parent_sha,
            author: row.author.clone(),
            subject: row.subject.clone(),
            message: row.message.clone(),
            tags,
            diff: row.diff.clone(),
            symbols,
            files,
        },
    )
}

proof fn lemma_commits_fail(
    found: Seq<(GitCommitInfoView, u32)>,
    scores: Map<Seq<char>, u32>,
    rows: Seq<CommitRow>,
    n: int,
)
    requires
        0 <= n <= rows.len(),
        with_commits(found, scores, rows.take(n)) is Err,
    ensures
        with_commits(found, scores, rows) == with_commits(found, scores, rows.take(n)),
    decreases rows.len() - n,
{
    if n < rows.len() {
        assert(rows.take(n + 1).drop_last() =~= rows.take(n));
        lemma_commits_fail(found, scores, rows, n + 1);
    } else {
        assert(rows.take(n) =~= rows);
    }
}

impl AwaitCommitIds {
    /// The nearest neighbours: commits, with their scores.
    pub fn neighbours(self, neighbours: Vec<(String, u32)>) -> (step: CommitStep)
        ensures
            step@ == after_commit_ids(pairs_view(neighbours@)),
    {
        assert(pairs_view(neighbours@).len() == neighbours@.len());
        let found: Vec<(GitCommitInfo, u32)> = Vec::new();
        assert(scored_view(found@) =~= seq![]);
        if neighbours.len() == 0 {
            return CommitStep::Done(found);
        }
        let scores = Scores::of(&neighbours);
        let names = list_all_names(&neighbours);
        let filters = write_any_of_pieces("git_sha", names, true, SIMILAR_CHUNK);
        AwaitCommits { scores, filters, next: 0, found }.advance()
    }
}

impl AwaitCommits {
    /// The rows that were asked for.
    pub fn rows(self, rows: Vec<CommitRow>) -> (step: CommitStep)
        ensures
            step@ == after_commit_rows(self.state(), rows@),
    {
        let ghost state = self.state();
        let AwaitCommits { scores, filters, next, found } = self;
        let mut found = found;
        let mut i: usize = 0;
        assert(rows@.take(0) =~= seq![]);
        #[verifier::loop_isolation(false)]
        while i < rows.len()
            invariant
                i <= rows@.len(),
                with_commits(state.found, state.scores, rows@.take(i as int)) == Ok::<
                    Seq<(GitCommitInfoView, u32)>,
                    Seq<char>,
                >(scored_view(found@)),
            decreases rows@.len() - i,
        {
            let ghost before = scored_view(found@);
            proof {
                assert(rows@.take(i + 1).drop_last() =~= rows@.take(i as int));
                assert(rows@.take(i + 1).last() == rows@[i as int]);
            }
            match make_commit(&rows[i]) {
                Ok(commit) => {
                    let score = scores.of_name(rows[i].git_sha.as_str());
                    let ghost entry = (commit@, score);
                    found.push((commit, score));
                    assert(scored_view(found@) =~= before.push(entry));
                },
                Err(message) => {
                    proof {
                        lemma_commits_fail(state.found, state.scores, rows@, i + 1);
                    }
                    return CommitStep::Failed(message);
                },
            }
            i = i + 1;
        }
        assert(rows@.take(i as int) =~= rows@);
        AwaitCommits { scores, filters, next, found }.advance()
    }

    fn advance(self) -> (step: CommitStep)
        ensures
            step@ == next_commits(self.state()),
    {
        if self.next < self.filters.len() {
            let filter = self.filters[self.next].clone();
            assert(filter@ == self.state().filters[self.next as int]);
            let AwaitCommits { scores, filters, next, found } = self;
            CommitStep::Commits(filter, AwaitCommits { scores, filters, next: next + 1, found })
        } else {
            CommitStep::Done(sort_by_score(self.found))
        }
    }
}

/// How many vectors an index needs.
pub const INDEX_MINIMUM: usize = 10;

/// How an index of vectors is built.
#[derive(Debug, Clone, Copy, PartialEq, Eq, Structural)]
pub struct IndexPlan {
    pub num_partitions: u32,
    pub num_sub_vectors: u32,
    pub num_bits: u32,
    pub sample_rate: u32,
    pub max_iterations: u32,
}

/// Whether a number is the largest whose square is no more than `n`.
pub open spec fn is_root_of(root: nat, n: nat) -> bool {
    root * root <= n && n < (root + 1) * (root + 1)
}

/// The largest number whose square is no more than `n`.
pub open spec fn root_of(n: nat) -> nat {
    choose|root: nat| is_root_of(root, n)
}

/// A number within bounds.
pub open spec fn clamped(n: int, low: int, high: int) -> int {
    if n < low {
        low
    } else if n > high {
        high
    } else {
        n
    }
}

/// How an index of this many vectors is built, where there are enough. It has as
/// many partitions as the root of the number of vectors; few vectors have no more
/// partitions than vectors, and many have from 256 to 1024.
pub open spec fn planned_index(count: nat) -> Option<IndexPlan> {
    if count < INDEX_MINIMUM {
        None
    } else {
        Some(
            IndexPlan {
                num_partitions: (if count < 256 {
                    clamped(root_of(count) as int, 2, count as int)
                } else {
                    clamped(root_of(count) as int, 256, 1024)
                }) as u32,
                num_sub_vectors: 8,
                num_bits: 8,
                sample_rate: (if count < 256 {
                    count as int
                } else {
                    256
                }) as u32,
                max_iterations: 50,
            },
        )
    }
}

/// Every number has one such root.
pub proof fn lemma_root(n: nat)
    ensures
        is_root_of(root_of(n), n),
        forall|root: nat| #[trigger] is_root_of(root, n) ==> root == root_of(n),
{
    let found = lemma_some_root(n);
    assert(is_root_of(found, n));
    let root = root_of(n);
    assert forall|other: nat| #[trigger] is_root_of(other, n) implies other == root by {
        if other < root {
            lemma_square_grows((other + 1) as int, root as int);
        } else if root < other {
            lemma_square_grows((root + 1) as int, other as int);
        }
    }
}

proof fn lemma_some_root(n: nat) -> (root: nat)
    ensures
        is_root_of(root, n),
    decreases n,
{
    if n == 0 {
        assert(0 * 0 == 0 && 1 * 1 == 1) by (nonlinear_arith);
        0
    } else {
        let before = lemma_some_root((n - 1) as nat);
        if (before + 1) * (before + 1) <= n {
            let root = (before + 1) as nat;
            assert(root * root <= n);
            assert((root + 1) * (root + 1) == root * root + 2 * root + 1) by (nonlinear_arith);
            root
        } else {
            before
        }
    }
}

proof fn lemma_square_grows(a: int, b: int)
    requires
        0 <= a <= b,
    ensures
        a * a <= b * b,
{
    vstd::arithmetic::mul::lemma_mul_inequality(a, b, a);
    vstd::arithmetic::mul::lemma_mul_inequality(a, b, b);
    vstd::arithmetic::mul::lemma_mul_is_commutative(a, b);
}

/// The root of a number, or 1024 where it is more.
fn small_root(n: usize) -> (root: usize)
    ensures
        root <= 1024,
        root * root <= n,
        root < 1024 ==> n < (root + 1) * (root + 1),
{
    let mut root: usize = 0;
    while root < 1024
        invariant
            root <= 1024,
            root * root <= n,
        decreases 1024 - root,
    {
        let next: usize = root + 1;
        assert(next * next <= 1024 * 1024) by (nonlinear_arith)
            requires
                0 <= next <= 1024,
        ;
        if next * next > n {
            return root;
        }
        root = next;
    }
    root
}

impl VectorSearchManager {
    pub fn new() -> (manager: VectorSearchManager) {
        VectorSearchManager {  }
    }

    /// How an index of `vector_count` vectors is built; none where they are too few.
    pub fn create_vector_index(&self, vector_count: usize) -> (plan: Option<IndexPlan>)
        ensures
            plan == planned_index(vector_count as nat),
    {
        if vector_count < INDEX_MINIMUM {
            return None;
        }
        let root = small_root(vector_count);
        let num_partitions: usize = if vector_count < 256 {
            let low: usize = if root < 2 {
                2
            } else {
                root
            };
            if low > vector_count {
                vector_count
            } else {
                low
            }
        } else if root < 256 {
            256
        } else {
            root
        };
        let sample_rate: usize = if vector_count < 256 {
            vector_count
        } else {
            256
        };
        proof {
            let r = root_of(vector_count as nat);
            lemma_root(vector_count as nat);
            if root < 1024 {
                assert(is_root_of(root as nat, vector_count as nat));
            } else if r < 1024 {
                lemma_square_grows((r + 1) as int, 1024);
            }
            if root == 1024 && vector_count < 256 {
                assert(1024 * 1024 <= vector_count);
            }
        }
        Some(
            IndexPlan {
                num_partitions: num_partitions as u32,
                num_sub_vectors: 8,
                num_bits: 8,
                sample_rate: sample_rate as u32,
                max_iterations: 50,
            },
        )
    }

    /// Searches for functions by similarity.
    pub fn search_similar_functions_with_scores(
        &self,
        limit: usize,
        filter: Option<String>,
    ) -> (step: FunctionStep)
        ensures
            step@ == FunctionStepView::Nearest(limit as nat, text_or_none(filter)),
    {
        FunctionStep::Nearest(limit, filter, AwaitBodies {  })
    }

    /// The functions of matches, without the scores.
    pub fn search_similar_functions(&self, matches: Vec<FunctionMatch>) -> (functions: Vec<
        FunctionInfo,
    >)
        ensures
            functions@.map_values(|f: FunctionInfo| f@) == functions_of(matches_view(matches@)),
    {
        let ghost all = functions_of(matches_view(matches@));
        let mut rest = matches;
        let mut backwards: Vec<FunctionInfo> = Vec::new();
        while rest.len() > 0
            invariant
                all.len() == rest@.len() + backwards@.len(),
                forall|k: int| 0 <= k < rest@.len() ==> (#[trigger] rest@[k]).function@ == all[k],
                forall|k: int|
                    0 <= k < backwards@.len() ==> (#[trigger] backwards@[k])@ == all[all.len() - 1
                        - k],
            decreases rest@.len(),
        {
            let ghost before = rest@;
            match rest.pop() {
                Some(m) => {
                    assert(m == before[before.len() - 1]);
                    backwards.push(m.function);
                },
                None => {},
            }
        }
        let mut functions: Vec<FunctionInfo> = Vec::new();
        while backwards.len() > 0
            invariant
                all.len() == functions@.len() + backwards@.len(),
                forall|k: int| 0 <= k < functions@.len() ==> (#[trigger] functions@[k])@ == all[k],
                forall|k: int|
                    0 <= k < backwards@.len() ==> (#[trigger] backwards@[k])@ == all[all.len() - 1
                        - k],
            decreases backwards@.len(),
        {
            let ghost before = backwards@;
            match backwards.pop() {
                Some(function) => {
                    assert(function == before[before.len() - 1]);
                    functions.push(function);
                },
                None => {},
            }
        }
        assert(functions@.map_values(|f: FunctionInfo| f@) =~= all);
        functions
    }

    /// The code that stands for a name when functions are searched by name.
    pub fn search_similar_by_name(&self, name: &str) -> (code: String)
        ensures
            code@ == "void "@ + name@ + "() {}"@,
    {
        String::from_str("void ").concat(name).concat("() {}")
    }

    /// Searches for commits by similarity.
    pub fn search_similar_commits(&self, limit: usize) -> (step: CommitStep)
        ensures
            step@ == CommitStepView::Nearest(limit as nat),
    {
        CommitStep::Nearest(limit, AwaitCommitIds {  })
    }
}

/// Searches by similarity.
pub struct VectorSearchManager {}

} // verus!
