//! Searches for functions, types and type definitions.
//!
//! A search is a chain of steps. Each step asks something of the database or the
//! repository, and what comes back leads to the next step.

use vstd::prelude::*;
use vstd::string::*;

use crate::database::conditions::{any_of, lemma_text_pieces, write_any_of};
use crate::database::symbols::{
    FunctionRow, Mode, Plan, PlanView, Symbol, Table, TypeRow, TypedefRow,
};
use crate::lists::{cut, distinct, distinct_texts, lists, pieces};
use crate::pattern::{pattern_fault, refusal};
use crate::text::{escape, escaped, texts};
use crate::types::{text_or_none, texts_or_none};

verus! {

/// How many rows a search by name hands out.
pub const NAME_LIMIT: usize = 100;

/// How many rows a search by name takes into account when it is about one commit.
pub const NAME_LIMIT_GIT: usize = 1000;

/// How many file hashes one condition names.
pub const HASH_CHUNK: usize = 100;

/// Something to ask of a table.
#[derive(Debug)]
pub struct Query {
    pub table: Table,
    /// The condition on the rows.
    pub filter: String,
    /// How many rows at most; all where there is none.
    pub limit: Option<usize>,
}

#[verifier::ext_equal]
pub struct QueryView {
    pub table: Table,
    pub filter: Seq<char>,
    pub limit: Option<usize>,
}

impl View for Query {
    type V = QueryView;

    open spec fn view(&self) -> QueryView {
        QueryView { table: self.table, filter: self.filter@, limit: self.limit }
    }
}

/// The end of a condition by name where only type definitions are asked for.
pub open spec fn typedefs_only(typedefs: bool) -> Seq<char> {
    if typedefs {
        " AND kind = 'typedef'"@
    } else {
        ""@
    }
}

/// The condition for symbols of exactly this name.
pub open spec fn exact_filter(pattern: Seq<char>, typedefs: bool) -> Seq<char> {
    "name = '"@ + escaped(pattern) + "'"@ + typedefs_only(typedefs)
}

/// The condition for symbols with this as part of the name.
pub open spec fn like_filter(pattern: Seq<char>, typedefs: bool) -> Seq<char> {
    "name LIKE '%"@ + escaped(pattern) + "%'"@ + typedefs_only(typedefs)
}

/// The condition for symbols whose name the pattern is found in, upper and lower case
/// taken as the same.
pub open spec fn regex_filter(pattern: Seq<char>) -> Seq<char> {
    "regexp_like(name, '(?i)"@ + escaped(pattern) + "')"@
}

/// The condition for types of a kind.
pub open spec fn kind_filter(kind: Seq<char>) -> Seq<char> {
    "kind = '"@ + escaped(kind) + "'"@
}

/// The condition for rows of the files with one of `hashes`.
pub open spec fn hashes_filter(hashes: Seq<Seq<char>>) -> Seq<char> {
    any_of("git_file_hash"@, hashes, false)
}

/// What is asked of a name. The names are ones that were escaped before.
#[derive(Debug, Clone, Copy)]
pub enum Naming<'a> {
    /// Nothing.
    Any,
    /// To be exactly this.
    Exactly(&'a str),
    /// To have this as a part.
    Part(&'a str),
}

#[verifier::ext_equal]
pub enum NamingView {
    Any,
    Exactly(Seq<char>),
    Part(Seq<char>),
}

impl<'a> View for Naming<'a> {
    type V = NamingView;

    open spec fn view(&self) -> NamingView {
        match *self {
            Naming::Any => NamingView::Any,
            Naming::Exactly(name) => NamingView::Exactly(name@),
            Naming::Part(part) => NamingView::Part(part@),
        }
    }
}

/// A condition with what is asked of the name added.
pub open spec fn with_name(filter: Seq<char>, name: NamingView) -> Seq<char> {
    match name {
        NamingView::Any => filter,
        NamingView::Exactly(name) => "("@ + filter + ") AND name = '"@ + name + "'"@,
        NamingView::Part(part) => "("@ + filter + ") AND name LIKE '%"@ + part + "%'"@,
    }
}

/// A condition with a kind added, where one is given.
pub open spec fn with_kind(filter: Seq<char>, kind: Option<Seq<char>>) -> Seq<char> {
    match kind {
        Some(kind) => "("@ + filter + ") AND kind = '"@ + escaped(kind) + "'"@,
        None => filter,
    }
}

/// The condition for rows of files with one of `hashes`, with such a name, and of this
/// kind where one is given.
pub open spec fn rows_filter(
    hashes: Seq<Seq<char>>,
    name: NamingView,
    kind: Option<Seq<char>>,
) -> Seq<char> {
    with_kind(with_name(hashes_filter(hashes), name), kind)
}

/// The condition for type definitions in files with one of `hashes`, with such a name.
pub open spec fn typedefs_filter(hashes: Seq<Seq<char>>, name: NamingView) -> Seq<char> {
    let filter = "("@ + hashes_filter(hashes) + ") AND kind = 'typedef'"@;
    match name {
        NamingView::Any => filter,
        NamingView::Exactly(name) => filter + " AND name = '"@ + name + "'"@,
        NamingView::Part(part) => filter + " AND name LIKE '%"@ + part + "%'"@,
    }
}

/// What a search at one commit asks of the name once the files are known: the name in
/// full where there were symbols of it, else as a part. A search by pattern reads all
/// rows of the files.
pub open spec fn chunk_naming(plan: PlanView, exact: bool) -> NamingView {
    if plan.mode == Mode::Regex {
        NamingView::Any
    } else if exact {
        NamingView::Exactly(escaped(plan.pattern))
    } else {
        NamingView::Part(escaped(plan.pattern))
    }
}

/// The condition for the rows that a search at one commit reads from the files
/// with one of `hashes`.
pub open spec fn chunk_filter(
    plan: PlanView,
    typedefs: bool,
    exact: bool,
    hashes: Seq<Seq<char>>,
) -> Seq<char> {
    if typedefs && plan.mode != Mode::Regex {
        typedefs_filter(hashes, chunk_naming(plan, exact))
    } else {
        rows_filter(hashes, chunk_naming(plan, exact), None)
    }
}

/// The conditions of a search at one commit, one after the other.
pub open spec fn chunk_filters(
    plan: PlanView,
    typedefs: bool,
    exact: bool,
    hashes: Seq<Seq<char>>,
) -> Seq<Seq<char>> {
    pieces(hashes, HASH_CHUNK as nat).map_values(
        |piece: Seq<Seq<char>>| chunk_filter(plan, typedefs, exact, piece),
    )
}

/// How many rows the first answer of a search has at most.
pub open spec fn first_limit(plan: PlanView) -> Option<usize> {
    match plan.mode {
        Mode::Fuzzy => Some(
            if plan.git_aware {
                NAME_LIMIT_GIT
            } else {
                NAME_LIMIT
            },
        ),
        Mode::Regex => None,
        Mode::Kind => Some(NAME_LIMIT),
    }
}

/// How many rows an answer of a search at one commit has at most.
pub open spec fn chunk_limit(plan: PlanView) -> Option<usize> {
    if plan.mode == Mode::Regex {
        None
    } else {
        Some(NAME_LIMIT)
    }
}

/// Which rows a search waits for.
pub enum Wanted<I> {
    /// Those of exactly the name.
    Exact,
    /// Those that the pattern finds.
    First,
    /// Those of one piece of the files, of which `next` comes next.
    Chunk { filters: Vec<String>, next: usize, found: Vec<I> },
}

#[verifier::ext_equal]
pub enum WantedView<V> {
    Exact,
    First,
    Chunk { filters: Seq<Seq<char>>, next: nat, found: Seq<V> },
}

/// The contents of a list of records.
pub open spec fn infos_view<S: Symbol>(infos: Seq<S::Info>) -> Seq<<S::Info as View>::V> {
    infos.map_values(|info: S::Info| info@)
}

/// A search that waits for rows.
pub struct AwaitRows<S: Symbol> {
    plan: Plan,
    wanted: Wanted<S::Info>,
}

/// A search that waits for the hashes that files have at the commit.
pub struct AwaitHashes {
    plan: Plan,
    exact: bool,
}

/// A search that waits for what is kept for a row.
pub struct AwaitContent<S: Symbol> {
    plan: Plan,
    rows: Vec<S>,
    at: usize,
    filters: Vec<String>,
    next: usize,
    found: Vec<S::Info>,
}

/// What is to be done next.
pub enum SearchStep<S: Symbol> {
    /// Nothing more: this was found.
    Done(Vec<S::Info>),
    /// Give up: a row cannot be read, for this reason.
    Failed(String),
    /// Ask for rows; then [`AwaitRows::rows`].
    Rows(Query, AwaitRows<S>),
    /// Find the hashes that these files have at the commit; then
    /// [`AwaitHashes::resolved`].
    Hashes(Vec<String>, AwaitHashes),
    /// Fetch what is kept under this hash; then [`AwaitContent::content`].
    Content(String, AwaitContent<S>),
}

#[verifier::ext_equal]
pub struct ContentState<S, V> {
    pub plan: PlanView,
    pub rows: Seq<S>,
    pub at: nat,
    pub filters: Seq<Seq<char>>,
    pub next: nat,
    pub found: Seq<V>,
}

#[verifier::ext_equal]
pub enum StepView<S, V> {
    Done(Seq<V>),
    Failed(Seq<char>),
    Rows(QueryView, PlanView, WantedView<V>),
    /// The files, the plan, and whether there were symbols of exactly the name.
    Hashes(Seq<Seq<char>>, PlanView, bool),
    Content(Seq<char>, ContentState<S, V>),
}

impl<S: Symbol> AwaitRows<S> {
    pub closed spec fn plan_view(&self) -> PlanView {
        self.plan@
    }

    pub closed spec fn wanted_view(&self) -> WantedView<<S::Info as View>::V> {
        match self.wanted {
            Wanted::Exact => WantedView::Exact,
            Wanted::First => WantedView::First,
            Wanted::Chunk { filters, next, found } => WantedView::Chunk {
                filters: texts(filters@),
                next: next as nat,
                found: infos_view::<S>(found@),
            },
        }
    }
}

impl AwaitHashes {
    pub closed spec fn plan_view(&self) -> PlanView {
        self.plan@
    }

    /// Whether there were symbols of exactly the name.
    pub closed spec fn exact_found(&self) -> bool {
        self.exact
    }
}

impl<S: Symbol> AwaitContent<S> {
    pub closed spec fn state(&self) -> ContentState<S, <S::Info as View>::V> {
        ContentState {
            plan: self.plan@,
            rows: self.rows@,
            at: self.at as nat,
            filters: texts(self.filters@),
            next: self.next as nat,
            found: infos_view::<S>(self.found@),
        }
    }

    #[verifier::type_invariant]
    spec fn valid(self) -> bool {
        self.at < self.rows@.len()
    }
}

impl<S: Symbol> View for SearchStep<S> {
    type V = StepView<S, <S::Info as View>::V>;

    open spec fn view(&self) -> StepView<S, <S::Info as View>::V> {
        match *self {
            SearchStep::Done(found) => StepView::Done(infos_view::<S>(found@)),
            SearchStep::Failed(fault) => StepView::Failed(fault@),
            SearchStep::Rows(query, wait) => StepView::Rows(
                query@,
                wait.plan_view(),
                wait.wanted_view(),
            ),
            SearchStep::Hashes(paths, wait) => StepView::Hashes(
                texts(paths@),
                wait.plan_view(),
                wait.exact_found(),
            ),
            SearchStep::Content(hash, wait) => StepView::Content(hash@, wait.state()),
        }
    }
}

/// The first step of a search.
pub open spec fn search_start<S: Symbol>(plan: PlanView) -> StepView<S, <S::Info as View>::V> {
    match plan.mode {
        Mode::Fuzzy => StepView::Rows(
            QueryView {
                table: S::table_spec(),
                filter: exact_filter(plan.pattern, S::typedefs_spec()),
                limit: first_limit(plan),
            },
            plan,
            WantedView::Exact,
        ),
        Mode::Regex => StepView::Rows(
            QueryView {
                table: S::table_spec(),
                filter: regex_filter(plan.pattern),
                limit: first_limit(plan),
            },
            plan,
            WantedView::First,
        ),
        Mode::Kind => StepView::Rows(
            QueryView {
                table: S::table_spec(),
                filter: kind_filter(plan.pattern),
                limit: first_limit(plan),
            },
            plan,
            WantedView::First,
        ),
    }
}

/// Of rows, those that a search is about.
pub open spec fn kept_rows<S: Symbol>(rows: Seq<S>, plan: PlanView) -> Seq<S>
    decreases rows.len(),
{
    if rows.len() == 0 {
        seq![]
    } else if rows.last().kept_spec(plan) {
        kept_rows(rows.drop_last(), plan).push(rows.last())
    } else {
        kept_rows(rows.drop_last(), plan)
    }
}

/// The files of rows, each once.
pub open spec fn row_paths<S: Symbol>(rows: Seq<S>) -> Seq<Seq<char>> {
    distinct(rows.map_values(|row: S| row.path_spec()))
}

/// The step when the next piece of the files is due.
pub open spec fn next_chunk<S: Symbol>(
    plan: PlanView,
    filters: Seq<Seq<char>>,
    next: nat,
    found: Seq<<S::Info as View>::V>,
) -> StepView<S, <S::Info as View>::V> {
    if next < filters.len() {
        StepView::Rows(
            QueryView {
                table: S::table_spec(),
                filter: filters[next as int],
                limit: chunk_limit(plan),
            },
            plan,
            WantedView::Chunk { filters, next: next + 1, found },
        )
    } else {
        StepView::Done(found)
    }
}

/// The step when the rows from `at` on are due: a row for which nothing is kept is
/// done at once. A row that cannot be read ends the search.
pub open spec fn next_row<S: Symbol>(
    state: ContentState<S, <S::Info as View>::V>,
) -> StepView<S, <S::Info as View>::V>
    decreases state.rows.len() - state.at,
{
    if state.at >= state.rows.len() {
        next_chunk::<S>(state.plan, state.filters, state.next, state.found)
    } else {
        match state.rows[state.at as int].fault_spec() {
            Some(fault) => StepView::Failed(fault),
            None => match state.rows[state.at as int].content_spec() {
                Some(hash) => StepView::Content(hash, state),
                None => next_row(with_content::<S>(state, seq![])),
            },
        }
    }
}

/// The state after the record of the row at hand was made.
pub open spec fn with_content<S: Symbol>(
    state: ContentState<S, <S::Info as View>::V>,
    content: Seq<char>,
) -> ContentState<S, <S::Info as View>::V> {
    ContentState {
        at: state.at + 1,
        found: state.found.push(state.rows[state.at as int].info_spec(state.plan, content)),
        ..state
    }
}

/// The step after the first rows are there, `exact` if they have exactly the name. A
/// search at one commit goes on with their files.
pub open spec fn first_rows<S: Symbol>(plan: PlanView, exact: bool, rows: Seq<S>) -> StepView<
    S,
    <S::Info as View>::V,
> {
    if plan.git_aware {
        if rows.len() == 0 {
            StepView::Done(seq![])
        } else {
            StepView::Hashes(row_paths(rows), plan, exact)
        }
    } else {
        next_row(
            ContentState {
                plan,
                rows: kept_rows(rows, plan),
                at: 0,
                filters: seq![],
                next: 0,
                found: seq![],
            },
        )
    }
}

/// The step after rows came. Where no symbol has exactly the name, those with it as
/// part of the name are asked for.
pub open spec fn after_rows<S: Symbol>(
    plan: PlanView,
    wanted: WantedView<<S::Info as View>::V>,
    rows: Seq<S>,
) -> StepView<S, <S::Info as View>::V> {
    match wanted {
        WantedView::Exact => if rows.len() > 0 {
            first_rows(plan, true, rows)
        } else {
            StepView::Rows(
                QueryView {
                    table: S::table_spec(),
                    filter: like_filter(plan.pattern, S::typedefs_spec()),
                    limit: first_limit(plan),
                },
                plan,
                WantedView::First,
            )
        },
        WantedView::First => first_rows(plan, false, rows),
        WantedView::Chunk { filters, next, found } => next_row(
            ContentState { plan, rows: kept_rows(rows, plan), at: 0, filters, next, found },
        ),
    }
}

/// The step after the hashes of the files came, or could not be found. A search for
/// functions by a pattern that cannot be compiled ends here.
pub open spec fn after_hashes<S: Symbol>(
    plan: PlanView,
    exact: bool,
    hashes: Option<Seq<Seq<char>>>,
) -> StepView<S, <S::Info as View>::V> {
    match hashes {
        Some(hashes) => if hashes.len() == 0 || (S::table_spec() == Table::Functions && plan.mode
            == Mode::Regex && refusal(plan.pattern) is Some) {
            StepView::Done(seq![])
        } else {
            next_chunk::<S>(
                plan,
                chunk_filters(plan, S::typedefs_spec(), exact, hashes),
                0,
                seq![],
            )
        },
        None => StepView::Done(seq![]),
    }
}

/// The step after what is kept for the row at hand came; nothing is kept where it
/// is missing.
pub open spec fn after_content<S: Symbol>(
    state: ContentState<S, <S::Info as View>::V>,
    content: Option<Seq<char>>,
) -> StepView<S, <S::Info as View>::V> {
    next_row(
        with_content::<S>(
            state,
            match content {
                Some(text) => text,
                None => seq![],
            },
        ),
    )
}

/// The end of a condition by name where only type definitions are asked for.
fn typedefs_ending(typedefs: bool) -> (text: String)
    ensures
        text@ == typedefs_only(typedefs),
{
    if typedefs {
        String::from_str(" AND kind = 'typedef'")
    } else {
        String::from_str("")
    }
}

/// The condition for rows of files with one of `hashes`, with such a name, and of this
/// kind where one is given.
fn search_types_by_git_hashes(
    hashes: &Vec<String>,
    name_filter: Naming,
    kind: Option<&str>,
) -> (filter: String)
    ensures
        filter@ == rows_filter(
            texts(hashes@),
            name_filter@,
            match kind {
                Some(kind) => Some(kind@),
                None => None,
            },
        ),
{
    let mut filter = write_any_of("git_file_hash", hashes, false);
    match name_filter {
        Naming::Any => {},
        Naming::Exactly(name) => {
            filter = String::from_str("(").concat(filter.as_str()).concat(
                ") AND name = '",
            ).concat(name).concat("'");
        },
        Naming::Part(part) => {
            filter = String::from_str("(").concat(filter.as_str()).concat(
                ") AND name LIKE '%",
            ).concat(part).concat("%'");
        },
    }
    if let Some(kind) = kind {
        filter = String::from_str("(").concat(filter.as_str()).concat(") AND kind = '").concat(
            escape(kind).as_str(),
        ).concat("'");
    }
    filter
}

/// The condition for type definitions in files with one of `hashes`, with such a name.
fn search_typedefs_by_git_hashes(hashes: &Vec<String>, name_filter: Naming) -> (filter: String)
    ensures
        filter@ == typedefs_filter(texts(hashes@), name_filter@),
{
    let filter = String::from_str("(").concat(write_any_of("git_file_hash", hashes, false).as_str()).concat(
        ") AND kind = 'typedef'",
    );
    match name_filter {
        Naming::Any => filter,
        Naming::Exactly(name) => filter.concat(" AND name = '").concat(name).concat("'"),
        Naming::Part(part) => filter.concat(" AND name LIKE '%").concat(part).concat("%'"),
    }
}

/// The conditions of a search at one commit.
fn write_chunk_filters(
    plan: &Plan,
    typedefs: bool,
    exact: bool,
    hashes: Vec<String>,
) -> (filters: Vec<String>)
    ensures
        texts(filters@) == chunk_filters(plan@, typedefs, exact, texts(hashes@)),
{
    let ghost names = hashes@;
    let ghost all = texts(hashes@);
    let ghost size = HASH_CHUNK as nat;
    let ghost expected = chunk_filters(plan@, typedefs, exact, all);
    let parts = cut(hashes, HASH_CHUNK);
    let pattern = escape(plan.pattern.as_str());
    let regex = match plan.mode {
        Mode::Regex => true,
        _ => false,
    };
    let naming = if regex {
        Naming::Any
    } else if exact {
        Naming::Exactly(pattern.as_str())
    } else {
        Naming::Part(pattern.as_str())
    };
    let mut filters: Vec<String> = Vec::new();
    proof {
        lemma_text_pieces(names, size);
    }
    let mut i: usize = 0;
    while i < parts.len()
        invariant
            i <= parts@.len(),
            size == HASH_CHUNK as nat,
            all == texts(names),
            naming@ == chunk_naming(plan@, exact),
            regex == (plan@.mode == Mode::Regex),
            lists(parts@) == pieces(names, size),
            pieces(all, size) == pieces(names, size).map_values(
                |piece: Seq<String>| texts(piece),
            ),
            expected == chunk_filters(plan@, typedefs, exact, all),
            texts(filters@) == expected.take(i as int),
        decreases parts@.len() - i,
    {
        let ghost before = texts(filters@);
        let filter = if typedefs && !regex {
            search_typedefs_by_git_hashes(&parts[i], naming)
        } else {
            search_types_by_git_hashes(&parts[i], naming, None)
        };
        proof {
            assert(lists(parts@)[i as int] == parts@[i as int]@);
            assert(expected[i as int] == filter@);
        }
        filters.push(filter);
        assert(texts(filters@) =~= before.push(expected[i as int]));
        assert(expected.take(i + 1) =~= before.push(expected[i as int]));
        i = i + 1;
    }
    proof {
        assert(lists(parts@).len() == parts@.len());
        assert(expected.take(i as int) =~= expected);
    }
    filters
}

fn write_first_limit(plan: &Plan) -> (limit: Option<usize>)
    ensures
        limit == first_limit(plan@),
{
    match plan.mode {
        Mode::Fuzzy => Some(
            if plan.git_aware {
                NAME_LIMIT_GIT
            } else {
                NAME_LIMIT
            },
        ),
        Mode::Regex => None,
        Mode::Kind => Some(NAME_LIMIT),
    }
}

/// Starts a search.
fn start_search<S: Symbol>(plan: Plan) -> (step: SearchStep<S>)
    ensures
        step@ == search_start::<S>(plan@),
{
    let limit = write_first_limit(&plan);
    let pattern = escape(plan.pattern.as_str());
    match plan.mode {
        Mode::Fuzzy => {
            let filter = String::from_str("name = '").concat(pattern.as_str()).concat("'").concat(
                typedefs_ending(S::typedefs()).as_str(),
            );
            SearchStep::Rows(
                Query { table: S::table(), filter, limit },
                AwaitRows { plan, wanted: Wanted::Exact },
            )
        },
        Mode::Regex => {
            let filter = String::from_str("regexp_like(name, '(?i)").concat(pattern.as_str()).concat(
                "')",
            );
            SearchStep::Rows(
                Query { table: S::table(), filter, limit },
                AwaitRows { plan, wanted: Wanted::First },
            )
        },
        Mode::Kind => {
            let filter = String::from_str("kind = '").concat(pattern.as_str()).concat("'");
            SearchStep::Rows(
                Query { table: S::table(), filter, limit },
                AwaitRows { plan, wanted: Wanted::First },
            )
        },
    }
}

/// Of rows, those that a search is about.
fn keep_rows<S: Symbol>(rows: Vec<S>, plan: &Plan) -> (kept: Vec<S>)
    ensures
        kept@ == kept_rows(rows@, plan@),
{
    let ghost all = rows@;
    let mut rest = rows;
    let mut backwards: Vec<S> = Vec::new();
    assert(kept_rows(all, plan@) =~= kept_rows(rest@, plan@) + backwards@.reverse());
    while rest.len() > 0
        invariant
            kept_rows(all, plan@) == kept_rows(rest@, plan@) + backwards@.reverse(),
        decreases rest@.len(),
    {
        let ghost before = rest@;
        let ghost old_back = backwards@;
        match rest.pop() {
            Some(row) => {
                assert(before.drop_last() =~= rest@);
                if row.kept(plan) {
                    let ghost it = row;
                    backwards.push(row);
                    assert(kept_rows(rest@, plan@).push(it) + old_back.reverse() =~= kept_rows(
                        rest@,
                        plan@,
                    ) + backwards@.reverse());
                }
            },
            None => {},
        }
    }
    let mut kept: Vec<S> = Vec::new();
    assert(kept@ + backwards@.reverse() =~= kept_rows(all, plan@));
    while backwards.len() > 0
        invariant
            kept_rows(all, plan@) == kept@ + backwards@.reverse(),
        decreases backwards@.len(),
    {
        let ghost old_back = backwards@;
        let ghost old_kept = kept@;
        match backwards.pop() {
            Some(row) => {
                let ghost it = row;
                kept.push(row);
                assert(old_back.reverse() =~= seq![it] + backwards@.reverse());
                assert(kept@ + backwards@.reverse() =~= old_kept + old_back.reverse());
            },
            None => {},
        }
    }
    assert(kept@ + backwards@.reverse() =~= kept@);
    kept
}

/// The files of rows, each once.
fn list_paths<S: Symbol>(rows: &Vec<S>) -> (paths: Vec<String>)
    ensures
        texts(paths@) == row_paths(rows@),
{
    let mut all: Vec<String> = Vec::new();
    let mut i: usize = 0;
    while i < rows.len()
        invariant
            i <= rows@.len(),
            all@.len() == i,
            forall|k: int| 0 <= k < i ==> (#[trigger] all@[k])@ == rows@[k].path_spec(),
        decreases rows@.len() - i,
    {
        all.push(rows[i].path());
        i = i + 1;
    }
    assert(texts(all@) =~= rows@.map_values(|row: S| row.path_spec()));
    distinct_texts(&all)
}

/// The step when the next piece of the files is due.
fn go_to_chunk<S: Symbol>(
    plan: Plan,
    filters: Vec<String>,
    next: usize,
    found: Vec<S::Info>,
) -> (step: SearchStep<S>)
    ensures
        step@ == next_chunk::<S>(plan@, texts(filters@), next as nat, infos_view::<S>(found@)),
{
    if next < filters.len() {
        let limit = match plan.mode {
            Mode::Regex => None,
            _ => Some(NAME_LIMIT),
        };
        let query = Query { table: S::table(), filter: filters[next].clone(), limit };
        assert(query@.filter == texts(filters@)[next as int]);
        SearchStep::Rows(
            query,
            AwaitRows { plan, wanted: Wanted::Chunk { filters, next: next + 1, found } },
        )
    } else {
        SearchStep::Done(found)
    }
}

/// The step when the rows from `at` on are due.
fn go_to_row<S: Symbol>(
    plan: Plan,
    rows: Vec<S>,
    from: usize,
    filters: Vec<String>,
    next: usize,
    found: Vec<S::Info>,
) -> (step: SearchStep<S>)
    ensures
        step@ == next_row::<S>(
            ContentState {
                plan: plan@,
                rows: rows@,
                at: from as nat,
                filters: texts(filters@),
                next: next as nat,
                found: infos_view::<S>(found@),
            },
        ),
{
    let mut found = found;
    let mut at: usize = from;
    let ghost start = ContentState::<S, <S::Info as View>::V> {
        plan: plan@,
        rows: rows@,
        at: from as nat,
        filters: texts(filters@),
        next: next as nat,
        found: infos_view::<S>(found@),
    };
    #[verifier::loop_isolation(false)]
    while at < rows.len()
        invariant
            next_row::<S>(start) == next_row::<S>(
                ContentState {
                    plan: plan@,
                    rows: rows@,
                    at: at as nat,
                    filters: texts(filters@),
                    next: next as nat,
                    found: infos_view::<S>(found@),
                },
            ),
        decreases rows@.len() - at,
    {
        let ghost here = ContentState::<S, <S::Info as View>::V> {
            plan: plan@,
            rows: rows@,
            at: at as nat,
            filters: texts(filters@),
            next: next as nat,
            found: infos_view::<S>(found@),
        };
        let ghost before = infos_view::<S>(found@);
        if let Some(fault) = rows[at].fault() {
            return SearchStep::Failed(fault);
        }
        match rows[at].content_hash() {
            Some(hash) => {
                let wait = AwaitContent { plan, rows, at, filters, next, found };
                assert(wait.state() =~= here);
                return SearchStep::Content(hash, wait);
            },
            None => {
                let empty = String::new();
                assert(empty@ =~= seq![]);
                let info = rows[at].info(&plan, empty);
                found.push(info);
                proof {
                    assert(infos_view::<S>(found@) =~= before.push(
                        rows@[at as int].info_spec(plan@, seq![]),
                    ));
                    assert(with_content::<S>(here, seq![]) =~= ContentState {
                        at: (at + 1) as nat,
                        found: infos_view::<S>(found@),
                        ..here
                    });
                }
            },
        }
        at = at + 1;
    }
    go_to_chunk(plan, filters, next, found)
}

/// The step after the first rows are there.
fn go_to_first<S: Symbol>(plan: Plan, exact: bool, rows: Vec<S>) -> (step: SearchStep<S>)
    ensures
        step@ == first_rows(plan@, exact, rows@),
{
    if plan.git_aware {
        if rows.len() == 0 {
            let found: Vec<S::Info> = Vec::new();
            assert(infos_view::<S>(found@) =~= seq![]);
            SearchStep::Done(found)
        } else {
            let paths = list_paths(&rows);
            SearchStep::Hashes(paths, AwaitHashes { plan, exact })
        }
    } else {
        let kept = keep_rows(rows, &plan);
        let filters: Vec<String> = Vec::new();
        let found: Vec<S::Info> = Vec::new();
        assert(infos_view::<S>(found@) =~= seq![]);
        assert(texts(filters@) =~= seq![]);
        go_to_row(plan, kept, 0, filters, 0, found)
    }
}

impl<S: Symbol> AwaitRows<S> {
    /// The rows that were asked for.
    pub fn rows(self, rows: Vec<S>) -> (step: SearchStep<S>)
        ensures
            step@ == after_rows(self.plan_view(), self.wanted_view(), rows@),
    {
        let AwaitRows { plan, wanted } = self;
        match wanted {
            Wanted::Exact => {
                if rows.len() > 0 {
                    return go_to_first(plan, true, rows);
                }
                let limit = write_first_limit(&plan);
                let filter = String::from_str("name LIKE '%").concat(
                    escape(plan.pattern.as_str()).as_str(),
                ).concat("%'").concat(typedefs_ending(S::typedefs()).as_str());
                SearchStep::Rows(
                    Query { table: S::table(), filter, limit },
                    AwaitRows { plan, wanted: Wanted::First },
                )
            },
            Wanted::First => go_to_first(plan, false, rows),
            Wanted::Chunk { filters, next, found } => {
                let kept = keep_rows(rows, &plan);
                go_to_row(plan, kept, 0, filters, next, found)
            },
        }
    }
}

impl AwaitHashes {
    /// The hashes that the files have at the commit; none where they could not be
    /// found.
    pub fn resolved<S: Symbol>(self, hashes: Option<Vec<String>>) -> (step: SearchStep<S>)
        ensures
            step@ == after_hashes::<S>(
                self.plan_view(),
                self.exact_found(),
                texts_or_none(hashes),
            ),
    {
        let AwaitHashes { plan, exact } = self;
        let nothing: Vec<S::Info> = Vec::new();
        assert(infos_view::<S>(nothing@) =~= seq![]);
        match hashes {
            Some(hashes) => {
                assert(texts(hashes@).len() == hashes@.len());
                if hashes.len() == 0 {
                    return SearchStep::Done(nothing);
                }
                let functions = match S::table() {
                    Table::Functions => true,
                    Table::Types => false,
                };
                let regex = match plan.mode {
                    Mode::Regex => true,
                    _ => false,
                };
                if functions && regex && pattern_fault(plan.pattern.as_str()).is_some() {
                    return SearchStep::Done(nothing);
                }
                let filters = write_chunk_filters(&plan, S::typedefs(), exact, hashes);
                go_to_chunk(plan, filters, 0, nothing)
            },
            None => SearchStep::Done(nothing),
        }
    }
}

impl<S: Symbol> AwaitContent<S> {
    /// What is kept for the row at hand; none where it is missing.
    pub fn content(self, content: Option<String>) -> (step: SearchStep<S>)
        ensures
            step@ == after_content::<S>(self.state(), text_or_none(content)),
    {
        proof {
            use_type_invariant(&self);
        }
        let ghost state = self.state();
        let AwaitContent { plan, rows, at, filters, next, found } = self;
        let mut found = found;
        let ghost before = infos_view::<S>(found@);
        let text = match content {
            Some(text) => text,
            None => String::new(),
        };
        let ghost kept = text@;
        let info = rows[at].info(&plan, text);
        let count: usize = rows.len();
        found.push(info);
        proof {
            assert(at < count);
            assert(content is None ==> kept =~= seq![]);
            assert(infos_view::<S>(found@) =~= before.push(
                rows@[at as int].info_spec(plan@, kept),
            ));
            assert(with_content::<S>(state, kept) =~= ContentState {
                at: (at + 1) as nat,
                found: infos_view::<S>(found@),
                ..state
            });
        }
        go_to_row(plan, rows, at + 1, filters, next, found)
    }
}

/// Searches for symbols, in the database of one repository.
pub struct SearchManager {
    git_repo_path: String,
}

/// The plan of a search.
pub open spec fn plan_of(pattern: Seq<char>, mode: Mode, git_aware: bool) -> PlanView {
    PlanView { pattern, mode, git_aware }
}

fn make_plan(pattern: &str, mode: Mode, git_aware: bool) -> (plan: Plan)
    ensures
        plan@ == plan_of(pattern@, mode, git_aware),
{
    Plan { pattern: pattern.to_string(), mode, git_aware }
}

impl SearchManager {
    /// Where the repository is.
    pub closed spec fn repository(&self) -> Seq<char> {
        self.git_repo_path@
    }

    /// Searches in the database of the repository at `git_repo_path`.
    pub fn new(git_repo_path: String) -> (manager: SearchManager)
        ensures
            manager.repository() == git_repo_path@,
    {
        SearchManager { git_repo_path }
    }

    /// Where the repository is in which the hashes of files at a commit are found.
    pub fn git_repo_path(&self) -> (path: &str)
        ensures
            path@ == self.repository(),
    {
        self.git_repo_path.as_str()
    }

    /// Functions of this name, or with it as part of the name where there are none.
    pub fn search_functions_fuzzy(&self, pattern: &str) -> (step: SearchStep<FunctionRow>)
        ensures
            step@ == search_start::<FunctionRow>(plan_of(pattern@, Mode::Fuzzy, false)),
    {
        start_search(make_plan(pattern, Mode::Fuzzy, false))
    }

    /// Functions by name at one commit: the files of those found by name, then the
    /// hashes of the files at the commit, then the functions of these.
    pub fn search_functions_fuzzy_git_aware(&self, pattern: &str) -> (step: SearchStep<FunctionRow>)
        ensures
            step@ == search_start::<FunctionRow>(plan_of(pattern@, Mode::Fuzzy, true)),
    {
        start_search(make_plan(pattern, Mode::Fuzzy, true))
    }

    /// Types of this name, or with it as part of the name where there are none.
    pub fn search_types_fuzzy(&self, pattern: &str) -> (step: SearchStep<TypeRow>)
        ensures
            step@ == search_start::<TypeRow>(plan_of(pattern@, Mode::Fuzzy, false)),
    {
        start_search(make_plan(pattern, Mode::Fuzzy, false))
    }

    /// Types by name at one commit.
    pub fn search_types_fuzzy_git_aware(&self, pattern: &str) -> (step: SearchStep<TypeRow>)
        ensures
            step@ == search_start::<TypeRow>(plan_of(pattern@, Mode::Fuzzy, true)),
    {
        start_search(make_plan(pattern, Mode::Fuzzy, true))
    }

    /// Types of a kind.
    pub fn search_types_by_kind(&self, kind: &str) -> (step: SearchStep<TypeRow>)
        ensures
            step@ == search_start::<TypeRow>(plan_of(kind@, Mode::Kind, false)),
    {
        start_search(make_plan(kind, Mode::Kind, false))
    }

    /// Type definitions of this name, or with it as part of the name where there
    /// are none.
    pub fn search_typedefs_fuzzy(&self, pattern: &str) -> (step: SearchStep<TypedefRow>)
        ensures
            step@ == search_start::<TypedefRow>(plan_of(pattern@, Mode::Fuzzy, false)),
    {
        start_search(make_plan(pattern, Mode::Fuzzy, false))
    }

    /// Type definitions by name at one commit.
    pub fn search_typedefs_fuzzy_git_aware(&self, pattern: &str) -> (step: SearchStep<TypedefRow>)
        ensures
            step@ == search_start::<TypedefRow>(plan_of(pattern@, Mode::Fuzzy, true)),
    {
        start_search(make_plan(pattern, Mode::Fuzzy, true))
    }

    /// Types whose name a pattern is found in.
    pub fn search_types_regex(&self, pattern: &str) -> (step: SearchStep<TypeRow>)
        ensures
            step@ == search_start::<TypeRow>(plan_of(pattern@, Mode::Regex, false)),
    {
        start_search(make_plan(pattern, Mode::Regex, false))
    }

    /// Types whose name a pattern is found in, at one commit.
    pub fn search_types_regex_git_aware(&self, pattern: &str) -> (step: SearchStep<TypeRow>)
        ensures
            step@ == search_start::<TypeRow>(plan_of(pattern@, Mode::Regex, true)),
    {
        start_search(make_plan(pattern, Mode::Regex, true))
    }

    /// Type definitions whose name a pattern is found in.
    pub fn search_typedefs_regex(&self, pattern: &str) -> (step: SearchStep<TypedefRow>)
        ensures
            step@ == search_start::<TypedefRow>(plan_of(pattern@, Mode::Regex, false)),
    {
        start_search(make_plan(pattern, Mode::Regex, false))
    }

    /// Type definitions whose name a pattern is found in, at one commit.
    pub fn search_typedefs_regex_git_aware(&self, pattern: &str) -> (step: SearchStep<TypedefRow>)
        ensures
            step@ == search_start::<TypedefRow>(plan_of(pattern@, Mode::Regex, true)),
    {
        start_search(make_plan(pattern, Mode::Regex, true))
    }

    /// Functions whose name a pattern is found in.
    pub fn search_functions_regex(&self, pattern: &str) -> (step: SearchStep<FunctionRow>)
        ensures
            step@ == search_start::<FunctionRow>(plan_of(pattern@, Mode::Regex, false)),
    {
        start_search(make_plan(pattern, Mode::Regex, false))
    }

    /// Functions whose name a pattern is found in, at one commit.
    pub fn search_functions_regex_git_aware(&self, pattern: &str) -> (step: SearchStep<FunctionRow>)
        ensures
            step@ == search_start::<FunctionRow>(plan_of(pattern@, Mode::Regex, true)),
    {
        start_search(make_plan(pattern, Mode::Regex, true))
    }
}

} // verus!
