//! Reverse relationship edges, one row per edge.
//!
//! What a function calls is kept with the function. Who calls it is a question
//! about the whole table, so it is answered from a table of edges that is kept
//! in the order of the callee.

use vstd::prelude::*;
use vstd::string::*;

use crate::database::conditions::lemma_text_pieces;
use crate::lists::{cut, find_first_places, first_places, lists, picked, pieces};
use crate::order::{keys_of, optional_run, places, runs_of, text_run, Keyed, Part, PartsKey};
use crate::text::{escape, escaped, join, joined, texts};
use crate::types::{copy_slice, copy_texts, texts_or_none, FunctionInfo, FunctionInfoView, TypeInfo, TypeInfoView};

verus! {

/// The kind of an edge from a caller to what it calls.
pub const KIND_CALL: &'static str = "call";

/// The kind of an edge from a function or type to a type that it mentions.
pub const KIND_TYPE_USE: &'static str = "type_use";

/// One reverse edge: `caller` references `callee`.
#[derive(Debug, Clone)]
pub struct CallEdge {
    pub callee: String,
    pub caller: String,
    pub caller_file_path: String,
    /// Every blob hash that the caller was seen in.
    pub caller_git_file_hashes: Vec<String>,
    /// [`KIND_CALL`] or [`KIND_TYPE_USE`].
    pub kind: String,
}

#[verifier::ext_equal]
pub struct CallEdgeView {
    pub callee: Seq<char>,
    pub caller: Seq<char>,
    pub caller_file_path: Seq<char>,
    pub caller_git_file_hashes: Seq<Seq<char>>,
    pub kind: Seq<char>,
}

impl View for CallEdge {
    type V = CallEdgeView;

    open spec fn view(&self) -> CallEdgeView {
        CallEdgeView {
            callee: self.callee@,
            caller: self.caller@,
            caller_file_path: self.caller_file_path@,
            caller_git_file_hashes: texts(self.caller_git_file_hashes@),
            kind: self.kind@,
        }
    }
}

/// The contents of a list of edges.
pub open spec fn edges_view(edges: Seq<CallEdge>) -> Seq<CallEdgeView> {
    edges.map_values(|edge: CallEdge| edge@)
}

/// The contents of a list of lists of edges.
pub open spec fn batches_view(batches: Seq<Vec<CallEdge>>) -> Seq<Seq<CallEdgeView>> {
    batches.map_values(|batch: Vec<CallEdge>| edges_view(batch@))
}

impl CallEdge {
    /// The same edge once more.
    pub fn copied(&self) -> (copy: CallEdge)
        ensures
            copy@ == self@,
    {
        CallEdge {
            callee: self.callee.clone(),
            caller: self.caller.clone(),
            caller_file_path: self.caller_file_path.clone(),
            caller_git_file_hashes: copy_texts(&self.caller_git_file_hashes),
            kind: self.kind.clone(),
        }
    }
}

/// The edges from one row, seen in the one version `hash`, to each of `targets`.
pub open spec fn edges_to(
    targets: Seq<Seq<char>>,
    caller: Seq<char>,
    path: Seq<char>,
    hash: Seq<char>,
    kind: Seq<char>,
) -> Seq<CallEdgeView> {
    targets.map_values(
        |target: Seq<char>|
            CallEdgeView {
                callee: target,
                caller,
                caller_file_path: path,
                caller_git_file_hashes: seq![hash],
                kind,
            },
    )
}

/// The entries of a list that may be absent.
pub open spec fn entries(list: Option<Seq<Seq<char>>>) -> Seq<Seq<char>> {
    match list {
        Some(l) => l,
        None => seq![],
    }
}

/// The edges of one function: its calls, then the types that it mentions. An
/// absent list and an empty one give none alike.
pub open spec fn function_edges(function: FunctionInfoView) -> Seq<CallEdgeView> {
    edges_to(
        entries(function.calls),
        function.name,
        function.file_path,
        function.git_file_hash,
        KIND_CALL@,
    ) + edges_to(
        entries(function.types),
        function.name,
        function.file_path,
        function.git_file_hash,
        KIND_TYPE_USE@,
    )
}

/// The edges of functions, one after the other.
pub open spec fn functions_edges(functions: Seq<FunctionInfo>) -> Seq<CallEdgeView>
    decreases functions.len(),
{
    if functions.len() == 0 {
        seq![]
    } else {
        functions_edges(functions.drop_last()) + function_edges(functions.last()@)
    }
}

/// The edges of one type: the types that it mentions.
pub open spec fn type_edges(type_info: TypeInfoView) -> Seq<CallEdgeView> {
    edges_to(
        entries(type_info.types),
        type_info.name,
        type_info.file_path,
        type_info.git_file_hash,
        KIND_TYPE_USE@,
    )
}

/// The edges of types, one after the other.
pub open spec fn types_edges(types: Seq<TypeInfo>) -> Seq<CallEdgeView>
    decreases types.len(),
{
    if types.len() == 0 {
        seq![]
    } else {
        types_edges(types.drop_last()) + type_edges(types.last()@)
    }
}

/// The first entry of a list, where there is one.
pub open spec fn first_entry(list: Seq<Seq<char>>) -> Option<Seq<char>> {
    if list.len() > 0 {
        Some(list[0])
    } else {
        None
    }
}

/// What two edges share when one of them is enough: the two ends, the file, the
/// first version and the kind.
pub open spec fn edge_key(edge: CallEdgeView) -> Seq<Seq<int>> {
    seq![
        text_run(edge.callee),
        text_run(edge.caller),
        text_run(edge.caller_file_path),
        optional_run(first_entry(edge.caller_git_file_hashes)),
        text_run(edge.kind),
    ]
}

/// The keys of a list of edges.
pub open spec fn edge_keys(edges: Seq<CallEdgeView>) -> Seq<Seq<Seq<int>>> {
    edges.map_values(|edge: CallEdgeView| edge_key(edge))
}

/// Edges without those whose key occurred before.
pub open spec fn distinct_edges(edges: Seq<CallEdgeView>) -> Seq<CallEdgeView> {
    picked(edges, first_places(edge_keys(edges)))
}

/// The batches that edges are stored in: pieces of one size, each without what
/// occurs in it twice.
pub open spec fn edge_batches(edges: Seq<CallEdgeView>, size: nat) -> Seq<Seq<CallEdgeView>> {
    pieces(edges, size).map_values(|piece: Seq<CallEdgeView>| distinct_edges(piece))
}

/// The list in an SQL condition that names each of `names`.
pub open spec fn quoted_list(names: Seq<Seq<char>>) -> Seq<char> {
    joined(names.map_values(|name: Seq<char>| quoted(name)), ", "@)
}

/// An SQL literal.
pub open spec fn quoted(name: Seq<char>) -> Seq<char> {
    "'"@ + escaped(name) + "'"@
}

/// How many callees one condition names.
pub const REFERRERS_CHUNK: usize = 256;

/// The conditions that find every edge to one of `callees`.
pub open spec fn referrer_filters(callees: Seq<Seq<char>>) -> Seq<Seq<char>> {
    pieces(callees, REFERRERS_CHUNK as nat).map_values(
        |piece: Seq<Seq<char>>| "callee IN ("@ + quoted_list(piece) + ")"@,
    )
}

/// The condition that finds the calls of `callee`.
pub open spec fn callers_filter(callee: Seq<char>) -> Seq<char> {
    "callee = '"@ + escaped(callee) + "' AND kind = '"@ + KIND_CALL@ + "'"@
}

/// The edge of a row that was found by [`callers_filter`], which hands out the
/// caller and its versions only.
pub open spec fn caller_edge(
    callee: Seq<char>,
    caller: Seq<char>,
    hashes: Option<Seq<Seq<char>>>,
) -> CallEdgeView {
    CallEdgeView {
        callee,
        caller,
        caller_file_path: seq![],
        caller_git_file_hashes: entries(hashes),
        kind: KIND_CALL@,
    }
}

/// The pieces of a list of edges, seen by their contents, are the pieces of the
/// contents.
proof fn lemma_pieces_view(edges: Seq<CallEdge>, size: nat)
    ensures
        pieces(edges_view(edges), size) == pieces(edges, size).map_values(
            |piece: Seq<CallEdge>| edges_view(piece),
        ),
    decreases edges.len(),
{
    let all = edges_view(edges);
    let seen = pieces(edges, size).map_values(|piece: Seq<CallEdge>| edges_view(piece));
    if edges.len() == 0 || size == 0 {
        assert(pieces(all, size) =~= seen);
    } else if edges.len() <= size {
        assert(pieces(all, size) =~= seen);
    } else {
        let rest = edges.skip(size as int);
        lemma_pieces_view(rest, size);
        assert(edges_view(rest) =~= all.skip(size as int));
        assert(edges_view(edges.take(size as int)) =~= all.take(size as int));
        assert(pieces(all, size) =~= seen);
    }
}

/// Appends the edges from one row to each of `targets`.
fn push_edges(
    edges: &mut Vec<CallEdge>,
    targets: &Vec<String>,
    caller: &String,
    path: &String,
    hash: &String,
    kind: &str,
)
    ensures
        edges_view(final(edges)@) == edges_view(old(edges)@) + edges_to(
            texts(targets@),
            caller@,
            path@,
            hash@,
            kind@,
        ),
{
    let ghost before = edges_view(edges@);
    let ghost all = edges_to(texts(targets@), caller@, path@, hash@, kind@);
    let mut i: usize = 0;
    assert(before + all.take(0) =~= before);
    while i < targets.len()
        invariant
            i <= targets@.len(),
            all == edges_to(texts(targets@), caller@, path@, hash@, kind@),
            edges_view(edges@) == before + all.take(i as int),
        decreases targets@.len() - i,
    {
        let ghost so_far = edges_view(edges@);
        let mut hashes: Vec<String> = Vec::new();
        hashes.push(hash.clone());
        let edge = CallEdge {
            callee: targets[i].clone(),
            caller: caller.clone(),
            caller_file_path: path.clone(),
            caller_git_file_hashes: hashes,
            kind: kind.to_string(),
        };
        proof {
            assert(texts(hashes@) =~= seq![hash@]);
            assert(edge@ == all[i as int]);
        }
        edges.push(edge);
        assert(edges_view(edges@) =~= so_far.push(all[i as int]));
        assert(before + all.take(i + 1) =~= so_far.push(all[i as int]));
        i = i + 1;
    }
    assert(all.take(i as int) =~= all);
}

/// The edges of one batch: those of the piece whose key did not occur before.
fn insert_chunk(edges: &Vec<CallEdge>) -> (batch: Vec<CallEdge>)
    ensures
        edges_view(batch@) == distinct_edges(edges_view(edges@)),
{
    let mut keys: Vec<PartsKey> = Vec::new();
    let ghost all = edges_view(edges@);
    let mut i: usize = 0;
    while i < edges.len()
        invariant
            i <= edges@.len(),
            all == edges_view(edges@),
            keys@.len() == i,
            forall|k: int| 0 <= k < i ==> (#[trigger] keys@[k]).key() == edge_key(all[k]),
        decreases edges@.len() - i,
    {
        let edge = &edges[i];
        let hash: Option<&str> = if edge.caller_git_file_hashes.len() > 0 {
            Some(edge.caller_git_file_hashes[0].as_str())
        } else {
            None
        };
        let mut parts: Vec<Part> = Vec::new();
        parts.push(Part::Text(edge.callee.as_str()));
        parts.push(Part::Text(edge.caller.as_str()));
        parts.push(Part::Text(edge.caller_file_path.as_str()));
        parts.push(Part::Maybe(hash));
        parts.push(Part::Text(edge.kind.as_str()));
        assert(runs_of(parts@) =~= edge_key(all[i as int]));
        keys.push(PartsKey { parts });
        i = i + 1;
    }
    let found = find_first_places(&keys);
    assert(keys_of(keys@) =~= edge_keys(all));
    let mut batch: Vec<CallEdge> = Vec::new();
    let ghost expected = distinct_edges(all);
    let mut a: usize = 0;
    while a < found.len()
        invariant
            a <= found@.len(),
            all == edges_view(edges@),
            expected == distinct_edges(all),
            places(found@) == first_places(edge_keys(all)),
            forall|k: int| 0 <= k < found@.len() ==> #[trigger] found@[k] < edges@.len(),
            edges_view(batch@) == expected.take(a as int),
        decreases found@.len() - a,
    {
        let ghost before = edges_view(batch@);
        let edge = edges[found[a]].copied();
        proof {
            assert(places(found@)[a as int] == found@[a as int] as int);
            assert(expected[a as int] == edge@);
        }
        batch.push(edge);
        assert(edges_view(batch@) =~= before.push(expected[a as int]));
        assert(expected.take(a + 1) =~= before.push(expected[a as int]));
        a = a + 1;
    }
    proof {
        assert(places(found@).len() == found@.len());
        assert(expected.take(a as int) =~= expected);
    }
    batch
}

/// An SQL literal.
pub fn quote(name: &str) -> (literal: String)
    ensures
        literal@ == quoted(name@),
{
    String::from_str("'").concat(escape(name).as_str()).concat("'")
}

/// The list in an SQL condition that names each of `names`.
pub fn quote_list(names: &Vec<String>) -> (list: String)
    ensures
        list@ == quoted_list(texts(names@)),
{
    let mut literals: Vec<String> = Vec::new();
    let ghost all = texts(names@).map_values(|name: Seq<char>| quoted(name));
    let mut i: usize = 0;
    while i < names.len()
        invariant
            i <= names@.len(),
            all == texts(names@).map_values(|name: Seq<char>| quoted(name)),
            texts(literals@) == all.take(i as int),
        decreases names@.len() - i,
    {
        let ghost before = texts(literals@);
        literals.push(quote(names[i].as_str()));
        assert(texts(literals@) =~= before.push(all[i as int]));
        assert(all.take(i + 1) =~= before.push(all[i as int]));
        i = i + 1;
    }
    assert(all.take(i as int) =~= all);
    join(&literals, ", ")
}

/// The store of reverse edges, which writes `batch_size` rows at a time.
pub struct CallEdgeStore {
    batch_size: usize,
}

impl CallEdgeStore {
    pub closed spec fn size(&self) -> nat {
        self.batch_size as nat
    }

    #[verifier::type_invariant]
    spec fn valid(self) -> bool {
        self.batch_size > 0
    }

    /// A store that writes `batch_size` rows at a time.
    pub fn new(batch_size: usize) -> (store: CallEdgeStore)
        requires
            batch_size > 0,
        ensures
            store.size() == batch_size,
    {
        CallEdgeStore { batch_size }
    }

    /// The batches to store for the edges of functions.
    pub fn insert_from_functions(&self, functions: &[FunctionInfo]) -> (batches: Vec<
        Vec<CallEdge>,
    >)
        ensures
            batches_view(batches@) == edge_batches(functions_edges(functions@), self.size()),
    {
        let mut edges: Vec<CallEdge> = Vec::new();
        let mut i: usize = 0;
        assert(functions@.take(0) =~= seq![]);
        assert(edges_view(edges@) =~= functions_edges(functions@.take(0)));
        while i < functions.len()
            invariant
                i <= functions@.len(),
                edges_view(edges@) == functions_edges(functions@.take(i as int)),
            decreases functions@.len() - i,
        {
            let function = &functions[i];
            let ghost before = edges_view(edges@);
            match &function.calls {
                Some(calls) => push_edges(
                    &mut edges,
                    calls,
                    &function.name,
                    &function.file_path,
                    &function.git_file_hash,
                    KIND_CALL,
                ),
                None => {},
            }
            let ghost between = edges_view(edges@);
            match &function.types {
                Some(types) => push_edges(
                    &mut edges,
                    types,
                    &function.name,
                    &function.file_path,
                    &function.git_file_hash,
                    KIND_TYPE_USE,
                ),
                None => {},
            }
            proof {
                let f = function@;
                let calls = edges_to(
                    entries(f.calls),
                    f.name,
                    f.file_path,
                    f.git_file_hash,
                    KIND_CALL@,
                );
                assert(between =~= before + calls);
                assert(edges_view(edges@) =~= before + function_edges(f));
                assert(functions@.take(i + 1).drop_last() =~= functions@.take(i as int));
            }
            i = i + 1;
        }
        assert(functions@.take(i as int) =~= functions@);
        self.insert_batch(edges)
    }

    /// The batches to store for the edges between types.
    pub fn insert_from_types(&self, types: &[TypeInfo]) -> (batches: Vec<Vec<CallEdge>>)
        ensures
            batches_view(batches@) == edge_batches(types_edges(types@), self.size()),
    {
        let mut edges: Vec<CallEdge> = Vec::new();
        let mut i: usize = 0;
        assert(types@.take(0) =~= seq![]);
        assert(edges_view(edges@) =~= types_edges(types@.take(0)));
        while i < types.len()
            invariant
                i <= types@.len(),
                edges_view(edges@) == types_edges(types@.take(i as int)),
            decreases types@.len() - i,
        {
            let type_info = &types[i];
            let ghost before = edges_view(edges@);
            match &type_info.types {
                Some(mentioned) => push_edges(
                    &mut edges,
                    mentioned,
                    &type_info.name,
                    &type_info.file_path,
                    &type_info.git_file_hash,
                    KIND_TYPE_USE,
                ),
                None => {},
            }
            proof {
                assert(edges_view(edges@) =~= before + type_edges(type_info@));
                assert(types@.take(i + 1).drop_last() =~= types@.take(i as int));
            }
            i = i + 1;
        }
        assert(types@.take(i as int) =~= types@);
        self.insert_batch(edges)
    }

    /// The batches to append to the table for `edges`, in order; none where there
    /// are no edges.
    ///
    /// They are appended, never merged: a merge on the two ends of an edge would
    /// replace the list of versions and lose all but the last.
    pub fn insert_batch(&self, edges: Vec<CallEdge>) -> (batches: Vec<Vec<CallEdge>>)
        ensures
            batches_view(batches@) == edge_batches(edges_view(edges@), self.size()),
    {
        proof {
            use_type_invariant(self);
        }
        let ghost all = edges@;
        let ghost size = self.size();
        let parts = cut(edges, self.batch_size);
        let mut batches: Vec<Vec<CallEdge>> = Vec::new();
        let ghost expected = edge_batches(edges_view(all), size);
        proof {
            lemma_pieces_view(all, size);
        }
        let mut i: usize = 0;
        while i < parts.len()
            invariant
                i <= parts@.len(),
                lists(parts@) == pieces(all, size),
                expected == edge_batches(edges_view(all), size),
                pieces(edges_view(all), size) == pieces(all, size).map_values(
                    |piece: Seq<CallEdge>| edges_view(piece),
                ),
                batches_view(batches@) == expected.take(i as int),
            decreases parts@.len() - i,
        {
            let ghost before = batches_view(batches@);
            let batch = insert_chunk(&parts[i]);
            proof {
                assert(lists(parts@)[i as int] == parts@[i as int]@);
                assert(expected[i as int] == edges_view(batch@));
            }
            batches.push(batch);
            assert(batches_view(batches@) =~= before.push(expected[i as int]));
            assert(expected.take(i + 1) =~= before.push(expected[i as int]));
            i = i + 1;
        }
        proof {
            assert(lists(parts@).len() == parts@.len());
            assert(expected.take(i as int) =~= expected);
        }
        batches
    }

    /// The conditions that find, one after the other, every edge to one of
    /// `callees`; none where there are no callees.
    pub fn find_referrers(&self, callees: &[String]) -> (filters: Vec<String>)
        ensures
            texts(filters@) == referrer_filters(texts(callees@)),
    {
        let names = copy_slice(callees);
        let parts = cut(names, REFERRERS_CHUNK);
        let ghost all = texts(callees@);
        let ghost size = REFERRERS_CHUNK as nat;
        let ghost expected = referrer_filters(all);
        let mut filters: Vec<String> = Vec::new();
        proof {
            lemma_text_pieces(names@, size);
        }
        let mut i: usize = 0;
        while i < parts.len()
            invariant
                i <= parts@.len(),
                size == REFERRERS_CHUNK as nat,
                all == texts(names@),
                lists(parts@) == pieces(names@, size),
                pieces(all, size) == pieces(names@, size).map_values(
                    |piece: Seq<String>| texts(piece),
                ),
                expected == referrer_filters(all),
                texts(filters@) == expected.take(i as int),
            decreases parts@.len() - i,
        {
            let ghost before = texts(filters@);
            let filter = String::from_str("callee IN (").concat(quote_list(&parts[i]).as_str()).concat(
                ")",
            );
            proof {
                assert(lists(parts@)[i as int] == parts@[i as int]@);
                assert(expected[i as int] == filter@);
            }
            filters.push(filter);
            assert(texts(filters@) =~= before.push(expected[i as int]));
            assert(expected.take(i + 1) =~= before.push(expected[i as int]));
            i = i + 1;
        }
        proof {
            assert(lists(parts@).len() == parts@.len());
            assert(expected.take(i as int) =~= expected);
        }
        filters
    }

    /// The condition that finds the calls of `callee`.
    pub fn find_callers(&self, callee: &str) -> (filter: String)
        ensures
            filter@ == callers_filter(callee@),
    {
        String::from_str("callee = '").concat(escape(callee).as_str()).concat(
            "' AND kind = '",
        ).concat(KIND_CALL).concat("'")
    }

    /// The edge of a row that [`CallEdgeStore::find_callers`] found. Only the
    /// caller and its versions are read back; the callee is known already.
    pub fn found_caller(
        &self,
        callee: &str,
        caller: String,
        hashes: Option<Vec<String>>,
    ) -> (edge: CallEdge)
        ensures
            edge@ == caller_edge(callee@, caller@, texts_or_none(hashes)),
    {
        let ghost asked = texts_or_none(hashes);
        let list = match hashes {
            Some(list) => list,
            None => Vec::new(),
        };
        assert(texts(list@) =~= entries(asked));
        CallEdge {
            callee: callee.to_string(),
            caller,
            caller_file_path: String::new(),
            caller_git_file_hashes: list,
            kind: KIND_CALL.to_string(),
        }
    }
}

} // verus!
