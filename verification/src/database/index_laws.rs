//! What the table of edges holds of the functions and types that were indexed, and who is
//! found in it.

use vstd::prelude::*;

use crate::database::edge_laws::{holds_key, law_batch_keys};
use crate::database::edges::{
    caller_edge, callers_filter, distinct_edges, edge_batches, edge_key, edge_keys, entries, first_entry,
    function_edges, functions_edges, referrer_filters, type_edges, types_edges, CallEdgeView,
    REFERRERS_CHUNK,
};
use crate::lists::{
    are_portions, concatenated, first_below, law_pieces_are_portions, law_pieces_cover,
    lemma_pieces_within, pieces,
};
use crate::order::{lemma_text_run_injective, optional_run, text_run};
use crate::text::{escaped, joined};
use crate::types::{FunctionInfo, FunctionInfoView, TypeInfo, TypeInfoView};

verus! {

/// Whether a text is one of a list that may be absent.
pub open spec fn listed(list: Option<Seq<Seq<char>>>, name: Seq<char>) -> bool {
    list matches Some(names) && names.contains(name)
}

/// Whether an edge says that a function calls, or mentions as a type, the callee of the
/// edge: it names the function as the caller, its file, and as the one version the hash of
/// the file.
pub open spec fn function_refers(function: FunctionInfoView, edge: CallEdgeView) -> bool {
    &&& edge.caller == function.name
    &&& edge.caller_file_path == function.file_path
    &&& edge.caller_git_file_hashes == seq![function.git_file_hash]
    &&& (edge.kind == "call"@ && listed(function.calls, edge.callee)) || (edge.kind
        == "type_use"@ && listed(function.types, edge.callee))
}

/// Whether an edge says that a type mentions the callee of the edge.
pub open spec fn type_refers(type_info: TypeInfoView, edge: CallEdgeView) -> bool {
    &&& edge.caller == type_info.name
    &&& edge.caller_file_path == type_info.file_path
    &&& edge.caller_git_file_hashes == seq![type_info.git_file_hash]
    &&& edge.kind == "type_use"@
    &&& listed(type_info.types, edge.callee)
}

/// The rows that batches put into the table.
pub open spec fn stored(batches: Seq<Seq<CallEdgeView>>) -> Seq<CallEdgeView> {
    concatenated(batches)
}

pub proof fn lemma_concatenated_contains<T>(parts: Seq<Seq<T>>, item: T)
    ensures
        concatenated(parts).contains(item) <==> exists|k: int|
            0 <= k < parts.len() && (#[trigger] parts[k]).contains(item),
    decreases parts.len(),
{
    if parts.len() > 0 {
        let fewer = parts.drop_last();
        let before = concatenated(fewer);
        let all = concatenated(parts);
        lemma_concatenated_contains(fewer, item);
        if all.contains(item) {
            let p = choose|p: int| 0 <= p < all.len() && all[p] == item;
            if p < before.len() {
                assert(before[p] == item);
                let k = choose|k: int| 0 <= k < fewer.len() && (#[trigger] fewer[k]).contains(item);
                assert(parts[k] == fewer[k]);
            } else {
                assert(parts.last()[p - before.len()] == item);
                assert(parts[parts.len() - 1].contains(item));
            }
        }
        if exists|k: int| 0 <= k < parts.len() && (#[trigger] parts[k]).contains(item) {
            let k = choose|k: int| 0 <= k < parts.len() && (#[trigger] parts[k]).contains(item);
            if k < fewer.len() {
                assert(fewer[k] == parts[k]);
                let p = choose|p: int| 0 <= p < before.len() && before[p] == item;
                assert(all[p] == item);
            } else {
                let p = choose|p: int| 0 <= p < parts.last().len() && parts.last()[p] == item;
                assert(all[before.len() + p] == item);
            }
        }
    }
}

proof fn lemma_edge_key(a: CallEdgeView, b: CallEdgeView)
    requires
        edge_key(a) == edge_key(b),
    ensures
        a.callee == b.callee,
        a.caller == b.caller,
        a.caller_file_path == b.caller_file_path,
        a.kind == b.kind,
        first_entry(a.caller_git_file_hashes) == first_entry(b.caller_git_file_hashes),
{
    let x = edge_key(a);
    let y = edge_key(b);
    assert(x[0] == y[0] && x[1] == y[1] && x[2] == y[2] && x[3] == y[3] && x[4] == y[4]);
    lemma_text_run_injective(a.callee, b.callee);
    lemma_text_run_injective(a.caller, b.caller);
    lemma_text_run_injective(a.caller_file_path, b.caller_file_path);
    lemma_text_run_injective(a.kind, b.kind);
    let p = first_entry(a.caller_git_file_hashes);
    let q = first_entry(b.caller_git_file_hashes);
    match (p, q) {
        (Some(s), Some(t)) => {
            assert(optional_run(p).skip(1) =~= text_run(s));
            assert(optional_run(q).skip(1) =~= text_run(t));
            lemma_text_run_injective(s, t);
        },
        (Some(s), None) => {
            assert(optional_run(p).len() > 0);
        },
        (None, Some(t)) => {
            assert(optional_run(q).len() > 0);
        },
        (None, None) => {},
    }
}

/// Whether two edges are between the same two ends, in the same file, of the same kind and
/// with the same first version, if any.
pub open spec fn same_edge(x: CallEdgeView, y: CallEdgeView) -> bool {
    &&& x.callee == y.callee
    &&& x.caller == y.caller
    &&& x.caller_file_path == y.caller_file_path
    &&& x.kind == y.kind
    &&& (x.caller_git_file_hashes.len() > 0) == (y.caller_git_file_hashes.len() > 0)
    &&& x.caller_git_file_hashes.len() > 0 ==> x.caller_git_file_hashes[0]
        == y.caller_git_file_hashes[0]
}

/// Whether one of `rows` is the same edge.
pub open spec fn has_same(rows: Seq<CallEdgeView>, edge: CallEdgeView) -> bool {
    exists|k: int| 0 <= k < rows.len() && #[trigger] same_edge(rows[k], edge)
}

proof fn lemma_one_stored(edges: Seq<CallEdgeView>, size: nat, i: int)
    requires
        size > 0,
        0 <= i < edges.len(),
    ensures
        has_same(stored(edge_batches(edges, size)), edges[i]),
{
    let parts = pieces(edges, size);
    let batches = edge_batches(edges, size);
    let all = stored(batches);
    let edge = edges[i];
    law_pieces_cover(edges, size);
    lemma_concatenated_contains(parts, edge);
    assert(concatenated(parts)[i] == edge);
    let k = choose|k: int| 0 <= k < parts.len() && (#[trigger] parts[k]).contains(edge);
    let part = parts[k];
    law_batch_keys(part);
    let p = choose|p: int| 0 <= p < part.len() && part[p] == edge;
    let batch = batches[k];
    assert(batch == distinct_edges(part));
    assert(holds_key(batch, edge_key(part[p])));
    let a = choose|a: int| 0 <= a < batch.len() && edge_key(#[trigger] batch[a]) == edge_key(edge);
    let row = batch[a];
    lemma_edge_key(row, edge);
    assert(batch.contains(row));
    assert(batches[k].contains(row));
    lemma_concatenated_contains(batches, row);
    let q = choose|q: int| 0 <= q < all.len() && all[q] == row;
    assert(same_edge(all[q], edge));
}

proof fn lemma_none_added(edges: Seq<CallEdgeView>, size: nat, edge: CallEdgeView)
    requires
        size > 0,
        stored(edge_batches(edges, size)).contains(edge),
    ensures
        edges.contains(edge),
{
    let parts = pieces(edges, size);
    let batches = edge_batches(edges, size);
    lemma_concatenated_contains(batches, edge);
    let k = choose|k: int| 0 <= k < batches.len() && (#[trigger] batches[k]).contains(edge);
    let part = parts[k];
    law_batch_keys(part);
    let a = choose|a: int| 0 <= a < batches[k].len() && batches[k][a] == edge;
    assert(part.contains(distinct_edges(part)[a]));
    lemma_pieces_within(edges, size, k);
    assert(pieces(edges, size)[k].contains(edge));
}

proof fn lemma_batch_size(edges: Seq<CallEdgeView>, size: nat, k: int)
    requires
        size > 0,
        0 <= k < edge_batches(edges, size).len(),
    ensures
        0 < edge_batches(edges, size)[k].len() <= size,
{
    let part = pieces(edges, size)[k];
    law_pieces_cover(edges, size);
    assert(0 < part.len() <= size);
    law_batch_keys(part);
    assert(holds_key(distinct_edges(part), edge_key(part[0])));
    lemma_fewer(edge_keys(part), part.len() as int);
}

/// No edge is lost when edges are put into batches, and none is added: for each, the table
/// gets one between the same two ends, in the same file, of the same kind and with the same
/// first version; and what it gets is among the edges. A batch holds one row or more, and no
/// more than the size.
pub proof fn law_edges_are_stored(edges: Seq<CallEdgeView>, size: nat)
    requires
        size > 0,
    ensures
        forall|i: int|
            0 <= i < edges.len() ==> has_same(
                stored(edge_batches(edges, size)),
                #[trigger] edges[i],
            ),
        forall|edge: CallEdgeView| #[trigger]
            stored(edge_batches(edges, size)).contains(edge) ==> edges.contains(edge),
        forall|k: int|
            0 <= k < edge_batches(edges, size).len() ==> 0 < (#[trigger] edge_batches(
                edges,
                size,
            )[k]).len() <= size,
{
    assert forall|i: int| 0 <= i < edges.len() implies has_same(
        stored(edge_batches(edges, size)),
        #[trigger] edges[i],
    ) by {
        lemma_one_stored(edges, size, i);
    }
    assert forall|edge: CallEdgeView| #[trigger]
        stored(edge_batches(edges, size)).contains(edge) implies edges.contains(edge) by {
        lemma_none_added(edges, size, edge);
    }
    assert forall|k: int| 0 <= k < edge_batches(edges, size).len() implies 0 < (
    #[trigger] edge_batches(edges, size)[k]).len() <= size by {
        lemma_batch_size(edges, size, k);
    }
}

proof fn lemma_fewer(keys: Seq<Seq<Seq<int>>>, n: int)
    requires
        0 <= n,
    ensures
        first_below(keys, n).len() <= n,
    decreases n,
{
    if n > 0 {
        lemma_fewer(keys, n - 1);
    }
}

/// A batch holds no edge twice.
pub proof fn law_batches_hold_none_twice(
    edges: Seq<CallEdgeView>,
    size: nat,
    k: int,
    a: int,
    b: int,
)
    requires
        size > 0,
        0 <= k < edge_batches(edges, size).len(),
        0 <= a < b < edge_batches(edges, size)[k].len(),
    ensures
        !same_edge(edge_batches(edges, size)[k][a], edge_batches(edges, size)[k][b]),
{
    let part = pieces(edges, size)[k];
    law_batch_keys(part);
    let x = distinct_edges(part)[a];
    let y = distinct_edges(part)[b];
    assert(edge_key(x) != edge_key(y));
    if same_edge(x, y) {
        assert(first_entry(x.caller_git_file_hashes) == first_entry(y.caller_git_file_hashes));
        assert(edge_key(x) =~= edge_key(y));
    }
}

proof fn lemma_function_edges(function: FunctionInfoView, edge: CallEdgeView)
    ensures
        function_edges(function).contains(edge) <==> function_refers(function, edge),
{
    let all = function_edges(function);
    let calls = entries(function.calls);
    let types = entries(function.types);
    if all.contains(edge) {
        let p = choose|p: int| 0 <= p < all.len() && all[p] == edge;
        if p < calls.len() {
            assert(calls[p] == edge.callee);
            assert(calls.contains(edge.callee));
        } else {
            assert(types[p - calls.len()] == edge.callee);
            assert(types.contains(edge.callee));
        }
    }
    if function_refers(function, edge) {
        if edge.kind == "call"@ && listed(function.calls, edge.callee) {
            let p = choose|p: int| 0 <= p < calls.len() && calls[p] == edge.callee;
            assert(all[p] =~= edge);
        } else {
            let p = choose|p: int| 0 <= p < types.len() && types[p] == edge.callee;
            assert(all[calls.len() + p] =~= edge);
        }
    }
}

proof fn lemma_functions_edges(functions: Seq<FunctionInfo>, edge: CallEdgeView)
    ensures
        functions_edges(functions).contains(edge) <==> exists|i: int|
            0 <= i < functions.len() && function_refers((#[trigger] functions[i])@, edge),
        forall|k: int|
            0 <= k < functions_edges(functions).len() ==> (#[trigger] functions_edges(
                functions,
            )[k]).caller_git_file_hashes.len() == 1,
    decreases functions.len(),
{
    if functions.len() > 0 {
        let fewer = functions.drop_last();
        let before = functions_edges(fewer);
        let own = function_edges(functions.last()@);
        let all = functions_edges(functions);
        lemma_functions_edges(fewer, edge);
        lemma_function_edges(functions.last()@, edge);
        assert(all == before + own);
        if all.contains(edge) {
            let p = choose|p: int| 0 <= p < all.len() && all[p] == edge;
            if p < before.len() {
                assert(before[p] == edge);
                let i = choose|i: int|
                    0 <= i < fewer.len() && function_refers((#[trigger] fewer[i])@, edge);
                assert(functions[i] == fewer[i]);
            } else {
                assert(own[p - before.len()] == edge);
                assert(function_refers(functions[functions.len() - 1]@, edge));
            }
        }
        if exists|i: int| 0 <= i < functions.len() && function_refers((#[trigger] functions[i])@, edge) {
            let i = choose|i: int|
                0 <= i < functions.len() && function_refers((#[trigger] functions[i])@, edge);
            if i < fewer.len() {
                assert(fewer[i] == functions[i]);
                let p = choose|p: int| 0 <= p < before.len() && before[p] == edge;
                assert(all[p] == edge);
            } else {
                let p = choose|p: int| 0 <= p < own.len() && own[p] == edge;
                assert(all[before.len() + p] == edge);
            }
        }
    }
}

proof fn lemma_one_version(edges: Seq<CallEdgeView>, size: nat, edge: CallEdgeView)
    requires
        size > 0,
        forall|k: int|
            0 <= k < edges.len() ==> (#[trigger] edges[k]).caller_git_file_hashes.len() == 1,
    ensures
        stored(edge_batches(edges, size)).contains(edge) <==> edges.contains(edge),
{
    law_edges_are_stored(edges, size);
    let all = stored(edge_batches(edges, size));
    if edges.contains(edge) {
        let i = choose|i: int| 0 <= i < edges.len() && edges[i] == edge;
        assert(has_same(all, edges[i]));
        let k = choose|k: int| 0 <= k < all.len() && #[trigger] same_edge(all[k], edge);
        assert(all.contains(all[k]));
        let j = choose|j: int| 0 <= j < edges.len() && edges[j] == all[k];
        assert(edges[j].caller_git_file_hashes.len() == 1);
        assert(all[k].caller_git_file_hashes =~= edge.caller_git_file_hashes);
        assert(all[k] =~= edge);
    }
}

/// The table gets exactly the edges that functions stand for: one for each name that one of
/// them calls and one for each type that it mentions, with the function as the caller, its
/// file, and the hash of the file as the version. So no caller of a name is left out.
pub proof fn law_functions_are_stored(functions: Seq<FunctionInfo>, size: nat, edge: CallEdgeView)
    requires
        size > 0,
    ensures
        stored(edge_batches(functions_edges(functions), size)).contains(edge) <==> exists|i: int|
            0 <= i < functions.len() && function_refers((#[trigger] functions[i])@, edge),
{
    lemma_functions_edges(functions, edge);
    lemma_one_version(functions_edges(functions), size, edge);
}

proof fn lemma_types_edges(types: Seq<TypeInfo>, edge: CallEdgeView)
    ensures
        types_edges(types).contains(edge) <==> exists|i: int|
            0 <= i < types.len() && type_refers((#[trigger] types[i])@, edge),
        forall|k: int|
            0 <= k < types_edges(types).len() ==> (#[trigger] types_edges(
                types,
            )[k]).caller_git_file_hashes.len() == 1,
    decreases types.len(),
{
    if types.len() > 0 {
        let fewer = types.drop_last();
        let before = types_edges(fewer);
        let last = types.last()@;
        let own = type_edges(last);
        let names = entries(last.types);
        let all = types_edges(types);
        lemma_types_edges(fewer, edge);
        assert(all == before + own);
        if all.contains(edge) {
            let p = choose|p: int| 0 <= p < all.len() && all[p] == edge;
            if p < before.len() {
                assert(before[p] == edge);
                let i = choose|i: int|
                    0 <= i < fewer.len() && type_refers((#[trigger] fewer[i])@, edge);
                assert(types[i] == fewer[i]);
            } else {
                assert(own[p - before.len()] == edge);
                assert(names[p - before.len()] == edge.callee);
                assert(names.contains(edge.callee));
                assert(type_refers(types[types.len() - 1]@, edge));
            }
        }
        if exists|i: int| 0 <= i < types.len() && type_refers((#[trigger] types[i])@, edge) {
            let i = choose|i: int|
                0 <= i < types.len() && type_refers((#[trigger] types[i])@, edge);
            if i < fewer.len() {
                assert(fewer[i] == types[i]);
                let p = choose|p: int| 0 <= p < before.len() && before[p] == edge;
                assert(all[p] == edge);
            } else {
                let p = choose|p: int| 0 <= p < names.len() && names[p] == edge.callee;
                assert(own[p] =~= edge);
                assert(all[before.len() + p] == edge);
            }
        }
    }
}

/// The table gets exactly the edges that types stand for: one for each type that one of them
/// mentions.
pub proof fn law_types_are_stored(types: Seq<TypeInfo>, size: nat, edge: CallEdgeView)
    requires
        size > 0,
    ensures
        stored(edge_batches(types_edges(types), size)).contains(edge) <==> exists|i: int|
            0 <= i < types.len() && type_refers((#[trigger] types[i])@, edge),
{
    lemma_types_edges(types, edge);
    lemma_one_version(types_edges(types), size, edge);
}

/// Whether a list of rows has those of a table of which something holds, and no others.
pub open spec fn has_those(
    answer: Seq<CallEdgeView>,
    table: Seq<CallEdgeView>,
    holds: spec_fn(CallEdgeView) -> bool,
) -> bool {
    forall|edge: CallEdgeView| #[trigger]
        answer.contains(edge) <==> table.contains(edge) && holds(edge)
}

/// The condition that the callee is a name and the edge a call.
pub open spec fn called_condition(callee: Seq<char>) -> Seq<char> {
    "callee = '"@ + escaped(callee) + "' AND kind = 'call'"@
}

/// Who calls a function is found: where the database answers the condition that the callee is
/// a name and the edge a call with the rows of the table that are such, the edges read from
/// its answer name as callers exactly the callers of the calls of that name in the table,
/// with their versions.
pub proof fn law_callers_are_found(
    table: Seq<CallEdgeView>,
    callee: Seq<char>,
    answers: spec_fn(Seq<char>) -> Seq<CallEdgeView>,
    caller: Seq<char>,
    versions: Seq<Seq<char>>,
)
    requires
        has_those(
            answers(called_condition(callee)),
            table,
            |edge: CallEdgeView| edge.callee == callee && edge.kind == "call"@,
        ),
    ensures
        (exists|k: int|
            0 <= k < answers(callers_filter(callee)).len() && ({
                let row = #[trigger] answers(callers_filter(callee))[k];
                let edge = caller_edge(callee, row.caller, Some(row.caller_git_file_hashes));
                edge.callee == callee && edge.kind == "call"@ && edge.caller == caller
                    && edge.caller_git_file_hashes == versions
            })) <==> (exists|i: int|
            0 <= i < table.len() && (#[trigger] table[i]).callee == callee && table[i].kind
                == "call"@ && table[i].caller == caller && table[i].caller_git_file_hashes
                == versions),
{
    let rows = answers(callers_filter(callee));
    reveal_strlit("' AND kind = '");
    reveal_strlit("call");
    reveal_strlit("'");
    reveal_strlit("' AND kind = 'call'");
    assert(callers_filter(callee) =~= called_condition(callee));
    if exists|i: int|
        0 <= i < table.len() && (#[trigger] table[i]).callee == callee && table[i].kind == "call"@
            && table[i].caller == caller && table[i].caller_git_file_hashes == versions {
        let i = choose|i: int|
            0 <= i < table.len() && (#[trigger] table[i]).callee == callee && table[i].kind
                == "call"@ && table[i].caller == caller && table[i].caller_git_file_hashes
                == versions;
        assert(table.contains(table[i]));
        assert(rows.contains(table[i]));
        let k = choose|k: int| 0 <= k < rows.len() && rows[k] == table[i];
        assert(answers(callers_filter(callee))[k] == table[i]);
    }
    if exists|k: int|
        0 <= k < rows.len() && ({
            let row = #[trigger] rows[k];
            let edge = caller_edge(callee, row.caller, Some(row.caller_git_file_hashes));
            edge.callee == callee && edge.kind == "call"@ && edge.caller == caller
                && edge.caller_git_file_hashes == versions
        }) {
        let k = choose|k: int|
            0 <= k < rows.len() && ({
                let row = #[trigger] rows[k];
                let edge = caller_edge(callee, row.caller, Some(row.caller_git_file_hashes));
                edge.callee == callee && edge.kind == "call"@ && edge.caller == caller
                    && edge.caller_git_file_hashes == versions
            });
        assert(rows.contains(rows[k]));
        assert(table.contains(rows[k]));
        let i = choose|i: int| 0 <= i < table.len() && table[i] == rows[k];
        assert(table[i].callee == callee);
    }
}

/// The condition that the callee is one of `names`.
pub open spec fn named_condition(names: Seq<Seq<char>>) -> Seq<char> {
    "callee IN ("@ + joined(
        names.map_values(|name: Seq<char>| "'"@ + escaped(name) + "'"@),
        ", "@,
    ) + ")"@
}

/// Who refers to one of some names is found, however many names there are: where the database
/// answers the condition that the callee is one of a list of names with the rows of the table
/// that are such, the conditions together find exactly the edges of the table whose callee is
/// among the names. The conditions name the names in their order, as many each as fit.
pub proof fn law_referrers_are_found(
    table: Seq<CallEdgeView>,
    callees: Seq<Seq<char>>,
    answers: spec_fn(Seq<char>) -> Seq<CallEdgeView>,
    edge: CallEdgeView,
)
    requires
        forall|names: Seq<Seq<char>>|
            0 < names.len() <= 256 ==> has_those(
                #[trigger] answers(named_condition(names)),
                table,
                |edge: CallEdgeView| names.contains(edge.callee),
            ),
    ensures
        (exists|k: int|
            0 <= k < referrer_filters(callees).len() && answers(
                #[trigger] referrer_filters(callees)[k],
            ).contains(edge)) <==> table.contains(edge) && callees.contains(edge.callee),
        exists|parts: Seq<Seq<Seq<char>>>| #[trigger]
            are_portions(parts, callees, 256) && referrer_filters(callees) == Seq::new(
                parts.len(),
                |k: int| named_condition(parts[k]),
            ),
{
    let size = REFERRERS_CHUNK as nat;
    let parts = pieces(callees, size);
    let filters = referrer_filters(callees);
    law_pieces_cover(callees, size);
    assert forall|k: int| 0 <= k < parts.len() implies #[trigger] filters[k] == named_condition(
        parts[k],
    ) && (answers(filters[k]).contains(edge) <==> table.contains(edge) && parts[k].contains(
        edge.callee,
    )) by {
        assert(parts[k].map_values(|name: Seq<char>| crate::database::edges::quoted(name))
            =~= parts[k].map_values(|name: Seq<char>| "'"@ + escaped(name) + "'"@));
        assert(0 < parts[k].len() <= 256);
        assert(has_those(
            answers(named_condition(parts[k])),
            table,
            |edge: CallEdgeView| parts[k].contains(edge.callee),
        ));
    }
    law_pieces_are_portions(callees, size);
    assert(filters =~= Seq::new(parts.len(), |k: int| named_condition(parts[k])));
    assert(are_portions(parts, callees, 256));
    lemma_concatenated_contains(parts, edge.callee);
    if table.contains(edge) && callees.contains(edge.callee) {
        let k = choose|k: int| 0 <= k < parts.len() && (#[trigger] parts[k]).contains(edge.callee);
        assert(answers(filters[k]).contains(edge));
    }
    if exists|k: int| 0 <= k < filters.len() && answers(#[trigger] filters[k]).contains(edge) {
        let k = choose|k: int| 0 <= k < filters.len() && answers(#[trigger] filters[k]).contains(edge);
        assert(parts[k].contains(edge.callee));
    }
}

} // verus!
