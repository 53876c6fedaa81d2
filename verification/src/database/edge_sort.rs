//! The rewrite of the edge table in the order of the callee, one row for each
//! edge with all its versions.

use vstd::prelude::*;
use vstd::string::*;
use vstd::utf8::*;

use crate::database::edges::{edges_view, CallEdge, CallEdgeView};
use crate::order::{
    arrange, ascending, key_less, keys_of, lemma_ascending_unique, lemma_key_less_total,
    lemma_key_less_transitive, lemma_run_less_total, lemma_run_less_transitive, lemma_text_run_injective, places, run_less,
    runs_of, text_less, text_run, Keyed, Part, PartsKey,
};
use crate::text::{same_text, texts};

verus! {

/// How many bounds the ranges are made from.
pub open spec fn bound_count() -> nat {
    64
}

/// The leading character of the range at `i`, from the second range on: digits,
/// capital letters, the underscore and small letters, in the order of ASCII.
pub open spec fn leading(i: int) -> char {
    if i <= 10 {
        ('0' as u32 + i - 1) as char
    } else if i <= 36 {
        ('A' as u32 + i - 11) as char
    } else if i == 37 {
        '_'
    } else {
        ('a' as u32 + i - 38) as char
    }
}

/// Where the range at `i` starts: the first at the empty text, each other at one
/// leading character.
pub open spec fn bound(i: int) -> Seq<char> {
    if i <= 0 {
        seq![]
    } else {
        seq![leading(i)]
    }
}

/// Where the ranges start.
pub open spec fn bounds() -> Seq<Seq<char>> {
    Seq::new(bound_count(), |i: int| bound(i))
}

/// Whether a callee falls into the range at `i`: from its bound on and below the
/// next one. The last range has no end.
pub open spec fn in_range(callee: Seq<char>, i: int) -> bool {
    &&& !text_less(callee, bound(i))
    &&& i + 1 < bound_count() ==> text_less(callee, bound(i + 1))
}

/// The condition that finds the rows of the range at `i`.
pub open spec fn range_filter(i: int) -> Seq<char> {
    if i + 1 < bound_count() {
        "callee >= '"@ + bound(i) + "' AND callee < '"@ + bound(i + 1) + "'"@
    } else {
        "callee >= '"@ + bound(i) + "'"@
    }
}

fn push_letters(bounds: &mut Vec<String>, from: u8, to: u8)
    requires
        from <= to < 128,
    ensures
        texts(final(bounds)@) == texts(old(bounds)@) + Seq::new(
            (to - from + 1) as nat,
            |k: int| seq![(from + k) as char],
        ),
{
    let ghost before = texts(bounds@);
    let ghost all = Seq::new((to - from + 1) as nat, |k: int| seq![(from + k) as char]);
    let mut c: u8 = from;
    assert(before + all.take(0) =~= before);
    while c <= to
        invariant
            from <= c <= to + 1,
            to < 128,
            all == Seq::new((to - from + 1) as nat, |k: int| seq![(from + k) as char]),
            texts(bounds@) == before + all.take(c - from),
        decreases to + 1 - c,
    {
        let ghost so_far = texts(bounds@);
        let mut text = String::new();
        text.push(c as char);
        assert(text@ =~= all[c - from]);
        bounds.push(text);
        assert(texts(bounds@) =~= so_far.push(all[c - from]));
        assert(before + all.take(c - from + 1) =~= so_far.push(all[c - from]));
        c = c + 1;
    }
    assert(all.take(c - from) =~= all);
}

/// Key-range split points for the sorted rewrite: one range for each leading
/// character that identifiers have, with the ranges at both ends left open so
/// that nothing is dropped.
pub fn partition_bounds() -> (list: Vec<String>)
    ensures
        texts(list@) == bounds(),
{
    let mut list: Vec<String> = Vec::new();
    list.push(String::new());
    push_letters(&mut list, 48, 57);
    push_letters(&mut list, 65, 90);
    push_letters(&mut list, 95, 95);
    push_letters(&mut list, 97, 122);
    assert(texts(list@) =~= bounds());
    list
}

/// One version of an edge.
#[derive(Debug, Clone)]
pub struct EdgeVersion {
    pub callee: String,
    pub caller: String,
    pub caller_file_path: String,
    pub kind: String,
    pub hash: String,
}

#[verifier::ext_equal]
pub struct EdgeVersionView {
    pub callee: Seq<char>,
    pub caller: Seq<char>,
    pub caller_file_path: Seq<char>,
    pub kind: Seq<char>,
    pub hash: Seq<char>,
}

impl View for EdgeVersion {
    type V = EdgeVersionView;

    open spec fn view(&self) -> EdgeVersionView {
        EdgeVersionView {
            callee: self.callee@,
            caller: self.caller@,
            caller_file_path: self.caller_file_path@,
            kind: self.kind@,
            hash: self.hash@,
        }
    }
}

/// The contents of a list of versions.
pub open spec fn versions_view(versions: Seq<EdgeVersion>) -> Seq<EdgeVersionView> {
    versions.map_values(|version: EdgeVersion| version@)
}

/// The versions of one edge.
pub open spec fn versions_of(edge: CallEdgeView) -> Seq<EdgeVersionView> {
    edge.caller_git_file_hashes.map_values(
        |hash: Seq<char>|
            EdgeVersionView {
                callee: edge.callee,
                caller: edge.caller,
                caller_file_path: edge.caller_file_path,
                kind: edge.kind,
                hash,
            },
    )
}

/// The versions of edges, one after the other.
pub open spec fn all_versions(edges: Seq<CallEdgeView>) -> Seq<EdgeVersionView>
    decreases edges.len(),
{
    if edges.len() == 0 {
        seq![]
    } else {
        all_versions(edges.drop_last()) + versions_of(edges.last())
    }
}

/// The edge that has one version only.
pub open spec fn single(version: EdgeVersionView) -> CallEdgeView {
    CallEdgeView {
        callee: version.callee,
        caller: version.caller,
        caller_file_path: version.caller_file_path,
        caller_git_file_hashes: seq![version.hash],
        kind: version.kind,
    }
}

/// The key of an edge whatever its versions are.
pub open spec fn group_key(edge: CallEdgeView) -> Seq<Seq<int>> {
    seq![
        text_run(edge.callee),
        text_run(edge.caller),
        text_run(edge.caller_file_path),
        text_run(edge.kind),
    ]
}

/// The key of a version: that of its edge, then the hash.
pub open spec fn version_key(version: EdgeVersionView) -> Seq<Seq<int>> {
    group_key(single(version)).push(text_run(version.hash))
}

/// The keys of a list of versions.
pub open spec fn version_keys(versions: Seq<EdgeVersionView>) -> Seq<Seq<Seq<int>>> {
    versions.map_values(|version: EdgeVersionView| version_key(version))
}

/// The keys of a list of edges.
pub open spec fn group_keys(edges: Seq<CallEdgeView>) -> Seq<Seq<Seq<int>>> {
    edges.map_values(|edge: CallEdgeView| group_key(edge))
}

/// Whether each text comes before those that follow it.
pub open spec fn ascending_texts(list: Seq<Seq<char>>) -> bool {
    forall|a: int, b: int|
        0 <= a < b < list.len() ==> text_less(#[trigger] list[a], #[trigger] list[b])
}

/// Whether a version belongs to an edge, whatever the versions of the edge are.
pub open spec fn is_of(version: EdgeVersionView, edge: CallEdgeView) -> bool {
    &&& version.callee == edge.callee
    &&& version.caller == edge.caller
    &&& version.caller_file_path == edge.caller_file_path
    &&& version.kind == edge.kind
}

/// Whether one of `edges` holds `version`.
pub open spec fn holds(edges: Seq<CallEdgeView>, version: EdgeVersionView) -> bool {
    exists|a: int|
        0 <= a < edges.len() && is_of(version, #[trigger] edges[a])
            && edges[a].caller_git_file_hashes.contains(version.hash)
}

/// Whether `edges` is `rows` with the versions of each edge in one row: the rows
/// in the order of their keys, the hashes of each in order, nothing twice, and
/// no version lost or added.
pub open spec fn collapses(rows: Seq<EdgeVersionView>, edges: Seq<CallEdgeView>) -> bool {
    &&& ascending(group_keys(edges))
    &&& forall|a: int|
        0 <= a < edges.len() ==> (#[trigger] edges[a]).caller_git_file_hashes.len() > 0
            && ascending_texts(edges[a].caller_git_file_hashes)
    &&& forall|version: EdgeVersionView| #[trigger]
        rows.contains(version) <==> holds(edges, version)
}

/// The rows with the versions of each edge in one row.
pub open spec fn collapsed(rows: Seq<EdgeVersionView>) -> Seq<CallEdgeView> {
    choose|edges: Seq<CallEdgeView>| collapses(rows, edges)
}

/// Edges with a version added that comes after all those they have.
spec fn with_version(
    edges: Seq<CallEdgeView>,
    version: EdgeVersionView,
) -> Seq<CallEdgeView> {
    if edges.len() > 0 && is_of(version, edges.last()) {
        let last = edges.last();
        if last.caller_git_file_hashes.len() > 0 && last.caller_git_file_hashes.last()
            == version.hash {
            edges
        } else {
            edges.drop_last().push(
                CallEdgeView {
                    caller_git_file_hashes: last.caller_git_file_hashes.push(version.hash),
                    ..last
                },
            )
        }
    } else {
        edges.push(single(version))
    }
}

/// Versions in the order of their keys, put together.
spec fn grouped(sorted: Seq<EdgeVersionView>) -> Seq<CallEdgeView>
    decreases sorted.len(),
{
    if sorted.len() == 0 {
        seq![]
    } else {
        with_version(grouped(sorted.drop_last()), sorted.last())
    }
}

/// Whether no version comes before one that stands earlier.
pub open spec fn in_order(sorted: Seq<EdgeVersionView>) -> bool {
    forall|a: int, b: int|
        0 <= a < b < sorted.len() ==> !key_less(
            version_key(#[trigger] sorted[b]),
            version_key(#[trigger] sorted[a]),
        )
}

/// A last part decides only between keys that are the same without it.
proof fn lemma_last_part(x: Seq<Seq<int>>, y: Seq<Seq<int>>, p: Seq<int>, q: Seq<int>)
    requires
        x.len() == y.len(),
    ensures
        key_less(x.push(p), y.push(q)) == (key_less(x, y) || (x == y && run_less(p, q))),
    decreases x.len(),
{
    let a = x.push(p);
    let b = y.push(q);
    if x.len() == 0 {
        assert(x =~= y);
        assert(a[0] == p && b[0] == q);
        lemma_run_less_total(p, q);
        reveal_with_fuel(key_less, 2);
    } else {
        assert(a[0] == x[0] && b[0] == y[0]);
        assert(a.skip(1) =~= x.skip(1).push(p));
        assert(b.skip(1) =~= y.skip(1).push(q));
        if x[0] == y[0] {
            lemma_last_part(x.skip(1), y.skip(1), p, q);
            if x.skip(1) == y.skip(1) {
                assert(x =~= seq![x[0]] + x.skip(1));
                assert(y =~= seq![y[0]] + y.skip(1));
            }
        }
    }
}

/// Edges with the same key differ at most in their versions.
proof fn lemma_group_key(a: CallEdgeView, b: CallEdgeView)
    requires
        group_key(a) == group_key(b),
    ensures
        a.callee == b.callee,
        a.caller == b.caller,
        a.caller_file_path == b.caller_file_path,
        a.kind == b.kind,
{
    let x = group_key(a);
    let y = group_key(b);
    assert(x[0] == y[0] && x[1] == y[1] && x[2] == y[2] && x[3] == y[3]);
    lemma_text_run_injective(a.callee, b.callee);
    lemma_text_run_injective(a.caller, b.caller);
    lemma_text_run_injective(a.caller_file_path, b.caller_file_path);
    lemma_text_run_injective(a.kind, b.kind);
}

proof fn lemma_with_version(
    rows: Seq<EdgeVersionView>,
    edges: Seq<CallEdgeView>,
    version: EdgeVersionView,
)
    requires
        collapses(rows, edges),
        forall|a: int|
            0 <= a < rows.len() ==> !key_less(
                version_key(version),
                version_key(#[trigger] rows[a]),
            ),
    ensures
        collapses(rows.push(version), with_version(edges, version)),
{
    let after = with_version(edges, version);
    let more = rows.push(version);
    if edges.len() > 0 {
        let last = edges.last();
        assert(edges[edges.len() - 1] == last);
        let hashes = last.caller_git_file_hashes;
        let top = EdgeVersionView {
            callee: last.callee,
            caller: last.caller,
            caller_file_path: last.caller_file_path,
            kind: last.kind,
            hash: hashes.last(),
        };
        assert(hashes[hashes.len() - 1] == top.hash);
        assert(holds(edges, top));
        assert(rows.contains(top));
        let p = choose|p: int| 0 <= p < rows.len() && rows[p] == top;
        assert(!key_less(version_key(version), version_key(rows[p])));
        assert(group_key(single(top)) =~= group_key(last));
        lemma_last_part(
            group_key(single(version)),
            group_key(last),
            text_run(version.hash),
            text_run(top.hash),
        );
        lemma_key_less_total(group_key(single(version)), group_key(last));
        lemma_run_less_total(text_run(version.hash), text_run(top.hash));
        if is_of(version, last) {
            assert(group_key(single(version)) =~= group_key(last));
            if version.hash == top.hash {
                assert(version =~= top);
                assert forall|w: EdgeVersionView| #[trigger] more.contains(w) <==> holds(
                    after,
                    w,
                ) by {
                    lemma_push_contains(rows, version, w);
                }
            } else {
                if text_run(version.hash) == text_run(top.hash) {
                    lemma_text_run_injective(version.hash, top.hash);
                }
                assert(text_less(top.hash, version.hash));
                let grown = hashes.push(version.hash);
                let new_last = after.last();
                assert(new_last.caller_git_file_hashes == grown);
                assert forall|a: int, b: int| 0 <= a < b < grown.len() implies text_less(
                    #[trigger] grown[a],
                    #[trigger] grown[b],
                ) by {
                    if b == hashes.len() && a < hashes.len() - 1 {
                        assert(text_less(hashes[a], hashes[hashes.len() - 1]));
                        lemma_run_less_transitive(
                            text_run(hashes[a]),
                            text_run(top.hash),
                            text_run(version.hash),
                        );
                    } else if b < hashes.len() {
                        assert(text_less(hashes[a], hashes[b]));
                    }
                }
                assert(group_key(new_last) =~= group_key(last));
                assert(group_keys(after) =~= group_keys(edges));
                assert forall|a: int| 0 <= a < after.len() implies (
                #[trigger] after[a]).caller_git_file_hashes.len() > 0 && ascending_texts(
                    after[a].caller_git_file_hashes,
                ) by {
                    if a < edges.len() - 1 {
                        assert(after[a] == edges[a]);
                    }
                }
                assert forall|w: EdgeVersionView| #[trigger] more.contains(w) <==> holds(
                    after,
                    w,
                ) by {
                    lemma_push_contains(rows, version, w);
                    if holds(edges, w) {
                        let a = choose|a: int|
                            0 <= a < edges.len() && is_of(w, #[trigger] edges[a])
                                && edges[a].caller_git_file_hashes.contains(w.hash);
                        if a < edges.len() - 1 {
                            assert(after[a] == edges[a]);
                        } else {
                            let q = choose|q: int| 0 <= q < hashes.len() && hashes[q] == w.hash;
                            assert(grown[q] == w.hash);
                            assert(is_of(w, after[a]));
                        }
                    }
                    if w == version {
                        assert(grown[hashes.len() as int] == w.hash);
                        assert(is_of(w, after[after.len() - 1]));
                    }
                    if holds(after, w) {
                        let a = choose|a: int|
                            0 <= a < after.len() && is_of(w, #[trigger] after[a])
                                && after[a].caller_git_file_hashes.contains(w.hash);
                        if a < edges.len() - 1 {
                            assert(after[a] == edges[a]);
                            assert(holds(edges, w));
                        } else {
                            let q = choose|q: int| 0 <= q < grown.len() && grown[q] == w.hash;
                            if q < hashes.len() {
                                assert(hashes[q] == w.hash);
                                assert(is_of(w, edges[edges.len() - 1]));
                                assert(holds(edges, w));
                            } else {
                                assert(w =~= version);
                            }
                        }
                    }
                }
            }
        } else {
            if group_key(single(version)) == group_key(last) {
                lemma_group_key(single(version), last);
            }
            assert(key_less(group_key(last), group_key(single(version))));
            lemma_new_edge(rows, edges, version);
        }
    } else {
        lemma_new_edge(rows, edges, version);
    }
}

proof fn lemma_push_contains(
    rows: Seq<EdgeVersionView>,
    version: EdgeVersionView,
    w: EdgeVersionView,
)
    ensures
        rows.push(version).contains(w) == (rows.contains(w) || w == version),
{
    let more = rows.push(version);
    if rows.contains(w) {
        let p = choose|p: int| 0 <= p < rows.len() && rows[p] == w;
        assert(more[p] == w);
    }
    if w == version {
        assert(more[rows.len() as int] == w);
    }
}

proof fn lemma_new_edge(
    rows: Seq<EdgeVersionView>,
    edges: Seq<CallEdgeView>,
    version: EdgeVersionView,
)
    requires
        collapses(rows, edges),
        edges.len() > 0 ==> key_less(group_key(edges.last()), group_key(single(version))),
    ensures
        collapses(rows.push(version), edges.push(single(version))),
{
    let after = edges.push(single(version));
    let more = rows.push(version);
    let keys = group_keys(edges);
    let new_keys = group_keys(after);
    assert(new_keys =~= keys.push(group_key(single(version))));
    assert forall|a: int, b: int| 0 <= a < b < new_keys.len() implies key_less(
        #[trigger] new_keys[a],
        #[trigger] new_keys[b],
    ) by {
        if b == keys.len() {
            assert(keys[keys.len() - 1] == group_key(edges.last()));
            if a < keys.len() - 1 {
                assert(key_less(keys[a], keys[keys.len() - 1]));
                lemma_key_less_transitive(keys[a], keys[keys.len() - 1], new_keys[b]);
            }
        } else {
            assert(key_less(keys[a], keys[b]));
        }
    }
    assert forall|a: int| 0 <= a < after.len() implies (
    #[trigger] after[a]).caller_git_file_hashes.len() > 0 && ascending_texts(
        after[a].caller_git_file_hashes,
    ) by {
        if a < edges.len() {
            assert(after[a] == edges[a]);
        }
    }
    assert forall|w: EdgeVersionView| #[trigger] more.contains(w) <==> holds(after, w) by {
        lemma_push_contains(rows, version, w);
        if holds(edges, w) {
            let a = choose|a: int|
                0 <= a < edges.len() && is_of(w, #[trigger] edges[a])
                    && edges[a].caller_git_file_hashes.contains(w.hash);
            assert(after[a] == edges[a]);
        }
        if w == version {
            assert(after[edges.len() as int] == single(version));
            assert(single(version).caller_git_file_hashes[0] == w.hash);
        }
        if holds(after, w) {
            let a = choose|a: int|
                0 <= a < after.len() && is_of(w, #[trigger] after[a])
                    && after[a].caller_git_file_hashes.contains(w.hash);
            if a < edges.len() {
                assert(after[a] == edges[a]);
                assert(holds(edges, w));
            } else {
                assert(w =~= version);
            }
        }
    }
}

proof fn lemma_grouped(sorted: Seq<EdgeVersionView>)
    requires
        in_order(sorted),
    ensures
        collapses(sorted, grouped(sorted)),
    decreases sorted.len(),
{
    if sorted.len() > 0 {
        let rest = sorted.drop_last();
        assert forall|a: int, b: int| 0 <= a < b < rest.len() implies !key_less(
            version_key(#[trigger] rest[b]),
            version_key(#[trigger] rest[a]),
        ) by {
            assert(rest[a] == sorted[a] && rest[b] == sorted[b]);
        }
        lemma_grouped(rest);
        assert forall|a: int| 0 <= a < rest.len() implies !key_less(
            version_key(sorted.last()),
            version_key(#[trigger] rest[a]),
        ) by {
            assert(rest[a] == sorted[a]);
            assert(sorted[sorted.len() - 1] == sorted.last());
        }
        lemma_with_version(rest, grouped(rest), sorted.last());
        assert(rest.push(sorted.last()) =~= sorted);
    } else {
        assert forall|w: EdgeVersionView| #[trigger] sorted.contains(w) <==> holds(
            grouped(sorted),
            w,
        ) by {}
    }
}

/// Rows can be collapsed in one way only.
pub proof fn law_collapse_unique(
    rows: Seq<EdgeVersionView>,
    x: Seq<CallEdgeView>,
    y: Seq<CallEdgeView>,
)
    requires
        collapses(rows, x),
        collapses(rows, y),
    ensures
        x == y,
{
    let xs = group_keys(x);
    let ys = group_keys(y);
    assert forall|key: Seq<Seq<int>>| #[trigger] xs.contains(key) <==> ys.contains(key) by {
        if xs.contains(key) {
            lemma_key_in_other(rows, x, y, key);
        }
        if ys.contains(key) {
            lemma_key_in_other(rows, y, x, key);
        }
    }
    lemma_ascending_unique(xs, ys);
    assert(xs.len() == x.len() && ys.len() == y.len());
    assert forall|a: int| 0 <= a < x.len() implies x[a] == y[a] by {
        assert(xs[a] == group_key(x[a]) && ys[a] == group_key(y[a]));
        lemma_group_key(x[a], y[a]);
        let hx = x[a].caller_git_file_hashes;
        let hy = y[a].caller_git_file_hashes;
        let kx = hx.map_values(|h: Seq<char>| crate::order::text_key(h));
        let ky = hy.map_values(|h: Seq<char>| crate::order::text_key(h));
        lemma_text_keys_ascend(hx);
        lemma_text_keys_ascend(hy);
        assert forall|key: Seq<Seq<int>>| #[trigger] kx.contains(key) <==> ky.contains(key) by {
            if kx.contains(key) {
                lemma_hash_in_other(rows, x, y, a, key);
            }
            if ky.contains(key) {
                lemma_hash_in_other(rows, y, x, a, key);
            }
        }
        lemma_ascending_unique(kx, ky);
        assert(kx.len() == hx.len() && ky.len() == hy.len());
        assert forall|q: int| 0 <= q < hx.len() implies hx[q] == hy[q] by {
            assert(kx[q] == ky[q]);
            crate::order::lemma_text_key(hx[q], hy[q]);
        }
        assert(hx =~= hy);
        assert(x[a] =~= y[a]);
    }
    assert(x =~= y);
}

proof fn lemma_text_keys_ascend(list: Seq<Seq<char>>)
    requires
        ascending_texts(list),
    ensures
        ascending(list.map_values(|h: Seq<char>| crate::order::text_key(h))),
{
    let keys = list.map_values(|h: Seq<char>| crate::order::text_key(h));
    assert forall|a: int, b: int| 0 <= a < b < keys.len() implies key_less(
        #[trigger] keys[a],
        #[trigger] keys[b],
    ) by {
        crate::order::lemma_text_key(list[a], list[b]);
        assert(text_less(list[a], list[b]));
    }
}

/// The version of an edge that has a given hash.
spec fn version_of(edge: CallEdgeView, hash: Seq<char>) -> EdgeVersionView {
    EdgeVersionView {
        callee: edge.callee,
        caller: edge.caller,
        caller_file_path: edge.caller_file_path,
        kind: edge.kind,
        hash,
    }
}

proof fn lemma_key_in_other(
    rows: Seq<EdgeVersionView>,
    x: Seq<CallEdgeView>,
    y: Seq<CallEdgeView>,
    key: Seq<Seq<int>>,
)
    requires
        collapses(rows, x),
        collapses(rows, y),
        group_keys(x).contains(key),
    ensures
        group_keys(y).contains(key),
{
    let xs = group_keys(x);
    let a = choose|a: int| 0 <= a < xs.len() && xs[a] == key;
    let version = version_of(x[a], x[a].caller_git_file_hashes[0]);
    assert(x[a].caller_git_file_hashes.contains(version.hash));
    assert(is_of(version, x[a]));
    assert(holds(x, version));
    assert(rows.contains(version));
    assert(holds(y, version));
    let b = choose|b: int|
        0 <= b < y.len() && is_of(version, #[trigger] y[b])
            && y[b].caller_git_file_hashes.contains(version.hash);
    assert(group_key(y[b]) =~= group_key(x[a]));
    assert(group_keys(y)[b] == key);
}

proof fn lemma_hash_in_other(
    rows: Seq<EdgeVersionView>,
    x: Seq<CallEdgeView>,
    y: Seq<CallEdgeView>,
    a: int,
    key: Seq<Seq<int>>,
)
    requires
        collapses(rows, x),
        collapses(rows, y),
        group_keys(x) == group_keys(y),
        0 <= a < x.len(),
        a < y.len(),
        x[a].caller_git_file_hashes.map_values(
            |h: Seq<char>| crate::order::text_key(h),
        ).contains(key),
    ensures
        y[a].caller_git_file_hashes.map_values(
            |h: Seq<char>| crate::order::text_key(h),
        ).contains(key),
{
    let hx = x[a].caller_git_file_hashes;
    let kx = hx.map_values(|h: Seq<char>| crate::order::text_key(h));
    let q = choose|q: int| 0 <= q < kx.len() && kx[q] == key;
    let version = version_of(x[a], hx[q]);
    assert(hx.contains(version.hash));
    assert(is_of(version, x[a]));
    assert(holds(x, version));
    assert(rows.contains(version));
    assert(holds(y, version));
    let b = choose|b: int|
        0 <= b < y.len() && is_of(version, #[trigger] y[b])
            && y[b].caller_git_file_hashes.contains(version.hash);
    let ys = group_keys(y);
    assert(group_keys(x)[a] == group_key(x[a]));
    assert(group_key(y[b]) =~= group_key(x[a]));
    assert(ys[b] == ys[a]);
    lemma_key_less_total(ys[a], ys[b]);
    if a < b {
        assert(key_less(ys[a], ys[b]));
    } else if b < a {
        assert(key_less(ys[b], ys[a]));
    }
    let hy = y[a].caller_git_file_hashes;
    let ky = hy.map_values(|h: Seq<char>| crate::order::text_key(h));
    let r = choose|r: int| 0 <= r < hy.len() && hy[r] == version.hash;
    assert(ky[r] == key);
}

/// Which versions there are decides how they collapse, not how often or where.
pub proof fn lemma_same_versions(
    x: Seq<EdgeVersionView>,
    y: Seq<EdgeVersionView>,
    edges: Seq<CallEdgeView>,
)
    requires
        collapses(x, edges),
        forall|version: EdgeVersionView| #[trigger] x.contains(version) <==> y.contains(version),
    ensures
        collapses(y, edges),
{
    assert forall|version: EdgeVersionView| #[trigger] y.contains(version) <==> holds(
        edges,
        version,
    ) by {
        assert(x.contains(version) <==> y.contains(version));
    }
}

/// Rows in the order of their keys.
pub open spec fn sorted_versions(rows: Seq<EdgeVersionView>) -> Seq<EdgeVersionView> {
    crate::lists::picked(rows, crate::order::stable_order(version_keys(rows)))
}

/// Sorting changes the order of versions alone.
pub proof fn lemma_sorted_versions(rows: Seq<EdgeVersionView>)
    ensures
        in_order(sorted_versions(rows)),
        sorted_versions(rows).len() == rows.len(),
        forall|version: EdgeVersionView| #[trigger]
            sorted_versions(rows).contains(version) <==> rows.contains(version),
{
    let keys = version_keys(rows);
    crate::order::lemma_stable_order_exists(keys);
    let order = crate::order::stable_order(keys);
    let sorted = sorted_versions(rows);
    assert(keys.len() == rows.len());
    assert forall|a: int, b: int| 0 <= a < b < sorted.len() implies !key_less(
        version_key(#[trigger] sorted[b]),
        version_key(#[trigger] sorted[a]),
    ) by {
        assert(sorted[a] == rows[order[a]] && sorted[b] == rows[order[b]]);
        assert(crate::order::precedes(keys, order[a], order[b]));
        assert(keys[order[a]] == version_key(sorted[a]));
        assert(keys[order[b]] == version_key(sorted[b]));
        lemma_key_less_total(keys[order[a]], keys[order[b]]);
    }
    assert forall|version: EdgeVersionView| #[trigger] sorted.contains(
        version,
    ) <==> rows.contains(version) by {
        if rows.contains(version) {
            let i = choose|i: int| 0 <= i < rows.len() && rows[i] == version;
            assert(order.contains(i));
            let a = choose|a: int| 0 <= a < order.len() && order[a] == i;
            assert(sorted[a] == version);
        }
        if sorted.contains(version) {
            let a = choose|a: int| 0 <= a < sorted.len() && sorted[a] == version;
            assert(rows[order[a]] == version);
        }
    }
}

/// All rows can be collapsed.
pub proof fn law_collapse_exists(rows: Seq<EdgeVersionView>)
    ensures
        collapses(rows, collapsed(rows)),
{
    let sorted = sorted_versions(rows);
    lemma_sorted_versions(rows);
    lemma_grouped(sorted);
    lemma_same_versions(sorted, rows, grouped(sorted));
}

/// Rows that were collapsed stay as they are.
pub proof fn law_collapse_again(rows: Seq<EdgeVersionView>)
    ensures
        collapsed(all_versions(collapsed(rows))) == collapsed(rows),
{
    let edges = collapsed(rows);
    law_collapse_exists(rows);
    assert forall|version: EdgeVersionView| #[trigger] rows.contains(version) <==> all_versions(
        edges,
    ).contains(version) by {
        lemma_all_versions(edges, version);
    }
    lemma_same_versions(rows, all_versions(edges), edges);
    law_collapse_exists(all_versions(edges));
    law_collapse_unique(all_versions(edges), edges, collapsed(all_versions(edges)));
}

/// What the versions of edges are.
pub proof fn lemma_all_versions(edges: Seq<CallEdgeView>, version: EdgeVersionView)
    ensures
        all_versions(edges).contains(version) == holds(edges, version),
    decreases edges.len(),
{
    if edges.len() > 0 {
        let rest = edges.drop_last();
        let last = edges.last();
        lemma_all_versions(rest, version);
        let all = all_versions(edges);
        let first = all_versions(rest);
        let own = versions_of(last);
        if holds(edges, version) {
            let a = choose|a: int|
                0 <= a < edges.len() && is_of(version, #[trigger] edges[a])
                    && edges[a].caller_git_file_hashes.contains(version.hash);
            if a < rest.len() {
                assert(rest[a] == edges[a]);
                assert(holds(rest, version));
                let p = choose|p: int| 0 <= p < first.len() && first[p] == version;
                assert(all[p] == version);
            } else {
                let q = choose|q: int|
                    0 <= q < last.caller_git_file_hashes.len() && last.caller_git_file_hashes[q]
                        == version.hash;
                assert(own[q] =~= version);
                assert(all[first.len() + q] == version);
            }
        }
        if all.contains(version) {
            let p = choose|p: int| 0 <= p < all.len() && all[p] == version;
            if p < first.len() {
                assert(first[p] == version);
                assert(first.contains(version));
                let a = choose|a: int|
                    0 <= a < rest.len() && is_of(version, #[trigger] rest[a])
                        && rest[a].caller_git_file_hashes.contains(version.hash);
                assert(edges[a] == rest[a]);
            } else {
                assert(own[p - first.len()] == version);
                assert(last.caller_git_file_hashes[p - first.len()] == version.hash);
                assert(is_of(version, edges[edges.len() - 1]));
            }
        }
    }
}

/// Rows of which all callees of the first part come before those of the second
/// can be collapsed part by part.
pub proof fn law_collapse_parts(x: Seq<EdgeVersionView>, y: Seq<EdgeVersionView>)
    requires
        forall|a: int, b: int|
            0 <= a < x.len() && 0 <= b < y.len() ==> text_less(
                (#[trigger] x[a]).callee,
                (#[trigger] y[b]).callee,
            ),
    ensures
        collapsed(x + y) == collapsed(x) + collapsed(y),
{
    let cx = collapsed(x);
    let cy = collapsed(y);
    law_collapse_exists(x);
    law_collapse_exists(y);
    let both = cx + cy;
    let keys = group_keys(both);
    assert forall|a: int, b: int| 0 <= a < b < keys.len() implies key_less(
        #[trigger] keys[a],
        #[trigger] keys[b],
    ) by {
        if b < cx.len() {
            assert(key_less(group_keys(cx)[a], group_keys(cx)[b]));
        } else if a >= cx.len() {
            assert(key_less(
                group_keys(cy)[a - cx.len()],
                group_keys(cy)[b - cx.len()],
            ));
        } else {
            let ea = cx[a];
            let eb = cy[b - cx.len()];
            let va = version_of(ea, ea.caller_git_file_hashes[0]);
            let vb = version_of(eb, eb.caller_git_file_hashes[0]);
            assert(ea.caller_git_file_hashes.contains(va.hash));
            assert(eb.caller_git_file_hashes.contains(vb.hash));
            assert(is_of(va, cx[a]) && is_of(vb, cy[b - cx.len()]));
            assert(holds(cx, va) && holds(cy, vb));
            assert(x.contains(va) && y.contains(vb));
            let p = choose|p: int| 0 <= p < x.len() && x[p] == va;
            let q = choose|q: int| 0 <= q < y.len() && y[q] == vb;
            assert(text_less(x[p].callee, y[q].callee));
            lemma_run_less_total(text_run(ea.callee), text_run(eb.callee));
            assert(group_key(ea)[0] == text_run(ea.callee));
            assert(group_key(eb)[0] == text_run(eb.callee));
        }
    }
    assert forall|a: int| 0 <= a < both.len() implies (
    #[trigger] both[a]).caller_git_file_hashes.len() > 0 && ascending_texts(
        both[a].caller_git_file_hashes,
    ) by {
        if a < cx.len() {
            assert(both[a] == cx[a]);
        } else {
            assert(both[a] == cy[a - cx.len()]);
        }
    }
    assert forall|w: EdgeVersionView| #[trigger] (x + y).contains(w) <==> holds(both, w) by {
        if (x + y).contains(w) {
            let p = choose|p: int| 0 <= p < (x + y).len() && (x + y)[p] == w;
            if p < x.len() {
                assert(x[p] == w);
                assert(x.contains(w));
                let a = choose|a: int|
                    0 <= a < cx.len() && is_of(w, #[trigger] cx[a])
                        && cx[a].caller_git_file_hashes.contains(w.hash);
                assert(both[a] == cx[a]);
            } else {
                assert(y[p - x.len()] == w);
                assert(y.contains(w));
                let a = choose|a: int|
                    0 <= a < cy.len() && is_of(w, #[trigger] cy[a])
                        && cy[a].caller_git_file_hashes.contains(w.hash);
                assert(both[a + cx.len()] == cy[a]);
            }
        }
        if holds(both, w) {
            let a = choose|a: int|
                0 <= a < both.len() && is_of(w, #[trigger] both[a])
                    && both[a].caller_git_file_hashes.contains(w.hash);
            if a < cx.len() {
                assert(both[a] == cx[a]);
                assert(holds(cx, w));
                assert(x.contains(w));
                let p = choose|p: int| 0 <= p < x.len() && x[p] == w;
                assert((x + y)[p] == w);
            } else {
                assert(both[a] == cy[a - cx.len()]);
                assert(holds(cy, w));
                assert(y.contains(w));
                let p = choose|p: int| 0 <= p < y.len() && y[p] == w;
                assert((x + y)[p + x.len()] == w);
            }
        }
    }
    assert(collapses(x + y, both));
    law_collapse_exists(x + y);
    law_collapse_unique(x + y, both, collapsed(x + y));
}

/// The versions of edges, one after the other.
pub fn list_versions(edges: &Vec<CallEdge>) -> (versions: Vec<EdgeVersion>)
    ensures
        versions_view(versions@) == all_versions(edges_view(edges@)),
{
    let mut versions: Vec<EdgeVersion> = Vec::new();
    let ghost all = edges_view(edges@);
    let mut i: usize = 0;
    assert(all.take(0) =~= seq![]);
    assert(versions_view(versions@) =~= all_versions(all.take(0)));
    while i < edges.len()
        invariant
            i <= edges@.len(),
            all == edges_view(edges@),
            versions_view(versions@) == all_versions(all.take(i as int)),
        decreases edges@.len() - i,
    {
        let edge = &edges[i];
        let ghost before = versions_view(versions@);
        let ghost own = versions_of(all[i as int]);
        let mut h: usize = 0;
        assert(before + own.take(0) =~= before);
        while h < edge.caller_git_file_hashes.len()
            invariant
                h <= edge.caller_git_file_hashes@.len(),
                own == versions_of(edge@),
                versions_view(versions@) == before + own.take(h as int),
            decreases edge.caller_git_file_hashes@.len() - h,
        {
            let ghost so_far = versions_view(versions@);
            let version = EdgeVersion {
                callee: edge.callee.clone(),
                caller: edge.caller.clone(),
                caller_file_path: edge.caller_file_path.clone(),
                kind: edge.kind.clone(),
                hash: edge.caller_git_file_hashes[h].clone(),
            };
            assert(version@ =~= own[h as int]);
            versions.push(version);
            assert(versions_view(versions@) =~= so_far.push(own[h as int]));
            assert(before + own.take(h + 1) =~= so_far.push(own[h as int]));
            h = h + 1;
        }
        proof {
            assert(own.take(h as int) =~= own);
            assert(all.take(i + 1).drop_last() =~= all.take(i as int));
        }
        i = i + 1;
    }
    assert(all.take(i as int) =~= all);
    versions
}

/// The places of versions in the order of their keys.
fn version_order(rows: &Vec<EdgeVersion>) -> (order: Vec<usize>)
    ensures
        places(order@) == crate::order::stable_order(version_keys(versions_view(rows@))),
        order@.len() == rows@.len(),
        forall|a: int| 0 <= a < order@.len() ==> #[trigger] order@[a] < rows@.len(),
{
    let ghost all = versions_view(rows@);
    let mut keys: Vec<PartsKey> = Vec::new();
    let mut i: usize = 0;
    while i < rows.len()
        invariant
            i <= rows@.len(),
            all == versions_view(rows@),
            keys@.len() == i,
            forall|k: int| 0 <= k < i ==> (#[trigger] keys@[k]).key() == version_key(all[k]),
        decreases rows@.len() - i,
    {
        let row = &rows[i];
        let mut parts: Vec<Part> = Vec::new();
        parts.push(Part::Text(row.callee.as_str()));
        parts.push(Part::Text(row.caller.as_str()));
        parts.push(Part::Text(row.caller_file_path.as_str()));
        parts.push(Part::Text(row.kind.as_str()));
        parts.push(Part::Text(row.hash.as_str()));
        assert(runs_of(parts@) =~= version_key(all[i as int]));
        keys.push(PartsKey { parts });
        i = i + 1;
    }
    let order = arrange(&keys);
    proof {
        assert(keys_of(keys@) =~= version_keys(all));
        assert forall|a: int| 0 <= a < order@.len() implies #[trigger] order@[a] < rows@.len() by {
            assert(places(order@)[a] == order@[a] as int);
        }
        assert(places(order@).len() == order@.len());
    }
    order
}

/// The rows that the staging table gets for the versions of one range: one for
/// each version, in the order of their keys.
pub open spec fn staged_rows(rows: Seq<EdgeVersionView>) -> Seq<CallEdgeView> {
    sorted_versions(rows).map_values(|version: EdgeVersionView| single(version))
}

/// The rows that the staging table gets for the versions of one range.
pub fn append_sorted(rows: &Vec<EdgeVersion>) -> (edges: Vec<CallEdge>)
    ensures
        edges_view(edges@) == staged_rows(versions_view(rows@)),
{
    let order = version_order(rows);
    let ghost all = versions_view(rows@);
    let ghost expected = staged_rows(all);
    let mut edges: Vec<CallEdge> = Vec::new();
    let mut a: usize = 0;
    while a < order.len()
        invariant
            a <= order@.len(),
            all == versions_view(rows@),
            expected == staged_rows(all),
            places(order@) == crate::order::stable_order(version_keys(all)),
            forall|k: int| 0 <= k < order@.len() ==> #[trigger] order@[k] < rows@.len(),
            edges_view(edges@) == expected.take(a as int),
        decreases order@.len() - a,
    {
        let ghost before = edges_view(edges@);
        let row = &rows[order[a]];
        let mut hashes: Vec<String> = Vec::new();
        hashes.push(row.hash.clone());
        let edge = CallEdge {
            callee: row.callee.clone(),
            caller: row.caller.clone(),
            caller_file_path: row.caller_file_path.clone(),
            caller_git_file_hashes: hashes,
            kind: row.kind.clone(),
        };
        proof {
            assert(places(order@)[a as int] == order@[a as int] as int);
            assert(texts(hashes@) =~= seq![row.hash@]);
            assert(expected[a as int] == single(row@));
            assert(edge@ == expected[a as int]);
        }
        edges.push(edge);
        assert(edges_view(edges@) =~= before.push(expected[a as int]));
        assert(expected.take(a + 1) =~= before.push(expected[a as int]));
        a = a + 1;
    }
    proof {
        assert(places(order@).len() == order@.len());
        assert(expected.take(a as int) =~= expected);
    }
    edges
}

/// Whether a version belongs to an edge.
fn belongs(row: &EdgeVersion, edge: &CallEdge) -> (yes: bool)
    ensures
        yes == is_of(row@, edge@),
{
    same_text(row.callee.as_str(), edge.callee.as_str()) && same_text(
        row.caller.as_str(),
        edge.caller.as_str(),
    ) && same_text(row.caller_file_path.as_str(), edge.caller_file_path.as_str()) && same_text(
        row.kind.as_str(),
        edge.kind.as_str(),
    )
}

/// Adds a version that comes after all those that `edges` have.
fn add_version(edges: &mut Vec<CallEdge>, row: &EdgeVersion)
    ensures
        edges_view(final(edges)@) == with_version(edges_view(old(edges)@), row@),
{
    let ghost before = edges_view(edges@);
    let count = edges.len();
    if count > 0 && belongs(row, &edges[count - 1]) {
        let mut last = match edges.pop() {
            Some(edge) => edge,
            None => {
                assert(false);
                return ;
            },
        };
        let ghost was = last@;
        assert(was == before.last());
        let hashes = last.caller_git_file_hashes.len();
        if !(hashes > 0 && same_text(
            last.caller_git_file_hashes[hashes - 1].as_str(),
            row.hash.as_str(),
        )) {
            last.caller_git_file_hashes.push(row.hash.clone());
            assert(last@.caller_git_file_hashes =~= was.caller_git_file_hashes.push(row.hash@));
        } else {
            assert(was.caller_git_file_hashes.last() == row.hash@);
        }
        edges.push(last);
        assert(edges_view(edges@) =~= with_version(before, row@));
    } else {
        let mut hashes: Vec<String> = Vec::new();
        hashes.push(row.hash.clone());
        let edge = CallEdge {
            callee: row.callee.clone(),
            caller: row.caller.clone(),
            caller_file_path: row.caller_file_path.clone(),
            caller_git_file_hashes: hashes,
            kind: row.kind.clone(),
        };
        assert(texts(hashes@) =~= seq![row.hash@]);
        edges.push(edge);
        assert(edges_view(edges@) =~= with_version(before, row@));
    }
}

/// Puts the versions of each edge in one row.
pub fn collapse(rows: &Vec<EdgeVersion>) -> (edges: Vec<CallEdge>)
    ensures
        edges_view(edges@) == collapsed(versions_view(rows@)),
{
    let order = version_order(rows);
    let ghost all = versions_view(rows@);
    let ghost sorted = sorted_versions(all);
    let mut edges: Vec<CallEdge> = Vec::new();
    let mut a: usize = 0;
    assert(sorted.take(0) =~= seq![]);
    assert(edges_view(edges@) =~= grouped(sorted.take(0)));
    while a < order.len()
        invariant
            a <= order@.len(),
            all == versions_view(rows@),
            sorted == sorted_versions(all),
            places(order@) == crate::order::stable_order(version_keys(all)),
            forall|k: int| 0 <= k < order@.len() ==> #[trigger] order@[k] < rows@.len(),
            edges_view(edges@) == grouped(sorted.take(a as int)),
        decreases order@.len() - a,
    {
        add_version(&mut edges, &rows[order[a]]);
        proof {
            assert(places(order@)[a as int] == order@[a as int] as int);
            assert(sorted[a as int] == rows@[order@[a as int] as int]@);
            assert(sorted.take(a + 1).drop_last() =~= sorted.take(a as int));
        }
        a = a + 1;
    }
    proof {
        assert(places(order@).len() == order@.len());
        assert(sorted.take(a as int) =~= sorted);
        lemma_sorted_versions(all);
        lemma_grouped(sorted);
        lemma_same_versions(sorted, all, grouped(sorted));
        law_collapse_exists(all);
        law_collapse_unique(all, grouped(sorted), collapsed(all));
    }
    edges
}

} // verus!
