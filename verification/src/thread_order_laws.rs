//! What the order in which threads are read does not depend on: how the list of emails
//! was ordered before.

use vstd::prelude::*;

use crate::dates::{date_key, lemma_date_key};
use crate::order::{ascending, key_less, lemma_ascending_unique, lemma_key_less_total};
use crate::thread_laws::{
    answers, follows_answered, ids_differ, law_distinct_ids_end, law_emails_are_read_once,
    law_replies_by_date, law_replies_follow, law_rooted_emails_are_read, law_roots_by_date,
    leads_to_root, lemma_beside_finite, lemma_closed_all, lemma_level_of_reply, lemma_replies,
    lemma_roots,
};
use crate::threads::{
    dates_beside, is_root, lemma_deeper_all, level_of, replies, roots, subthread, subthreads,
    thread_order, thread_places, threads_end,
};
use crate::types::LoreEmailInfoView;

verus! {

/// Whether two emails are read beside each other: both start a thread, or both answer
/// one message.
pub open spec fn siblings(emails: Seq<LoreEmailInfoView>, i: int, j: int) -> bool {
    ||| is_root(emails, i) && is_root(emails, j)
    ||| emails[i].in_reply_to is Some && emails[i].in_reply_to == emails[j].in_reply_to
}

/// Whether no two emails that are read beside each other have the same date.
pub open spec fn sibling_dates_differ(emails: Seq<LoreEmailInfoView>) -> bool {
    forall|i: int, j: int|
        0 <= i < emails.len() && 0 <= j < emails.len() && i != j && #[trigger] siblings(
            emails,
            i,
            j,
        ) ==> emails[i].date != emails[j].date
}

/// The emails at some places.
pub open spec fn at(emails: Seq<LoreEmailInfoView>, places: Seq<int>) -> Seq<LoreEmailInfoView> {
    places.map_values(|i: int| emails[i])
}

spec fn dates_of(list: Seq<LoreEmailInfoView>, beside: Set<Seq<char>>) -> Seq<Seq<Seq<int>>> {
    list.map_values(|e: LoreEmailInfoView| date_key(e.date, beside))
}

/// Two lists of the same emails, both from the first date to the last and no date twice,
/// are the same.
proof fn lemma_dated_lists(
    x: Seq<LoreEmailInfoView>,
    y: Seq<LoreEmailInfoView>,
    beside: Set<Seq<char>>,
)
    requires
        ascending(dates_of(x, beside)),
        ascending(dates_of(y, beside)),
        forall|e: LoreEmailInfoView| #[trigger] x.contains(e) <==> y.contains(e),
    ensures
        x == y,
{
    let kx = dates_of(x, beside);
    let ky = dates_of(y, beside);
    assert forall|key: Seq<Seq<int>>| #[trigger] kx.contains(key) <==> ky.contains(key) by {
        if kx.contains(key) {
            let p = choose|p: int| 0 <= p < kx.len() && kx[p] == key;
            assert(x.contains(x[p]));
            let q = choose|q: int| 0 <= q < y.len() && y[q] == x[p];
            assert(ky[q] == key);
        }
        if ky.contains(key) {
            let p = choose|p: int| 0 <= p < ky.len() && ky[p] == key;
            assert(y.contains(y[p]));
            assert(x.contains(y[p]));
            let q = choose|q: int| 0 <= q < x.len() && x[q] == y[p];
            assert(kx[q] == key);
        }
    }
    lemma_ascending_unique(kx, ky);
    assert forall|k: int| 0 <= k < x.len() implies x[k] == y[k] by {
        assert(x.contains(x[k]));
        let q = choose|q: int| 0 <= q < y.len() && y[q] == x[k];
        assert(ky[q] == kx[k]);
        lemma_key_less_total(ky[q], ky[k]);
        if q < k {
            assert(key_less(ky[q], ky[k]));
        } else if k < q {
            assert(key_less(ky[k], ky[q]));
        }
    }
    assert(x.len() == kx.len() && y.len() == ky.len());
    assert(x =~= y);
}

proof fn lemma_replies_ascend(emails: Seq<LoreEmailInfoView>, p: int)
    requires
        sibling_dates_differ(emails),
        0 <= p < emails.len(),
    ensures
        ascending(
            dates_of(
                at(emails, replies(emails, emails[p].message_id)),
                dates_beside(emails, Some(emails[p].message_id)),
            ),
        ),
{
    let id = emails[p].message_id;
    let list = replies(emails, id);
    let beside = dates_beside(emails, Some(id));
    let keys = dates_of(at(emails, list), beside);
    lemma_replies(emails, id);
    lemma_beside_finite(emails, Some(id));
    assert forall|a: int, b: int| 0 <= a < b < keys.len() implies key_less(
        #[trigger] keys[a],
        #[trigger] keys[b],
    ) by {
        law_replies_by_date(emails, p, a, b);
        assert(list.contains(list[a]));
        assert(list.contains(list[b]));
        assert(list[a] != list[b]);
        assert(siblings(emails, list[a], list[b]));
        lemma_date_key(emails[list[a]].date, emails[list[b]].date, beside);
    }
}

proof fn lemma_roots_ascend(emails: Seq<LoreEmailInfoView>)
    requires
        sibling_dates_differ(emails),
    ensures
        ascending(dates_of(at(emails, roots(emails)), dates_beside(emails, None))),
{
    let list = roots(emails);
    let beside = dates_beside(emails, None);
    let keys = dates_of(at(emails, list), beside);
    lemma_roots(emails);
    lemma_beside_finite(emails, None);
    assert forall|a: int, b: int| 0 <= a < b < keys.len() implies key_less(
        #[trigger] keys[a],
        #[trigger] keys[b],
    ) by {
        law_roots_by_date(emails, a, b);
        assert(list.contains(list[a]));
        assert(list.contains(list[b]));
        assert(list[a] != list[b]);
        assert(siblings(emails, list[a], list[b]));
        lemma_date_key(emails[list[a]].date, emails[list[b]].date, beside);
    }
}

/// Whether an email of a list has this date.
spec fn has_date(list: Seq<LoreEmailInfoView>, date: Seq<char>) -> bool {
    exists|k: int| 0 <= k < list.len() && (#[trigger] list[k]).date == date
}

/// The dates of a level are those of the emails at its places.
proof fn lemma_level_dates(
    emails: Seq<LoreEmailInfoView>,
    level: Option<Seq<char>>,
    places: Seq<int>,
)
    requires
        forall|i: int| #[trigger]
            places.contains(i) <==> 0 <= i < emails.len() && level_of(emails, i) == level,
    ensures
        forall|d: Seq<char>| #[trigger]
            dates_beside(emails, level).contains(d) <==> has_date(at(emails, places), d),
{
    let list = at(emails, places);
    assert forall|d: Seq<char>| #[trigger] dates_beside(emails, level).contains(
        d,
    ) <==> has_date(list, d) by {
        if dates_beside(emails, level).contains(d) {
            let j = choose|j: int|
                0 <= j < emails.len() && (#[trigger] emails[j]).date == d && level_of(emails, j)
                    == level;
            assert(places.contains(j));
            let k = choose|k: int| 0 <= k < places.len() && places[k] == j;
            assert(list[k].date == d);
        }
        if has_date(list, d) {
            let k = choose|k: int| 0 <= k < list.len() && (#[trigger] list[k]).date == d;
            assert(places.contains(places[k]));
            assert(emails[places[k]].date == d);
        }
    }
}

/// Lists of the same emails have the same dates.
proof fn lemma_same_dates(x: Seq<LoreEmailInfoView>, y: Seq<LoreEmailInfoView>, d: Seq<char>)
    requires
        forall|e: LoreEmailInfoView| #[trigger] x.contains(e) <==> y.contains(e),
    ensures
        has_date(x, d) <==> has_date(y, d),
{
    if has_date(x, d) {
        let k = choose|k: int| 0 <= k < x.len() && (#[trigger] x[k]).date == d;
        assert(x.contains(x[k]));
        assert(y.contains(x[k]));
        let q = choose|q: int| 0 <= q < y.len() && y[q] == x[k];
        assert(y[q].date == d);
    }
    if has_date(y, d) {
        let k = choose|k: int| 0 <= k < y.len() && (#[trigger] y[k]).date == d;
        assert(y.contains(y[k]));
        assert(x.contains(y[k]));
        let q = choose|q: int| 0 <= q < x.len() && x[q] == y[k];
        assert(x[q].date == d);
    }
}

/// Where two lists have the same replies to a message, the dates beside these are the same.
proof fn lemma_same_beside(
    x: Seq<LoreEmailInfoView>,
    y: Seq<LoreEmailInfoView>,
    i: int,
    j: int,
)
    requires
        0 <= i < x.len(),
        0 <= j < y.len(),
        x[i].message_id == y[j].message_id,
        forall|e: LoreEmailInfoView| #[trigger]
            at(x, replies(x, y[j].message_id)).contains(e) <==> at(
                y,
                replies(y, y[j].message_id),
            ).contains(e),
    ensures
        dates_beside(x, Some(y[j].message_id)) == dates_beside(y, Some(y[j].message_id)),
{
    let id = y[j].message_id;
    lemma_replies(x, id);
    lemma_replies(y, id);
    assert forall|k: int| #[trigger] replies(x, id).contains(k) <==> 0 <= k < x.len() && level_of(
        x,
        k,
    ) == Some(id) by {
        lemma_level_of_reply(x, i, k);
    }
    assert forall|k: int| #[trigger] replies(y, id).contains(k) <==> 0 <= k < y.len() && level_of(
        y,
        k,
    ) == Some(id) by {
        lemma_level_of_reply(y, j, k);
    }
    lemma_level_dates(x, Some(id), replies(x, id));
    lemma_level_dates(y, Some(id), replies(y, id));
    assert forall|d: Seq<char>| #[trigger] dates_beside(x, Some(id)).contains(d) <==> dates_beside(
        y,
        Some(id),
    ).contains(d) by {
        lemma_same_dates(at(x, replies(x, id)), at(y, replies(y, id)), d);
    }
    assert(dates_beside(x, Some(id)) =~= dates_beside(y, Some(id)));
}

/// Where two lists have the same starts of threads, the dates beside these are the same.
proof fn lemma_same_root_dates(x: Seq<LoreEmailInfoView>, y: Seq<LoreEmailInfoView>)
    requires
        forall|e: LoreEmailInfoView| #[trigger]
            at(x, roots(x)).contains(e) <==> at(y, roots(y)).contains(e),
    ensures
        dates_beside(x, None) == dates_beside(y, None),
{
    lemma_roots(x);
    lemma_roots(y);
    lemma_level_dates(x, None, roots(x));
    lemma_level_dates(y, None, roots(y));
    assert forall|d: Seq<char>| #[trigger] dates_beside(x, None).contains(d) <==> dates_beside(
        y,
        None,
    ).contains(d) by {
        lemma_same_dates(at(x, roots(x)), at(y, roots(y)), d);
    }
    assert(dates_beside(x, None) =~= dates_beside(y, None));
}

/// Whether two lists have the same starts of threads, and whether to each message of the
/// second they have the same replies.
spec fn same_threads(x: Seq<LoreEmailInfoView>, y: Seq<LoreEmailInfoView>) -> bool {
    &&& forall|e: LoreEmailInfoView| #[trigger]
        at(x, roots(x)).contains(e) <==> at(y, roots(y)).contains(e)
    &&& forall|j: int, e: LoreEmailInfoView|
        0 <= j < y.len() ==> (#[trigger] at(x, replies(x, y[j].message_id)).contains(e) <==> at(
            y,
            replies(y, y[j].message_id),
        ).contains(e))
}

proof fn lemma_same_subthread(
    x: Seq<LoreEmailInfoView>,
    y: Seq<LoreEmailInfoView>,
    i: int,
    j: int,
    depth: nat,
)
    requires
        sibling_dates_differ(x),
        sibling_dates_differ(y),
        same_threads(x, y),
        0 <= i < x.len(),
        0 <= j < y.len(),
        x[i] == y[j],
    ensures
        at(x, subthread(x, i, depth)) == at(y, subthread(y, j, depth)),
    decreases depth, 0nat,
{
    if depth > 0 {
        let id = y[j].message_id;
        lemma_replies_ascend(x, i);
        lemma_replies_ascend(y, j);
        assert forall|e: LoreEmailInfoView| #[trigger]
            at(x, replies(x, id)).contains(e) <==> at(y, replies(y, id)).contains(e) by {}
        lemma_same_beside(x, y, i, j);
        lemma_dated_lists(
            at(x, replies(x, id)),
            at(y, replies(y, id)),
            dates_beside(y, Some(id)),
        );
        lemma_replies(x, id);
        lemma_replies(y, id);
        assert forall|k: int| 0 <= k < replies(x, id).len() implies 0 <= #[trigger] replies(x, id)[k]
            < x.len() by {
            assert(replies(x, id).contains(replies(x, id)[k]));
        }
        assert forall|k: int| 0 <= k < replies(y, id).len() implies 0 <= #[trigger] replies(y, id)[k]
            < y.len() by {
            assert(replies(y, id).contains(replies(y, id)[k]));
        }
        lemma_same_subthreads(x, y, replies(x, id), replies(y, id), (depth - 1) as nat);
        let bx = subthreads(x, replies(x, id), (depth - 1) as nat);
        let by = subthreads(y, replies(y, id), (depth - 1) as nat);
        assert(at(x, seq![i] + bx) =~= seq![x[i]] + at(x, bx));
        assert(at(y, seq![j] + by) =~= seq![y[j]] + at(y, by));
    } else {
        assert(at(x, subthread(x, i, depth)) =~= at(y, subthread(y, j, depth)));
    }
}

proof fn lemma_same_subthreads(
    x: Seq<LoreEmailInfoView>,
    y: Seq<LoreEmailInfoView>,
    hx: Seq<int>,
    hy: Seq<int>,
    depth: nat,
)
    requires
        sibling_dates_differ(x),
        sibling_dates_differ(y),
        same_threads(x, y),
        forall|k: int| 0 <= k < hx.len() ==> 0 <= #[trigger] hx[k] < x.len(),
        forall|k: int| 0 <= k < hy.len() ==> 0 <= #[trigger] hy[k] < y.len(),
        at(x, hx) == at(y, hy),
    ensures
        at(x, subthreads(x, hx, depth)) == at(y, subthreads(y, hy, depth)),
    decreases depth, hx.len() + 1,
{
    assert(hx.len() == at(x, hx).len() && hy.len() == at(y, hy).len());
    if hx.len() > 0 {
        assert(at(x, hx)[0] == x[hx[0]] && at(y, hy)[0] == y[hy[0]]);
        lemma_same_subthread(x, y, hx[0], hy[0], depth);
        assert(at(x, hx.drop_first()) =~= at(x, hx).drop_first());
        assert(at(y, hy.drop_first()) =~= at(y, hy).drop_first());
        lemma_same_subthreads(x, y, hx.drop_first(), hy.drop_first(), depth);
        let ax = subthread(x, hx[0], depth);
        let bx = subthreads(x, hx.drop_first(), depth);
        let ay = subthread(y, hy[0], depth);
        let by = subthreads(y, hy.drop_first(), depth);
        assert(at(x, ax + bx) =~= at(x, ax) + at(x, bx));
        assert(at(y, ay + by) =~= at(y, ay) + at(y, by));
    } else {
        assert(at(x, subthreads(x, hx, depth)) =~= at(y, subthreads(y, hy, depth)));
    }
}

/// Lists with the same threads are read alike.
proof fn lemma_read_alike(x: Seq<LoreEmailInfoView>, y: Seq<LoreEmailInfoView>)
    requires
        sibling_dates_differ(x),
        sibling_dates_differ(y),
        same_threads(x, y),
        threads_end(y),
        y.len() <= x.len(),
    ensures
        thread_order(x) == thread_order(y),
{
    lemma_roots_ascend(x);
    lemma_roots_ascend(y);
    lemma_same_root_dates(x, y);
    lemma_dated_lists(at(x, roots(x)), at(y, roots(y)), dates_beside(y, None));
    lemma_roots(x);
    lemma_roots(y);
    assert forall|k: int| 0 <= k < roots(x).len() implies 0 <= #[trigger] roots(x)[k] < x.len() by {
        assert(roots(x).contains(roots(x)[k]));
    }
    assert forall|k: int| 0 <= k < roots(y).len() implies 0 <= #[trigger] roots(y)[k] < y.len() by {
        assert(roots(y).contains(roots(y)[k]));
    }
    lemma_same_subthreads(x, y, roots(x), roots(y), x.len());
    lemma_deeper_all(y, roots(y), y.len(), x.len());
    assert(thread_order(x) =~= at(x, thread_places(x)));
    assert(thread_order(y) =~= at(y, thread_places(y)));
}

/// Which emails stand at the starts of threads and among the replies.
proof fn lemma_members(emails: Seq<LoreEmailInfoView>, id: Seq<char>, e: LoreEmailInfoView)
    ensures
        at(emails, roots(emails)).contains(e) <==> exists|i: int|
            0 <= i < emails.len() && #[trigger] emails[i] == e && is_root(emails, i),
        at(emails, replies(emails, id)).contains(e) <==> emails.contains(e) && e.in_reply_to
            == Some(id),
{
    lemma_roots(emails);
    lemma_replies(emails, id);
    let r = roots(emails);
    let p = replies(emails, id);
    if at(emails, r).contains(e) {
        let k = choose|k: int| 0 <= k < r.len() && at(emails, r)[k] == e;
        assert(r.contains(r[k]));
        assert(emails[r[k]] == e);
    }
    if exists|i: int| 0 <= i < emails.len() && #[trigger] emails[i] == e && is_root(emails, i) {
        let i = choose|i: int|
            0 <= i < emails.len() && #[trigger] emails[i] == e && is_root(emails, i);
        assert(r.contains(i));
        let k = choose|k: int| 0 <= k < r.len() && r[k] == i;
        assert(at(emails, r)[k] == e);
    }
    if at(emails, p).contains(e) {
        let k = choose|k: int| 0 <= k < p.len() && at(emails, p)[k] == e;
        assert(p.contains(p[k]));
        assert(emails[p[k]] == e);
    }
    if emails.contains(e) && e.in_reply_to == Some(id) {
        let i = choose|i: int| 0 <= i < emails.len() && emails[i] == e;
        assert(p.contains(i));
        let k = choose|k: int| 0 <= k < p.len() && p[k] == i;
        assert(at(emails, p)[k] == e);
    }
}

/// An email that starts a thread in one of two lists of the same emails starts one in
/// the other.
proof fn lemma_root_in_both(
    x: Seq<LoreEmailInfoView>,
    y: Seq<LoreEmailInfoView>,
    i: int,
    j: int,
)
    requires
        forall|e: LoreEmailInfoView| #[trigger] x.contains(e) <==> y.contains(e),
        0 <= i < x.len(),
        0 <= j < y.len(),
        x[i] == y[j],
        is_root(x, i),
    ensures
        is_root(y, j),
{
    if let Some(parent) = y[j].in_reply_to {
        assert forall|k: int| 0 <= k < y.len() implies (#[trigger] y[k]).message_id != parent by {
            assert(y.contains(y[k]));
            assert(x.contains(y[k]));
            let m = choose|m: int| 0 <= m < x.len() && x[m] == y[k];
            assert(x[m].message_id != parent);
        }
    }
}

/// What holds of one list holds of another that has the same emails, each as often.
proof fn lemma_permuted(x: Seq<LoreEmailInfoView>, y: Seq<LoreEmailInfoView>)
    requires
        ids_differ(x),
        sibling_dates_differ(x),
        x.to_multiset() == y.to_multiset(),
    ensures
        ids_differ(y),
        sibling_dates_differ(y),
        x.len() == y.len(),
        forall|e: LoreEmailInfoView| #[trigger] x.contains(e) <==> y.contains(e),
{
    x.to_multiset_ensures();
    y.to_multiset_ensures();
    assert(x.no_duplicates());
    x.lemma_multiset_has_no_duplicates();
    y.lemma_multiset_has_no_duplicates_conv();
    assert forall|e: LoreEmailInfoView| #[trigger] x.contains(e) <==> y.contains(e) by {
        vstd::seq_lib::to_multiset_contains(x, e);
        vstd::seq_lib::to_multiset_contains(y, e);
    }
    assert forall|i: int, j: int| 0 <= i < j < y.len() implies (#[trigger] y[i]).message_id != (
    #[trigger] y[j]).message_id by {
        assert(y.contains(y[i]) && y.contains(y[j]));
        assert(x.contains(y[i]) && x.contains(y[j]));
        let p = choose|p: int| 0 <= p < x.len() && x[p] == y[i];
        let q = choose|q: int| 0 <= q < x.len() && x[q] == y[j];
        assert(y[i] != y[j]);
        assert(p != q);
    }
    assert forall|i: int, j: int|
        0 <= i < y.len() && 0 <= j < y.len() && i != j && #[trigger] siblings(
            y,
            i,
            j,
        ) implies y[i].date != y[j].date by {
        assert(y.contains(y[i]) && y.contains(y[j]));
        assert(x.contains(y[i]) && x.contains(y[j]));
        let p = choose|p: int| 0 <= p < x.len() && x[p] == y[i];
        let q = choose|q: int| 0 <= q < x.len() && x[q] == y[j];
        assert(y[i] != y[j]);
        if is_root(y, i) && is_root(y, j) {
            lemma_root_in_both(y, x, i, p);
            lemma_root_in_both(y, x, j, q);
        }
        assert(siblings(x, p, q));
    }
}

/// The order of a list of emails does not matter to the order in which they are read,
/// where no message id occurs twice and emails that are read beside each other have
/// different dates.
pub proof fn law_input_order(emails: Seq<LoreEmailInfoView>, permuted: Seq<LoreEmailInfoView>)
    requires
        ids_differ(emails),
        sibling_dates_differ(emails),
        permuted.to_multiset() == emails.to_multiset(),
    ensures
        threads_end(emails),
        threads_end(permuted),
        thread_order(permuted) == thread_order(emails),
{
    lemma_permuted(emails, permuted);
    law_distinct_ids_end(emails);
    law_distinct_ids_end(permuted);
    assert forall|e: LoreEmailInfoView| #[trigger]
        at(emails, roots(emails)).contains(e) <==> at(permuted, roots(permuted)).contains(e) by {
        lemma_members(emails, e.message_id, e);
        lemma_members(permuted, e.message_id, e);
        if at(emails, roots(emails)).contains(e) {
            let i = choose|i: int|
                0 <= i < emails.len() && #[trigger] emails[i] == e && is_root(emails, i);
            assert(emails.contains(e));
            let j = choose|j: int| 0 <= j < permuted.len() && permuted[j] == e;
            lemma_root_in_both(emails, permuted, i, j);
            assert(permuted[j] == e && is_root(permuted, j));
        }
        if at(permuted, roots(permuted)).contains(e) {
            let j = choose|j: int|
                0 <= j < permuted.len() && #[trigger] permuted[j] == e && is_root(permuted, j);
            assert(permuted.contains(e));
            assert(emails.contains(e));
            let i = choose|i: int| 0 <= i < emails.len() && emails[i] == e;
            lemma_root_in_both(permuted, emails, j, i);
            assert(emails[i] == e && is_root(emails, i));
        }
    }
    assert forall|j: int, e: LoreEmailInfoView| 0 <= j < permuted.len() implies (#[trigger] at(
        emails,
        replies(emails, permuted[j].message_id),
    ).contains(e) <==> at(permuted, replies(permuted, permuted[j].message_id)).contains(e)) by {
        lemma_members(emails, permuted[j].message_id, e);
        lemma_members(permuted, permuted[j].message_id, e);
    }
    lemma_read_alike(emails, permuted);
}

proof fn lemma_subthread_in_range(emails: Seq<LoreEmailInfoView>, i: int, depth: nat)
    requires
        0 <= i < emails.len(),
    ensures
        forall|k: int|
            0 <= k < subthread(emails, i, depth).len() ==> 0 <= #[trigger] subthread(
                emails,
                i,
                depth,
            )[k] < emails.len(),
    decreases depth, 0nat,
{
    if depth > 0 {
        let below = replies(emails, emails[i].message_id);
        lemma_replies(emails, emails[i].message_id);
        assert forall|k: int| 0 <= k < below.len() implies 0 <= #[trigger] below[k]
            < emails.len() by {
            assert(below.contains(below[k]));
        }
        let rest = subthreads(emails, below, (depth - 1) as nat);
        let s = subthread(emails, i, depth);
        lemma_listed_in_range(emails, below, (depth - 1) as nat);
        assert(s =~= seq![i] + rest);
        assert forall|k: int| 0 <= k < s.len() implies 0 <= #[trigger] s[k] < emails.len() by {
            if k > 0 {
                assert(s[k] == rest[k - 1]);
            }
        }
    }
}

proof fn lemma_listed_in_range(emails: Seq<LoreEmailInfoView>, heads: Seq<int>, depth: nat)
    requires
        forall|k: int| 0 <= k < heads.len() ==> 0 <= #[trigger] heads[k] < emails.len(),
    ensures
        forall|k: int|
            0 <= k < subthreads(emails, heads, depth).len() ==> 0 <= #[trigger] subthreads(
                emails,
                heads,
                depth,
            )[k] < emails.len(),
    decreases depth, heads.len() + 1,
{
    if heads.len() > 0 {
        let rest = heads.drop_first();
        assert forall|k: int| 0 <= k < rest.len() implies 0 <= #[trigger] rest[k] < emails.len() by {
            assert(rest[k] == heads[k + 1]);
        }
        lemma_subthread_in_range(emails, heads[0], depth);
        lemma_listed_in_range(emails, rest, depth);
        let a = subthread(emails, heads[0], depth);
        let b = subthreads(emails, rest, depth);
        let s = subthreads(emails, heads, depth);
        assert(s =~= a + b);
        assert forall|k: int| 0 <= k < s.len() implies 0 <= #[trigger] s[k] < emails.len() by {
            if k < a.len() {
                assert(s[k] == a[k]);
            } else {
                assert(s[k] == b[k - a.len()]);
            }
        }
    }
}

/// The places that are read lie in the list, and no two of them hold one message.
proof fn lemma_read_places(emails: Seq<LoreEmailInfoView>)
    requires
        ids_differ(emails),
    ensures
        forall|k: int|
            0 <= k < thread_places(emails).len() ==> 0 <= #[trigger] thread_places(emails)[k]
                < emails.len(),
        thread_places(emails).len() <= emails.len(),
        ids_differ(thread_order(emails)),
{
    let places = thread_places(emails);
    let order = thread_order(emails);
    law_emails_are_read_once(emails);
    law_distinct_ids_end(emails);
    lemma_roots(emails);
    assert forall|k: int| 0 <= k < roots(emails).len() implies 0 <= #[trigger] roots(emails)[k]
        < emails.len() by {
        assert(roots(emails).contains(roots(emails)[k]));
    }
    lemma_listed_in_range(emails, roots(emails), emails.len());
    assert forall|i: int, j: int| 0 <= i < j < order.len() implies (
    #[trigger] order[i]).message_id != (#[trigger] order[j]).message_id by {
        assert(order[i] == emails[places[i]] && order[j] == emails[places[j]]);
        assert(places[i] != places[j]);
    }
    let all = Seq::new(emails.len(), |i: int| i);
    places.unique_seq_to_set();
    assert forall|i: int| #[trigger] places.to_set().contains(i) implies all.to_set().contains(
        i,
    ) by {
        let k = choose|k: int| 0 <= k < places.len() && places[k] == i;
        assert(all[i] == i);
    }
    all.lemma_cardinality_of_set();
    vstd::set_lib::lemma_len_subset(places.to_set(), all.to_set());
}

/// An email that is read starts a thread in the list of those that are read exactly
/// where it did in the whole list.
proof fn lemma_read_root(emails: Seq<LoreEmailInfoView>, k: int)
    requires
        ids_differ(emails),
        0 <= k < thread_places(emails).len(),
    ensures
        is_root(thread_order(emails), k) == is_root(emails, thread_places(emails)[k]),
{
    let places = thread_places(emails);
    let order = thread_order(emails);
    lemma_read_places(emails);
    let i = places[k];
    assert(order[k] == emails[i]);
    if is_root(emails, i) {
        if let Some(parent) = order[k].in_reply_to {
            assert forall|m: int| 0 <= m < order.len() implies (
            #[trigger] order[m]).message_id != parent by {
                assert(order[m] == emails[places[m]]);
            }
        }
    } else {
        law_replies_follow(emails, k);
        assert(follows_answered(emails, places, k));
        let j = choose|j: int| 0 <= j < k && #[trigger] answers(emails, places[k], places[j]);
        assert(order[j] == emails[places[j]]);
        assert(order[j].message_id == order[k].in_reply_to->0);
    }
}

/// Ordering what was read in its order leaves it as it is, where no message id occurs
/// twice and emails that are read beside each other have different dates.
pub proof fn law_order_again(emails: Seq<LoreEmailInfoView>)
    requires
        ids_differ(emails),
        sibling_dates_differ(emails),
    ensures
        threads_end(thread_order(emails)),
        thread_order(thread_order(emails)) == thread_order(emails),
{
    let places = thread_places(emails);
    let order = thread_order(emails);
    lemma_read_places(emails);
    law_distinct_ids_end(emails);
    law_distinct_ids_end(order);
    law_emails_are_read_once(emails);
    assert forall|i: int, j: int|
        0 <= i < order.len() && 0 <= j < order.len() && i != j && #[trigger] siblings(
            order,
            i,
            j,
        ) implies order[i].date != order[j].date by {
        lemma_read_root(emails, i);
        lemma_read_root(emails, j);
        assert(order[i] == emails[places[i]] && order[j] == emails[places[j]]);
        assert(siblings(emails, places[i], places[j]));
        assert(places[i] != places[j]);
    }
    assert forall|e: LoreEmailInfoView| #[trigger]
        at(emails, roots(emails)).contains(e) <==> at(order, roots(order)).contains(e) by {
        lemma_members(emails, e.message_id, e);
        lemma_members(order, e.message_id, e);
        if at(emails, roots(emails)).contains(e) {
            let i = choose|i: int|
                0 <= i < emails.len() && #[trigger] emails[i] == e && is_root(emails, i);
            assert(leads_to_root(emails, i, 0));
            law_rooted_emails_are_read(emails, i, 0);
            let k = choose|k: int| 0 <= k < places.len() && places[k] == i;
            lemma_read_root(emails, k);
            assert(order[k] == e && is_root(order, k));
        }
        if at(order, roots(order)).contains(e) {
            let k = choose|k: int|
                0 <= k < order.len() && #[trigger] order[k] == e && is_root(order, k);
            lemma_read_root(emails, k);
            assert(emails[places[k]] == e && is_root(emails, places[k]));
        }
    }
    assert forall|j: int, e: LoreEmailInfoView| 0 <= j < order.len() implies (#[trigger] at(
        emails,
        replies(emails, order[j].message_id),
    ).contains(e) <==> at(order, replies(order, order[j].message_id)).contains(e)) by {
        let id = order[j].message_id;
        lemma_members(emails, id, e);
        lemma_members(order, id, e);
        if emails.contains(e) && e.in_reply_to == Some(id) {
            let c = choose|c: int| 0 <= c < emails.len() && emails[c] == e;
            lemma_replies(emails, id);
            assert(replies(emails, emails[places[j]].message_id).contains(c));
            assert(places.contains(places[j]));
            lemma_closed_all(emails, roots(emails), emails.len(), places[j], c);
            let k = choose|k: int| 0 <= k < places.len() && places[k] == c;
            assert(order[k] == e);
        }
        if order.contains(e) {
            let k = choose|k: int| 0 <= k < order.len() && order[k] == e;
            assert(emails[places[k]] == e);
        }
    }
    lemma_read_alike(emails, order);
}

} // verus!
