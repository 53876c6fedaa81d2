//! What holds of the order in which threads are read.

use vstd::prelude::*;

use crate::dates::{goes_before, lemma_date_key};
use crate::order::{lemma_arranges_distinct, lemma_stable_order_exists, precedes, stable_order};
use crate::threads::{
    by_date, by_date_from_end, date_keys, dates_beside, ends_within, is_root, level_of, replies,
    roots, subthread, subthreads, thread_places, threads_end,
};
use crate::types::LoreEmailInfoView;

verus! {

/// Whether no two emails have the same message id.
pub open spec fn ids_differ(emails: Seq<LoreEmailInfoView>) -> bool {
    forall|i: int, j: int|
        0 <= i < j < emails.len() ==> (#[trigger] emails[i]).message_id != (
        #[trigger] emails[j]).message_id
}

/// Whether the email at `reply` answers the email at `parent`.
pub open spec fn answers(emails: Seq<LoreEmailInfoView>, reply: int, parent: int) -> bool {
    emails[reply].in_reply_to == Some(emails[parent].message_id)
}

/// Whether the email at `i` leads to the start of a thread in `steps` steps from
/// reply to answered email.
pub open spec fn leads_to_root(emails: Seq<LoreEmailInfoView>, i: int, steps: nat) -> bool
    decreases steps,
{
    if steps == 0 {
        is_root(emails, i)
    } else {
        exists|p: int|
            0 <= p < emails.len() && #[trigger] answers(emails, i, p) && leads_to_root(
                emails,
                p,
                (steps - 1) as nat,
            )
    }
}

/// Whether the email at place `k` of a listing comes after one that it answers.
pub open spec fn follows_answered(
    emails: Seq<LoreEmailInfoView>,
    listing: Seq<int>,
    k: int,
) -> bool {
    exists|j: int| 0 <= j < k && #[trigger] answers(emails, listing[k], listing[j])
}

proof fn lemma_filter_distinct(s: Seq<int>, pred: spec_fn(int) -> bool)
    requires
        s.no_duplicates(),
    ensures
        s.filter(pred).no_duplicates(),
        forall|x: int| #[trigger] s.filter(pred).contains(x) <==> s.contains(x) && pred(x),
    decreases s.len(),
{
    reveal(Seq::filter);
    if s.len() > 0 {
        let rest = s.drop_last();
        lemma_filter_distinct(rest, pred);
        let kept = rest.filter(pred);
        assert(s =~= rest.push(s.last()));
        assert forall|x: int| #[trigger] s.filter(pred).contains(x) <==> s.contains(x) && pred(
            x,
        ) by {
            if s.contains(x) && pred(x) {
                let p = choose|p: int| 0 <= p < s.len() && s[p] == x;
                if p < rest.len() {
                    assert(rest[p] == x);
                    assert(kept.contains(x));
                    let q = choose|q: int| 0 <= q < kept.len() && kept[q] == x;
                    assert(s.filter(pred)[q] == x);
                } else {
                    assert(s.filter(pred).last() == x);
                }
            }
            if s.filter(pred).contains(x) {
                let q = choose|q: int| 0 <= q < s.filter(pred).len() && s.filter(pred)[q] == x;
                if q < kept.len() {
                    assert(kept[q] == x);
                    assert(kept.contains(x));
                    assert(rest.contains(x));
                    let p = choose|p: int| 0 <= p < rest.len() && rest[p] == x;
                    assert(s[p] == x);
                } else {
                    assert(s[s.len() - 1] == x);
                }
            }
        }
        if pred(s.last()) {
            assert(!kept.contains(s.last())) by {
                if kept.contains(s.last()) {
                    assert(rest.contains(s.last()));
                    let p = choose|p: int| 0 <= p < rest.len() && rest[p] == s.last();
                    assert(s[p] == s[s.len() - 1]);
                }
            }
            assert(s.filter(pred) =~= kept.push(s.last()));
        }
    }
}

/// The replies to a message: which emails they are, each once, by date.
pub proof fn lemma_replies(emails: Seq<LoreEmailInfoView>, id: Seq<char>)
    ensures
        replies(emails, id).no_duplicates(),
        forall|i: int| #[trigger]
            replies(emails, id).contains(i) <==> 0 <= i < emails.len() && emails[i].in_reply_to
                == Some(id),
{
    let keys = date_keys(emails);
    lemma_stable_order_exists(keys);
    lemma_arranges_distinct(keys, 0, keys.len() as int, by_date(emails));
    lemma_filter_distinct(by_date(emails), |i: int| emails[i].in_reply_to == Some(id));
    assert forall|i: int| #[trigger] replies(emails, id).contains(i) <==> 0 <= i < emails.len()
        && emails[i].in_reply_to == Some(id) by {
        if 0 <= i < emails.len() {
            assert(by_date(emails).contains(i));
        }
        if by_date(emails).contains(i) {
            let p = choose|p: int| 0 <= p < by_date(emails).len() && by_date(emails)[p] == i;
        }
    }
}

/// The starts of threads: which emails they are, each once.
pub proof fn lemma_roots(emails: Seq<LoreEmailInfoView>)
    ensures
        roots(emails).no_duplicates(),
        forall|i: int| #[trigger]
            roots(emails).contains(i) <==> 0 <= i < emails.len() && is_root(emails, i),
{
    let keys = date_keys(emails).reverse();
    let back = stable_order(keys);
    let order = by_date_from_end(emails);
    lemma_stable_order_exists(keys);
    lemma_arranges_distinct(keys, 0, keys.len() as int, back);
    assert(order.no_duplicates()) by {
        assert forall|a: int, b: int| 0 <= a < b < order.len() implies order[a] != order[b] by {
            assert(back[a] != back[b]);
        }
    }
    lemma_filter_distinct(order, |i: int| is_root(emails, i));
    assert forall|i: int| #[trigger] roots(emails).contains(i) <==> 0 <= i < emails.len()
        && is_root(emails, i) by {
        if 0 <= i < emails.len() {
            let j = emails.len() - 1 - i;
            assert(back.contains(j));
            let p = choose|p: int| 0 <= p < back.len() && back[p] == j;
            assert(order[p] == i);
        }
        if order.contains(i) {
            let p = choose|p: int| 0 <= p < order.len() && order[p] == i;
            assert(order[p] == emails.len() - 1 - back[p]);
        }
    }
}

proof fn lemma_distinct_places_fit(s: Seq<int>, n: nat)
    requires
        s.no_duplicates(),
        forall|k: int| 0 <= k < s.len() ==> 0 <= #[trigger] s[k] < n,
    ensures
        s.len() <= n,
{
    s.unique_seq_to_set();
    vstd::set_lib::lemma_int_range(0, n as int);
    assert(s.to_set().subset_of(vstd::set_lib::set_int_range(0, n as int)));
    vstd::set_lib::lemma_len_subset(s.to_set(), vstd::set_lib::set_int_range(0, n as int));
}

/// Whether `path` leads from the start of a thread from reply to reply, through
/// each email once.
spec fn is_path(emails: Seq<LoreEmailInfoView>, path: Seq<int>) -> bool {
    &&& path.len() > 0
    &&& path.no_duplicates()
    &&& forall|k: int| 0 <= k < path.len() ==> 0 <= #[trigger] path[k] < emails.len()
    &&& is_root(emails, path[0])
    &&& forall|k: int| 0 < k < path.len() ==> answers(emails, #[trigger] path[k], path[k - 1])
}

proof fn lemma_path_ends(emails: Seq<LoreEmailInfoView>, path: Seq<int>)
    requires
        ids_differ(emails),
        is_path(emails, path),
    ensures
        path.len() <= emails.len(),
        ends_within(emails, path.last(), (emails.len() - path.len() + 1) as nat),
    decreases emails.len() - path.len(),
{
    lemma_distinct_places_fit(path, emails.len());
    let last = path.last();
    let id = emails[last].message_id;
    let below = replies(emails, id);
    lemma_replies(emails, id);
    assert forall|k: int| 0 <= k < below.len() implies ends_within(
        emails,
        #[trigger] below[k],
        (emails.len() - path.len()) as nat,
    ) by {
        let c = below[k];
        assert(below.contains(c));
        let longer = path.push(c);
        assert(!path.contains(c)) by {
            if path.contains(c) {
                let m = choose|m: int| 0 <= m < path.len() && path[m] == c;
                if m == 0 {
                    assert(emails[last].message_id == id);
                    assert(false);
                } else {
                    assert(answers(emails, path[m], path[m - 1]));
                    let a = path[m - 1];
                    assert(emails[a].message_id == emails[last].message_id);
                    assert(a == last);
                    assert(path[m - 1] == path[path.len() - 1]);
                    assert(false);
                }
            }
        }
        assert(longer.no_duplicates());
        assert forall|q: int| 0 < q < longer.len() implies answers(
            emails,
            #[trigger] longer[q],
            longer[q - 1],
        ) by {
            if q < path.len() {
                assert(answers(emails, path[q], path[q - 1]));
            }
        }
        assert(is_path(emails, longer));
        lemma_distinct_places_fit(longer, emails.len());
        lemma_path_ends(emails, longer);
        assert(longer.last() == c);
    }
}

/// Where no message id occurs twice, no thread leads back into itself.
pub proof fn law_distinct_ids_end(emails: Seq<LoreEmailInfoView>)
    requires
        ids_differ(emails),
    ensures
        threads_end(emails),
{
    lemma_roots(emails);
    assert forall|k: int| 0 <= k < roots(emails).len() implies ends_within(
        emails,
        #[trigger] roots(emails)[k],
        emails.len(),
    ) by {
        let r = roots(emails)[k];
        assert(roots(emails).contains(r));
        let path = seq![r];
        assert(path.last() == r);
        lemma_path_ends(emails, path);
    }
}

proof fn lemma_after_parent(emails: Seq<LoreEmailInfoView>, i: int, depth: nat)
    requires
        0 <= i < emails.len(),
    ensures
        forall|k: int|
            0 < k < subthread(emails, i, depth).len() ==> #[trigger] follows_answered(
                emails,
                subthread(emails, i, depth),
                k,
            ),
        depth > 0 ==> subthread(emails, i, depth).len() > 0 && subthread(emails, i, depth)[0] == i,
    decreases depth, 0nat,
{
    if depth > 0 {
        let id = emails[i].message_id;
        let below = replies(emails, id);
        lemma_replies(emails, id);
        assert forall|k: int| 0 <= k < below.len() implies 0 <= #[trigger] below[k]
            < emails.len() by {
            assert(below.contains(below[k]));
        }
        lemma_after_parent_or_head(emails, below, (depth - 1) as nat);
        let s = subthread(emails, i, depth);
        let t = subthreads(emails, below, (depth - 1) as nat);
        assert(s =~= seq![i] + t);
        assert forall|k: int| 0 < k < s.len() implies #[trigger] follows_answered(
            emails,
            s,
            k,
        ) by {
            assert(s[k] == t[k - 1]);
            if below.contains(t[k - 1]) {
                assert(answers(emails, s[k], s[0]));
            } else {
                assert(follows_answered(emails, t, k - 1));
                let j = choose|j: int|
                    0 <= j < k - 1 && #[trigger] answers(emails, t[k - 1], t[j]);
                assert(answers(emails, s[k], s[j + 1]));
            }
        }
    }
}

proof fn lemma_after_parent_or_head(
    emails: Seq<LoreEmailInfoView>,
    heads: Seq<int>,
    depth: nat,
)
    requires
        forall|k: int| 0 <= k < heads.len() ==> 0 <= #[trigger] heads[k] < emails.len(),
    ensures
        forall|k: int|
            0 <= k < subthreads(emails, heads, depth).len() ==> heads.contains(
                #[trigger] subthreads(emails, heads, depth)[k],
            ) || follows_answered(emails, subthreads(emails, heads, depth), k),
    decreases depth, heads.len() + 1,
{
    if heads.len() > 0 {
        let rest = heads.drop_first();
        let a = subthread(emails, heads[0], depth);
        let b = subthreads(emails, rest, depth);
        let s = subthreads(emails, heads, depth);
        lemma_after_parent(emails, heads[0], depth);
        assert forall|k: int| 0 <= k < rest.len() implies 0 <= #[trigger] rest[k]
            < emails.len() by {
            assert(rest[k] == heads[k + 1]);
        }
        lemma_after_parent_or_head(emails, rest, depth);
        assert(s =~= a + b);
        assert forall|k: int| 0 <= k < s.len() implies heads.contains(#[trigger] s[k])
            || follows_answered(emails, s, k) by {
            if k < a.len() {
                assert(s[k] == a[k]);
                if k == 0 {
                    assert(heads[0] == s[k]);
                } else {
                    assert(follows_answered(emails, a, k));
                    let j = choose|j: int| 0 <= j < k && #[trigger] answers(emails, a[k], a[j]);
                    assert(answers(emails, s[k], s[j]));
                }
            } else {
                let m = k - a.len();
                assert(s[k] == b[m]);
                if rest.contains(b[m]) {
                    let p = choose|p: int| 0 <= p < rest.len() && rest[p] == b[m];
                    assert(heads[p + 1] == s[k]);
                } else {
                    assert(follows_answered(emails, b, m));
                    let j = choose|j: int| 0 <= j < m && #[trigger] answers(emails, b[m], b[j]);
                    assert(answers(emails, s[k], s[j + a.len()]));
                }
            }
        }
    }
}

/// In the order of reading, each email starts a thread or comes after an email
/// that it answers.
pub proof fn law_replies_follow(emails: Seq<LoreEmailInfoView>, k: int)
    requires
        0 <= k < thread_places(emails).len(),
    ensures
        is_root(emails, thread_places(emails)[k]) || follows_answered(
            emails,
            thread_places(emails),
            k,
        ),
{
    lemma_roots(emails);
    let heads = roots(emails);
    assert forall|k: int| 0 <= k < heads.len() implies 0 <= #[trigger] heads[k] < emails.len() by {
        assert(heads.contains(heads[k]));
    }
    lemma_after_parent_or_head(emails, heads, emails.len());
}

/// The dates beside an email are finitely many.
pub proof fn lemma_beside_finite(emails: Seq<LoreEmailInfoView>, level: Option<Seq<char>>)
    ensures
        dates_beside(emails, level).finite(),
{
    let all = emails.map_values(|e: LoreEmailInfoView| e.date).to_set();
    let beside = dates_beside(emails, level);
    vstd::seq_lib::seq_to_set_is_finite(emails.map_values(|e: LoreEmailInfoView| e.date));
    assert forall|d: Seq<char>| #[trigger] beside.contains(d) implies all.contains(d) by {
        let j = choose|j: int|
            0 <= j < emails.len() && (#[trigger] emails[j]).date == d && level_of(emails, j)
                == level;
        assert(emails.map_values(|e: LoreEmailInfoView| e.date)[j] == d);
    }
    vstd::set_lib::lemma_set_subset_finite(all, beside);
}

/// An email that answers one of the list is on the level of its replies.
pub proof fn lemma_level_of_reply(emails: Seq<LoreEmailInfoView>, p: int, i: int)
    requires
        0 <= p < emails.len(),
    ensures
        emails[i].in_reply_to == Some(emails[p].message_id) <==> level_of(emails, i) == Some(
            emails[p].message_id,
        ),
{
}

/// Replies to one message of a list are read as their dates go among each other, and
/// replies of one date as they stand in the list.
pub proof fn law_replies_by_date(emails: Seq<LoreEmailInfoView>, p: int, a: int, b: int)
    requires
        0 <= p < emails.len(),
        0 <= a < b < replies(emails, emails[p].message_id).len(),
    ensures
        ({
            let id = emails[p].message_id;
            let i = replies(emails, id)[a];
            let j = replies(emails, id)[b];
            if emails[i].date == emails[j].date {
                i < j
            } else {
                goes_before(emails[i].date, emails[j].date, dates_beside(emails, Some(id)))
            }
        }),
{
    let id = emails[p].message_id;
    let keys = date_keys(emails);
    lemma_stable_order_exists(keys);
    let pred = |i: int| emails[i].in_reply_to == Some(id);
    lemma_filter_keeps_order(keys, by_date(emails), pred, a, b);
    let i = replies(emails, id)[a];
    let j = replies(emails, id)[b];
    lemma_replies(emails, id);
    assert(replies(emails, id).contains(i));
    assert(replies(emails, id).contains(j));
    lemma_level_of_reply(emails, p, i);
    lemma_level_of_reply(emails, p, j);
    lemma_beside_finite(emails, Some(id));
    lemma_date_key(emails[i].date, emails[j].date, dates_beside(emails, Some(id)));
    crate::order::lemma_key_less_total(keys[i], keys[j]);
}

/// Threads are read as the dates of their starts go among each other, and threads whose
/// starts have one date from the end of the list to its start.
pub proof fn law_roots_by_date(emails: Seq<LoreEmailInfoView>, a: int, b: int)
    requires
        0 <= a < b < roots(emails).len(),
    ensures
        ({
            let i = roots(emails)[a];
            let j = roots(emails)[b];
            if emails[i].date == emails[j].date {
                i > j
            } else {
                goes_before(emails[i].date, emails[j].date, dates_beside(emails, None))
            }
        }),
{
    let keys = date_keys(emails).reverse();
    let back = stable_order(keys);
    lemma_stable_order_exists(keys);
    let pred = |i: int| is_root(emails, emails.len() - 1 - i);
    lemma_mirrored_filter(back, pred, |i: int| is_root(emails, i), emails.len() as int);
    lemma_filter_keeps_order(keys, back, pred, a, b);
    let i = roots(emails)[a];
    let j = roots(emails)[b];
    lemma_roots(emails);
    assert(roots(emails).contains(i));
    assert(roots(emails).contains(j));
    lemma_beside_finite(emails, None);
    lemma_date_key(emails[i].date, emails[j].date, dates_beside(emails, None));
    crate::order::lemma_key_less_total(date_keys(emails)[i], date_keys(emails)[j]);
}

/// Filtering places counted from the end is filtering those counted from the start.
proof fn lemma_mirrored_filter(
    back: Seq<int>,
    pred: spec_fn(int) -> bool,
    mirrored: spec_fn(int) -> bool,
    n: int,
)
    requires
        forall|i: int| #[trigger] pred(i) == mirrored(n - 1 - i),
    ensures
        back.map_values(|i: int| n - 1 - i).filter(mirrored) == back.filter(pred).map_values(
            |i: int| n - 1 - i,
        ),
    decreases back.len(),
{
    reveal(Seq::filter);
    let turned = back.map_values(|i: int| n - 1 - i);
    if back.len() > 0 {
        lemma_mirrored_filter(back.drop_last(), pred, mirrored, n);
        assert(turned.drop_last() =~= back.drop_last().map_values(|i: int| n - 1 - i));
        assert(pred(back.last()) == mirrored(turned.last()));
        assert(back.filter(pred).map_values(|i: int| n - 1 - i) =~= turned.filter(mirrored));
    } else {
        assert(back.filter(pred).map_values(|i: int| n - 1 - i) =~= turned.filter(mirrored));
    }
}

proof fn lemma_filter_keeps_order(
    keys: Seq<Seq<Seq<int>>>,
    order: Seq<int>,
    pred: spec_fn(int) -> bool,
    a: int,
    b: int,
)
    requires
        forall|x: int, y: int|
            0 <= x < y < order.len() ==> precedes(keys, #[trigger] order[x], #[trigger] order[y]),
        0 <= a < b < order.filter(pred).len(),
    ensures
        precedes(keys, order.filter(pred)[a], order.filter(pred)[b]),
    decreases order.len(),
{
    reveal(Seq::filter);
    if order.len() > 0 {
        let rest = order.drop_last();
        let kept = rest.filter(pred);
        if b < kept.len() {
            lemma_filter_keeps_order(keys, rest, pred, a, b);
            assert(order.filter(pred)[a] == kept[a]);
            assert(order.filter(pred)[b] == kept[b]);
        } else {
            assert(order.filter(pred)[b] == order.last());
            assert(order.filter(pred)[a] == kept[a]);
            rest.lemma_filter_contains_rev(pred, kept[a]);
            let p = choose|p: int| 0 <= p < rest.len() && rest[p] == kept[a];
            assert(order[p] == kept[a]);
        }
    }
}

/// Following the subthread of an email from an email to a reply stays inside it.
proof fn lemma_closed(emails: Seq<LoreEmailInfoView>, i: int, depth: nat, p: int, c: int)
    requires
        ends_within(emails, i, depth),
        subthread(emails, i, depth).contains(p),
        replies(emails, emails[p].message_id).contains(c),
    ensures
        subthread(emails, i, depth).contains(c),
    decreases depth, 0nat,
{
    let s = subthread(emails, i, depth);
    let below = replies(emails, emails[i].message_id);
    let t = subthreads(emails, below, (depth - 1) as nat);
    assert(s =~= seq![i] + t);
    if p == i {
        let k = choose|k: int| 0 <= k < below.len() && below[k] == c;
        assert(ends_within(emails, below[k], (depth - 1) as nat));
        lemma_head_listed(emails, below, (depth - 1) as nat, k);
    } else {
        let q = choose|q: int| 0 <= q < s.len() && s[q] == p;
        assert(t[q - 1] == p);
        lemma_closed_all(emails, below, (depth - 1) as nat, p, c);
    }
    let m = choose|m: int| 0 <= m < t.len() && t[m] == c;
    assert(s[m + 1] == c);
}

/// Following a listing from an email to a reply stays inside the listing.
pub proof fn lemma_closed_all(
    emails: Seq<LoreEmailInfoView>,
    heads: Seq<int>,
    depth: nat,
    p: int,
    c: int,
)
    requires
        forall|k: int| 0 <= k < heads.len() ==> ends_within(emails, #[trigger] heads[k], depth),
        subthreads(emails, heads, depth).contains(p),
        replies(emails, emails[p].message_id).contains(c),
    ensures
        subthreads(emails, heads, depth).contains(c),
    decreases depth, heads.len() + 1,
{
    if heads.len() > 0 {
        let rest = heads.drop_first();
        let a = subthread(emails, heads[0], depth);
        let b = subthreads(emails, rest, depth);
        let s = subthreads(emails, heads, depth);
        assert(s =~= a + b);
        let q = choose|q: int| 0 <= q < s.len() && s[q] == p;
        if q < a.len() {
            assert(a[q] == p);
            assert(ends_within(emails, heads[0], depth));
            lemma_closed(emails, heads[0], depth, p, c);
            let m = choose|m: int| 0 <= m < a.len() && a[m] == c;
            assert(s[m] == c);
        } else {
            assert(b[q - a.len()] == p);
            assert forall|k: int| 0 <= k < rest.len() implies ends_within(
                emails,
                #[trigger] rest[k],
                depth,
            ) by {
                assert(rest[k] == heads[k + 1]);
            }
            lemma_closed_all(emails, rest, depth, p, c);
            let m = choose|m: int| 0 <= m < b.len() && b[m] == c;
            assert(s[m + a.len()] == c);
        }
    }
}

proof fn lemma_head_listed(emails: Seq<LoreEmailInfoView>, heads: Seq<int>, depth: nat, k: int)
    requires
        0 <= k < heads.len(),
        depth > 0,
    ensures
        subthreads(emails, heads, depth).contains(heads[k]),
    decreases k,
{
    let rest = heads.drop_first();
    let a = subthread(emails, heads[0], depth);
    let b = subthreads(emails, rest, depth);
    let s = subthreads(emails, heads, depth);
    assert(s =~= a + b);
    if k == 0 {
        assert(a[0] == heads[0]);
        assert(s[0] == heads[0]);
    } else {
        lemma_head_listed(emails, rest, depth, k - 1);
        assert(rest[k - 1] == heads[k]);
        let m = choose|m: int| 0 <= m < b.len() && b[m] == heads[k];
        assert(s[m + a.len()] == heads[k]);
    }
}

/// Every email that leads to the start of a thread is read.
pub proof fn law_rooted_emails_are_read(emails: Seq<LoreEmailInfoView>, i: int, steps: nat)
    requires
        threads_end(emails),
        0 <= i < emails.len(),
        leads_to_root(emails, i, steps),
    ensures
        thread_places(emails).contains(i),
    decreases steps,
{
    let heads = roots(emails);
    if steps == 0 {
        lemma_roots(emails);
        assert(heads.contains(i));
        let k = choose|k: int| 0 <= k < heads.len() && heads[k] == i;
        lemma_head_listed(emails, heads, emails.len(), k);
    } else {
        let p = choose|p: int|
            0 <= p < emails.len() && #[trigger] answers(emails, i, p) && leads_to_root(
                emails,
                p,
                (steps - 1) as nat,
            );
        law_rooted_emails_are_read(emails, p, (steps - 1) as nat);
        lemma_replies(emails, emails[p].message_id);
        assert(replies(emails, emails[p].message_id).contains(i));
        lemma_closed_all(emails, heads, emails.len(), p, i);
    }
}

/// The email that the email at `i` answers, where ids differ.
spec fn answered(emails: Seq<LoreEmailInfoView>, i: int) -> int {
    choose|p: int| 0 <= p < emails.len() && #[trigger] answers(emails, i, p)
}

/// The email that is `steps` steps above the email at `i`.
spec fn above(emails: Seq<LoreEmailInfoView>, i: int, steps: nat) -> int
    decreases steps,
{
    if steps == 0 {
        i
    } else {
        answered(emails, above(emails, i, (steps - 1) as nat))
    }
}

/// Whether the first start of a thread above the email at `i` is `level` steps up.
spec fn at_level(emails: Seq<LoreEmailInfoView>, i: int, level: nat) -> bool {
    &&& is_root(emails, above(emails, i, level))
    &&& forall|k: nat| k < level ==> !is_root(emails, #[trigger] above(emails, i, k))
}

proof fn lemma_level_unique(emails: Seq<LoreEmailInfoView>, i: int, a: nat, b: nat)
    requires
        at_level(emails, i, a),
        at_level(emails, i, b),
    ensures
        a == b,
{
    if a < b {
        assert(!is_root(emails, above(emails, i, a)));
    } else if b < a {
        assert(!is_root(emails, above(emails, i, b)));
    }
}

/// One step up from `c`, then `steps` more, is `steps + 1` up.
proof fn lemma_above_step(emails: Seq<LoreEmailInfoView>, c: int, steps: nat)
    ensures
        above(emails, c, steps + 1) == above(emails, answered(emails, c), steps),
    decreases steps,
{
    if steps > 0 {
        lemma_above_step(emails, c, (steps - 1) as nat);
    } else {
        assert(above(emails, c, 0) == c);
        assert(above(emails, c, 1) == answered(emails, above(emails, c, 0)));
    }
}

proof fn lemma_reply_level(emails: Seq<LoreEmailInfoView>, i: int, level: nat, c: int)
    requires
        ids_differ(emails),
        0 <= i < emails.len(),
        at_level(emails, i, level),
        replies(emails, emails[i].message_id).contains(c),
    ensures
        0 <= c < emails.len(),
        answered(emails, c) == i,
        at_level(emails, c, level + 1),
{
    lemma_replies(emails, emails[i].message_id);
    assert(answers(emails, c, i));
    let p = answered(emails, c);
    assert(0 <= p < emails.len() && answers(emails, c, p));
    assert(p == i) by {
        if p < i {
            assert(emails[p].message_id != emails[i].message_id);
        } else if i < p {
            assert(emails[i].message_id != emails[p].message_id);
        }
    }
    lemma_above_step(emails, c, level);
    assert forall|k: nat| k < level + 1 implies !is_root(
        emails,
        #[trigger] above(emails, c, k),
    ) by {
        if k == 0 {
            assert(emails[i].message_id == emails[i].message_id);
            assert(!is_root(emails, c));
        } else {
            lemma_above_step(emails, c, (k - 1) as nat);
            assert(!is_root(emails, above(emails, i, (k - 1) as nat)));
        }
    }
}

/// Whether `x` is found under `i`, which is at `level`.
spec fn hangs_under(emails: Seq<LoreEmailInfoView>, x: int, i: int, level: nat) -> bool {
    exists|m: nat| #[trigger] above(emails, x, m) == i && at_level(emails, x, level + m)
}

proof fn lemma_once(emails: Seq<LoreEmailInfoView>, i: int, depth: nat, level: nat)
    requires
        ids_differ(emails),
        0 <= i < emails.len(),
        at_level(emails, i, level),
    ensures
        subthread(emails, i, depth).no_duplicates(),
        forall|x: int| #[trigger]
            subthread(emails, i, depth).contains(x) ==> hangs_under(emails, x, i, level),
    decreases depth, 0nat,
{
    if depth > 0 {
        let below = replies(emails, emails[i].message_id);
        lemma_replies(emails, emails[i].message_id);
        assert forall|k: int| 0 <= k < below.len() implies 0 <= #[trigger] below[k] < emails.len()
            && at_level(emails, below[k], level + 1) by {
            assert(below.contains(below[k]));
            lemma_reply_level(emails, i, level, below[k]);
        }
        lemma_once_all(emails, below, (depth - 1) as nat, level + 1);
        let s = subthread(emails, i, depth);
        let t = subthreads(emails, below, (depth - 1) as nat);
        assert(s =~= seq![i] + t);
        assert(!t.contains(i)) by {
            if t.contains(i) {
                let k = choose|k: int|
                    0 <= k < below.len() && hangs_under(
                        emails,
                        i,
                        #[trigger] below[k],
                        level + 1,
                    );
                let m = choose|m: nat| #[trigger]
                    above(emails, i, m) == below[k] && at_level(emails, i, level + 1 + m);
                lemma_level_unique(emails, i, level, level + 1 + m);
            }
        }
        assert(s.no_duplicates());
        assert forall|x: int| #[trigger] s.contains(x) implies hangs_under(
            emails,
            x,
            i,
            level,
        ) by {
            let q = choose|q: int| 0 <= q < s.len() && s[q] == x;
            if q == 0 {
                assert(above(emails, x, 0) == i);
                assert(at_level(emails, x, level + 0));
            } else {
                assert(t[q - 1] == x);
                assert(t.contains(x));
                let k = choose|k: int|
                    0 <= k < below.len() && hangs_under(
                        emails,
                        x,
                        #[trigger] below[k],
                        level + 1,
                    );
                let m = choose|m: nat| #[trigger]
                    above(emails, x, m) == below[k] && at_level(emails, x, level + 1 + m);
                assert(below.contains(below[k]));
                lemma_reply_level(emails, i, level, below[k]);
                assert(above(emails, x, m + 1) == i);
                assert(level + (m + 1) == level + 1 + m);
            }
        }
    }
}

proof fn lemma_once_all(emails: Seq<LoreEmailInfoView>, heads: Seq<int>, depth: nat, level: nat)
    requires
        ids_differ(emails),
        heads.no_duplicates(),
        forall|k: int|
            0 <= k < heads.len() ==> 0 <= #[trigger] heads[k] < emails.len() && at_level(
                emails,
                heads[k],
                level,
            ),
    ensures
        subthreads(emails, heads, depth).no_duplicates(),
        forall|x: int| #[trigger]
            subthreads(emails, heads, depth).contains(x) ==> exists|k: int|
                0 <= k < heads.len() && hangs_under(emails, x, #[trigger] heads[k], level),
    decreases depth, heads.len() + 1,
{
    if heads.len() > 0 {
        let rest = heads.drop_first();
        assert forall|k: int| 0 <= k < rest.len() implies 0 <= #[trigger] rest[k] < emails.len()
            && at_level(emails, rest[k], level) by {
            assert(rest[k] == heads[k + 1]);
        }
        assert(rest.no_duplicates());
        lemma_once(emails, heads[0], depth, level);
        lemma_once_all(emails, rest, depth, level);
        let a = subthread(emails, heads[0], depth);
        let b = subthreads(emails, rest, depth);
        let s = subthreads(emails, heads, depth);
        assert(s =~= a + b);
        assert forall|p: int, q: int| 0 <= p < a.len() && 0 <= q < b.len() implies a[p] != b[q] by {
            if a[p] == b[q] {
                let x = a[p];
                assert(a.contains(x));
                assert(b.contains(x));
                let k = choose|k: int|
                    0 <= k < rest.len() && hangs_under(emails, x, #[trigger] rest[k], level);
                let m = choose|m: nat| #[trigger]
                    above(emails, x, m) == heads[0] && at_level(emails, x, level + m);
                let n = choose|n: nat| #[trigger]
                    above(emails, x, n) == rest[k] && at_level(emails, x, level + n);
                lemma_level_unique(emails, x, level + m, level + n);
                assert(heads[0] == heads[k + 1]);
            }
        }
        assert(s.no_duplicates());
        assert forall|x: int| #[trigger] s.contains(x) implies exists|k: int|
            0 <= k < heads.len() && hangs_under(emails, x, #[trigger] heads[k], level) by {
            let q = choose|q: int| 0 <= q < s.len() && s[q] == x;
            if q < a.len() {
                assert(a[q] == x);
                assert(a.contains(x));
                assert(hangs_under(emails, x, heads[0], level));
            } else {
                assert(b[q - a.len()] == x);
                assert(b.contains(x));
                let k = choose|k: int|
                    0 <= k < rest.len() && hangs_under(emails, x, #[trigger] rest[k], level);
                assert(heads[k + 1] == rest[k]);
            }
        }
    }
}

/// Where no message id occurs twice, no email is read twice.
pub proof fn law_emails_are_read_once(emails: Seq<LoreEmailInfoView>)
    requires
        ids_differ(emails),
    ensures
        thread_places(emails).no_duplicates(),
{
    lemma_roots(emails);
    let heads = roots(emails);
    assert forall|k: int| 0 <= k < heads.len() implies 0 <= #[trigger] heads[k] < emails.len()
        && at_level(emails, heads[k], 0) by {
        assert(heads.contains(heads[k]));
        assert(above(emails, heads[k], 0) == heads[k]);
    }
    lemma_once_all(emails, heads, emails.len(), 0);
}

} // verus!
