//! The shape of what is shown of a thread: each message behind the one that it answers, with
//! only what belongs to that message in between.

use vstd::prelude::*;

use crate::dates::{date_before, goes_before};
use crate::lore::{entries_text, EntriesView, LoreShowView};
use crate::lore_laws::{
    answered, gathered, holds_only, law_replies_are_shown, law_root_is_reached,
    law_thread_is_closed, law_thread_is_shown, references_found, refers_back, starts_thread, top,
    walk, Archive,
};
use crate::lore_threads::{after_message, is_found, Aim, ThreadStepView, UpView};
use crate::pattern::{earlier, rfc2822_moment};
use crate::style::{in_bold, in_green, in_yellow};
use crate::text::decimal;
use crate::thread_laws::{
    answers, ids_differ, law_distinct_ids_end, law_emails_are_read_once, law_replies_by_date,
    law_replies_follow, law_rooted_emails_are_read, law_roots_by_date, leads_to_root,
    lemma_replies, lemma_roots,
};
use crate::threads::{
    ends_within, is_root, replies, roots, subthread, subthreads, thread_order, thread_places,
    threads_end,
};
use crate::types::LoreEmailInfoView;

verus! {

/// Whether the message at `k` answers the message at `j`.
pub open spec fn answers_at(shown: Seq<LoreEmailInfoView>, k: int, j: int) -> bool {
    shown[k].in_reply_to == Some(shown[j].message_id)
}

/// Whether no message of the list is answered by the message at `k`.
pub open spec fn answers_none(shown: Seq<LoreEmailInfoView>, k: int) -> bool {
    forall|j: int| 0 <= j < shown.len() ==> !#[trigger] answers_at(shown, k, j)
}

/// Whether a message belongs to what follows the message at `j`: it answers that message, or
/// one that stands between the two.
pub open spec fn belongs(shown: Seq<LoreEmailInfoView>, j: int, m: int) -> bool {
    exists|p: int| j <= p < m && #[trigger] answers_at(shown, m, p)
}

/// Whether a message is not older than another: where both have a date, the moment of the
/// first is not before that of the second.
pub open spec fn not_older(later: LoreEmailInfoView, than: LoreEmailInfoView) -> bool {
    rfc2822_moment(later.date) matches Some(b) ==> (rfc2822_moment(than.date) matches Some(a)
        ==> !earlier(b, a))
}

/// Whether messages stand as threads: a message stands behind the one that it answers, with
/// only messages between the two that belong to what follows that one; of two that answer the
/// same message, and of two that answer none of the list, the older one stands first.
pub open spec fn stands_as_threads(shown: Seq<LoreEmailInfoView>) -> bool {
    &&& forall|j: int, k: int|
        0 <= j < shown.len() && 0 <= k < shown.len() && #[trigger] answers_at(shown, k, j) ==> j
            < k
    &&& forall|j: int, m: int, k: int|
        0 <= j < m < k < shown.len() && #[trigger] answers_at(shown, k, j) ==> #[trigger] belongs(
            shown,
            j,
            m,
        )
    &&& forall|p: int, a: int, b: int|
        0 <= p < shown.len() && 0 <= a < b < shown.len() && #[trigger] answers_at(shown, a, p)
            && #[trigger] answers_at(shown, b, p) ==> not_older(shown[b], shown[a])
    &&& forall|a: int, b: int|
        0 <= a < b < shown.len() && #[trigger] answers_none(shown, a) && #[trigger] answers_none(
            shown,
            b,
        ) ==> not_older(shown[b], shown[a])
}

/// Whether `shown` holds of a list of messages, each once, all that answer none of the list,
/// and with a message all that answer it.
pub open spec fn holds_threads(
    list: Seq<LoreEmailInfoView>,
    shown: Seq<LoreEmailInfoView>,
) -> bool {
    &&& shown.no_duplicates()
    &&& forall|k: int| 0 <= k < shown.len() ==> list.contains(#[trigger] shown[k])
    &&& forall|i: int|
        0 <= i < list.len() && #[trigger] answers_none(list, i) ==> shown.contains(list[i])
    &&& forall|i: int, p: int|
        0 <= i < list.len() && 0 <= p < list.len() && #[trigger] answers_at(list, i, p)
            && shown.contains(list[p]) ==> shown.contains(list[i])
}

/// The replies below a message that ends stand in one piece behind it.
proof fn lemma_block(emails: Seq<LoreEmailInfoView>, heads: Seq<int>, depth: nat, j: int) -> (d: nat)
    requires
        forall|k: int| 0 <= k < heads.len() ==> ends_within(emails, #[trigger] heads[k], depth),
        0 <= j < subthreads(emails, heads, depth).len(),
    ensures
        ({
            let s = subthreads(emails, heads, depth);
            let t = subthread(emails, s[j], d);
            &&& 0 < d <= depth
            &&& ends_within(emails, s[j], d)
            &&& 0 < t.len()
            &&& j + t.len() <= s.len()
            &&& s.subrange(j, j + t.len()) == t
        }),
    decreases depth, heads.len(),
{
    let s = subthreads(emails, heads, depth);
    let first = subthread(emails, heads[0], depth);
    let rest = heads.drop_first();
    let after = subthreads(emails, rest, depth);
    assert(heads.len() > 0);
    assert(s == first + after);
    assert(ends_within(emails, heads[0], depth));
    if j >= first.len() {
        assert forall|k: int| 0 <= k < rest.len() implies ends_within(
            emails,
            #[trigger] rest[k],
            depth,
        ) by {
            assert(rest[k] == heads[k + 1]);
        }
        let i = j - first.len();
        let d = lemma_block(emails, rest, depth, i);
        assert(s[j] == after[i]);
        let t = subthread(emails, s[j], d);
        assert(s.subrange(j, j + t.len()) =~= after.subrange(i, i + t.len()));
        d
    } else if j == 0 {
        assert(first.len() > 0);
        assert(first[0] == heads[0]);
        assert(s[0] == heads[0]);
        assert(s.subrange(0, first.len() as int) =~= first);
        depth
    } else {
        let below = replies(emails, emails[heads[0]].message_id);
        let inner = subthreads(emails, below, (depth - 1) as nat);
        assert(first == seq![heads[0]] + inner);
        let d = lemma_block(emails, below, (depth - 1) as nat, j - 1);
        assert(s[j] == inner[j - 1]);
        let t = subthread(emails, s[j], d);
        assert(s.subrange(j, j + t.len()) =~= inner.subrange(j - 1, j - 1 + t.len()));
        d
    }
}

/// Heads of subthreads stand in their order.
proof fn lemma_heads_in_order(
    emails: Seq<LoreEmailInfoView>,
    heads: Seq<int>,
    depth: nat,
    x: int,
) -> (at: int)
    requires
        depth > 0,
        0 <= x < heads.len(),
    ensures
        0 <= at < subthreads(emails, heads, depth).len(),
        subthreads(emails, heads, depth)[at] == heads[x],
        at == subthreads(emails, heads.take(x), depth).len(),
    decreases x,
{
    let s = subthreads(emails, heads, depth);
    let first = subthread(emails, heads[0], depth);
    let rest = heads.drop_first();
    assert(s == first + subthreads(emails, rest, depth));
    assert(first[0] == heads[0]);
    if x == 0 {
        assert(heads.take(0) =~= seq![]);
        assert(s[0] == heads[0]);
        0
    } else {
        let at = lemma_heads_in_order(emails, rest, depth, x - 1);
        assert(rest[x - 1] == heads[x]);
        assert(heads.take(x).drop_first() =~= rest.take(x - 1));
        assert(heads.take(x)[0] == heads[0]);
        assert(s[at + first.len()] == heads[x]);
        at + first.len() as int
    }
}

proof fn lemma_longer(emails: Seq<LoreEmailInfoView>, heads: Seq<int>, depth: nat, x: int, y: int)
    requires
        depth > 0,
        0 <= x < y <= heads.len(),
    ensures
        subthreads(emails, heads.take(x), depth).len() < subthreads(
            emails,
            heads.take(y),
            depth,
        ).len(),
    decreases x,
{
    let a = heads.take(x);
    let b = heads.take(y);
    let rest = heads.drop_first();
    assert(b[0] == heads[0]);
    assert(b.drop_first() =~= rest.take(y - 1));
    assert(subthread(emails, heads[0], depth).len() > 0);
    if x > 0 {
        assert(a[0] == heads[0]);
        assert(a.drop_first() =~= rest.take(x - 1));
        lemma_longer(emails, rest, depth, x - 1, y - 1);
    } else {
        assert(a =~= seq![]);
    }
}

/// Where no place occurs twice, of two heads the one that stands first in the list of heads
/// stands first.
proof fn lemma_head_places(
    emails: Seq<LoreEmailInfoView>,
    heads: Seq<int>,
    depth: nat,
    a: int,
    b: int,
    x: int,
    y: int,
)
    requires
        depth > 0,
        subthreads(emails, heads, depth).no_duplicates(),
        0 <= a < b < subthreads(emails, heads, depth).len(),
        0 <= x < heads.len(),
        0 <= y < heads.len(),
        subthreads(emails, heads, depth)[a] == heads[x],
        subthreads(emails, heads, depth)[b] == heads[y],
    ensures
        x < y,
{
    let s = subthreads(emails, heads, depth);
    let p = lemma_heads_in_order(emails, heads, depth, x);
    let q = lemma_heads_in_order(emails, heads, depth, y);
    assert(p == a);
    assert(q == b);
    if y < x {
        lemma_longer(emails, heads, depth, y, x);
    }
}

proof fn lemma_not_older(x: LoreEmailInfoView, y: LoreEmailInfoView, beside: Set<Seq<char>>)
    requires
        x.date == y.date || goes_before(x.date, y.date, beside),
    ensures
        not_older(y, x),
{
    if rfc2822_moment(x.date) is Some && rfc2822_moment(y.date) is Some && x.date != y.date {
        assert(date_before(x.date, y.date));
    }
}

/// What is known of the places at which a list is read.
proof fn lemma_places(emails: Seq<LoreEmailInfoView>)
    requires
        ids_differ(emails),
    ensures
        threads_end(emails),
        thread_places(emails).no_duplicates(),
        forall|k: int|
            0 <= k < thread_places(emails).len() ==> 0 <= #[trigger] thread_places(emails)[k]
                < emails.len(),
{
    law_distinct_ids_end(emails);
    law_emails_are_read_once(emails);
    let heads = roots(emails);
    lemma_roots(emails);
    assert forall|k: int| 0 <= k < heads.len() implies 0 <= #[trigger] heads[k] < emails.len() by {
        assert(heads.contains(heads[k]));
    }
    lemma_in_list(emails, heads, emails.len());
}

proof fn lemma_in_list(emails: Seq<LoreEmailInfoView>, heads: Seq<int>, depth: nat)
    requires
        forall|k: int| 0 <= k < heads.len() ==> 0 <= #[trigger] heads[k] < emails.len(),
    ensures
        forall|k: int|
            0 <= k < subthreads(emails, heads, depth).len() ==> 0 <= #[trigger] subthreads(
                emails,
                heads,
                depth,
            )[k] < emails.len(),
    decreases depth, heads.len(),
{
    if heads.len() > 0 {
        let rest = heads.drop_first();
        assert forall|k: int| 0 <= k < rest.len() implies 0 <= #[trigger] rest[k] < emails.len() by {
            assert(rest[k] == heads[k + 1]);
        }
        lemma_in_list(emails, rest, depth);
        let s = subthreads(emails, heads, depth);
        let first = subthread(emails, heads[0], depth);
        if depth > 0 {
            let below = replies(emails, emails[heads[0]].message_id);
            lemma_replies(emails, emails[heads[0]].message_id);
            assert forall|k: int| 0 <= k < below.len() implies 0 <= #[trigger] below[k]
                < emails.len() by {
                assert(below.contains(below[k]));
            }
            lemma_in_list(emails, below, (depth - 1) as nat);
            let inner = subthreads(emails, below, (depth - 1) as nat);
            assert(first == seq![heads[0]] + inner);
        }
        assert forall|k: int| 0 <= k < s.len() implies 0 <= #[trigger] s[k] < emails.len() by {
            if k < first.len() {
                assert(s[k] == first[k]);
                if k > 0 {
                    let below = replies(emails, emails[heads[0]].message_id);
                    let inner = subthreads(emails, below, (depth - 1) as nat);
                    assert(first[k] == inner[k - 1]);
                }
            } else {
                assert(s[k] == subthreads(emails, rest, depth)[k - first.len()]);
            }
        }
    }
}

/// Inside the subthread of a message, each other message follows one that it answers.
proof fn lemma_follows_inside(emails: Seq<LoreEmailInfoView>, i: int, depth: nat, m: int) -> (p: int)
    requires
        0 <= i < emails.len(),
        0 < m < subthread(emails, i, depth).len(),
    ensures
        0 <= p < m,
        answers(emails, subthread(emails, i, depth)[m], subthread(emails, i, depth)[p]),
    decreases depth, 0nat,
{
    let below = replies(emails, emails[i].message_id);
    lemma_replies(emails, emails[i].message_id);
    assert forall|k: int| 0 <= k < below.len() implies 0 <= #[trigger] below[k] < emails.len() by {
        assert(below.contains(below[k]));
    }
    let s = subthread(emails, i, depth);
    let inner = subthreads(emails, below, (depth - 1) as nat);
    assert(s == seq![i] + inner);
    let (head, q) = lemma_follows_below(emails, below, (depth - 1) as nat, m - 1);
    assert(s[m] == inner[m - 1]);
    if head {
        assert(below.contains(s[m]));
        assert(s[0] == i);
        0
    } else {
        assert(s[q + 1] == inner[q]);
        q + 1
    }
}

proof fn lemma_follows_below(
    emails: Seq<LoreEmailInfoView>,
    heads: Seq<int>,
    depth: nat,
    m: int,
) -> (found: (bool, int))
    requires
        forall|k: int| 0 <= k < heads.len() ==> 0 <= #[trigger] heads[k] < emails.len(),
        0 <= m < subthreads(emails, heads, depth).len(),
    ensures
        found.0 ==> heads.contains(subthreads(emails, heads, depth)[m]),
        !found.0 ==> 0 <= found.1 < m && answers(
            emails,
            subthreads(emails, heads, depth)[m],
            subthreads(emails, heads, depth)[found.1],
        ),
    decreases depth, heads.len() + 1,
{
    let s = subthreads(emails, heads, depth);
    let first = subthread(emails, heads[0], depth);
    let rest = heads.drop_first();
    let after = subthreads(emails, rest, depth);
    assert(s == first + after);
    if m < first.len() {
        assert(s[m] == first[m]);
        if m == 0 {
            assert(first[0] == heads[0]);
            (true, 0)
        } else {
            let p = lemma_follows_inside(emails, heads[0], depth, m);
            assert(s[p] == first[p]);
            (false, p)
        }
    } else {
        assert forall|k: int| 0 <= k < rest.len() implies 0 <= #[trigger] rest[k] < emails.len() by {
            assert(rest[k] == heads[k + 1]);
        }
        let (head, q) = lemma_follows_below(emails, rest, depth, m - first.len());
        assert(s[m] == after[m - first.len()]);
        if head {
            let k = choose|k: int| 0 <= k < rest.len() && rest[k] == s[m];
            assert(heads[k + 1] == s[m]);
            (true, 0)
        } else {
            assert(s[q + first.len()] == after[q]);
            (false, q + first.len() as int)
        }
    }
}

/// The answered message comes first, and what stands between the two belongs to it.
proof fn lemma_behind_answered(emails: Seq<LoreEmailInfoView>, j: int, k: int)
    requires
        ids_differ(emails),
        0 <= j < thread_places(emails).len(),
        0 <= k < thread_places(emails).len(),
        answers(emails, thread_places(emails)[k], thread_places(emails)[j]),
    ensures
        j < k,
        forall|m: int|
            j < m <= k ==> exists|p: int|
                j <= p < m && answers(
                    emails,
                    #[trigger] thread_places(emails)[m],
                    #[trigger] thread_places(emails)[p],
                ),
{
    lemma_places(emails);
    let s = thread_places(emails);
    let heads = roots(emails);
    let d = lemma_block(emails, heads, emails.len(), j);
    let t = subthread(emails, s[j], d);
    let below = replies(emails, emails[s[j]].message_id);
    lemma_replies(emails, emails[s[j]].message_id);
    assert(below.contains(s[k]));
    let x = choose|x: int| 0 <= x < below.len() && below[x] == s[k];
    let inner = subthreads(emails, below, (d - 1) as nat);
    assert(t == seq![s[j]] + inner);
    assert(ends_within(emails, below[x], (d - 1) as nat));
    let at = lemma_heads_in_order(emails, below, (d - 1) as nat, x);
    assert(t[at + 1] == s[k]);
    assert(s.subrange(j, j + t.len())[at + 1] == s[j + at + 1]);
    assert(s[j + at + 1] == s[k]);
    assert(k == j + at + 1);
    assert forall|m: int| j < m <= k implies exists|p: int|
        j <= p < m && answers(emails, #[trigger] s[m], #[trigger] s[p]) by {
        assert(s[m] == s.subrange(j, j + t.len())[m - j]);
        let p = lemma_follows_inside(emails, s[j], d, m - j);
        assert(s[j + p] == s.subrange(j, j + t.len())[p]);
        assert(answers(emails, s[m], s[j + p]));
    }
}

proof fn lemma_replies_in_order(emails: Seq<LoreEmailInfoView>, p: int, a: int, b: int)
    requires
        ids_differ(emails),
        0 <= p < thread_places(emails).len(),
        0 <= a < b < thread_places(emails).len(),
        answers(emails, thread_places(emails)[a], thread_places(emails)[p]),
        answers(emails, thread_places(emails)[b], thread_places(emails)[p]),
    ensures
        not_older(emails[thread_places(emails)[b]], emails[thread_places(emails)[a]]),
{
    lemma_places(emails);
    let s = thread_places(emails);
    lemma_behind_answered(emails, p, a);
    lemma_behind_answered(emails, p, b);
    let d = lemma_block(emails, roots(emails), emails.len(), p);
    let t = subthread(emails, s[p], d);
    let id = emails[s[p]].message_id;
    let below = replies(emails, id);
    lemma_replies(emails, id);
    assert(below.contains(s[a]) && below.contains(s[b]));
    let x = choose|x: int| 0 <= x < below.len() && below[x] == s[a];
    let y = choose|y: int| 0 <= y < below.len() && below[y] == s[b];
    let inner = subthreads(emails, below, (d - 1) as nat);
    assert(t == seq![s[p]] + inner);
    assert(ends_within(emails, below[x], (d - 1) as nat));
    let u = lemma_heads_in_order(emails, below, (d - 1) as nat, x);
    let v = lemma_heads_in_order(emails, below, (d - 1) as nat, y);
    assert(s.subrange(p, p + t.len())[u + 1] == s[p + u + 1]);
    assert(s.subrange(p, p + t.len())[v + 1] == s[p + v + 1]);
    assert(s[p + u + 1] == s[a] && s[p + v + 1] == s[b]);
    assert(p + u + 1 == a && p + v + 1 == b);
    if y < x {
        lemma_longer(emails, below, (d - 1) as nat, y, x);
    }
    assert(x != y);
    law_replies_by_date(emails, s[p], x, y);
    lemma_not_older(
        emails[s[a]],
        emails[s[b]],
        crate::threads::dates_beside(emails, Some(id)),
    );
}

proof fn lemma_starts_in_order(emails: Seq<LoreEmailInfoView>, a: int, b: int)
    requires
        ids_differ(emails),
        0 <= a < b < thread_places(emails).len(),
        is_root(emails, thread_places(emails)[a]),
        is_root(emails, thread_places(emails)[b]),
    ensures
        not_older(emails[thread_places(emails)[b]], emails[thread_places(emails)[a]]),
{
    lemma_places(emails);
    let s = thread_places(emails);
    let heads = roots(emails);
    lemma_roots(emails);
    assert(heads.contains(s[a]) && heads.contains(s[b]));
    let x = choose|x: int| 0 <= x < heads.len() && heads[x] == s[a];
    let y = choose|y: int| 0 <= y < heads.len() && heads[y] == s[b];
    lemma_head_places(emails, heads, emails.len(), a, b, x, y);
    law_roots_by_date(emails, x, y);
    lemma_not_older(emails[s[a]], emails[s[b]], crate::threads::dates_beside(emails, None));
}

/// A list of messages, none with the id of another, is read as threads: the messages that
/// answer none of the list, and behind each what answers it, and nothing else.
pub proof fn law_read_as_threads(emails: Seq<LoreEmailInfoView>)
    requires
        ids_differ(emails),
    ensures
        stands_as_threads(thread_order(emails)),
        holds_threads(emails, thread_order(emails)),
{
    lemma_places(emails);
    let s = thread_places(emails);
    let shown = thread_order(emails);
    assert forall|j: int, k: int|
        0 <= j < shown.len() && 0 <= k < shown.len() && #[trigger] answers_at(
            shown,
            k,
            j,
        ) implies j < k by {
        lemma_behind_answered(emails, j, k);
    }
    assert forall|j: int, m: int, k: int|
        0 <= j < m < k < shown.len() && #[trigger] answers_at(shown, k, j) implies
        #[trigger] belongs(shown, j, m) by {
        lemma_behind_answered(emails, j, k);
        let p = choose|p: int|
            j <= p < m && answers(
                emails,
                #[trigger] thread_places(emails)[m],
                #[trigger] thread_places(emails)[p],
            );
        assert(answers_at(shown, m, p));
    }
    assert forall|p: int, a: int, b: int|
        0 <= p < shown.len() && 0 <= a < b < shown.len() && #[trigger] answers_at(shown, a, p)
            && #[trigger] answers_at(shown, b, p) implies not_older(shown[b], shown[a]) by {
        lemma_replies_in_order(emails, p, a, b);
    }
    assert forall|k: int| 0 <= k < shown.len() && #[trigger] answers_none(shown, k) implies is_root(
        emails,
        s[k],
    ) by {
        law_replies_follow(emails, k);
        if !is_root(emails, s[k]) {
            let j = choose|j: int| 0 <= j < k && #[trigger] answers(emails, s[k], s[j]);
            assert(answers_at(shown, k, j));
        }
    }
    assert forall|a: int, b: int|
        0 <= a < b < shown.len() && #[trigger] answers_none(shown, a) && #[trigger] answers_none(
            shown,
            b,
        ) implies not_older(shown[b], shown[a]) by {
        lemma_starts_in_order(emails, a, b);
    }
    assert forall|a: int, b: int| 0 <= a < b < shown.len() implies shown[a] != shown[b] by {
        assert(s[a] != s[b]);
        if s[a] < s[b] {
            assert(emails[s[a]].message_id != emails[s[b]].message_id);
        } else {
            assert(emails[s[b]].message_id != emails[s[a]].message_id);
        }
    }
    assert(shown.no_duplicates());
    assert forall|k: int| 0 <= k < shown.len() implies emails.contains(#[trigger] shown[k]) by {
        assert(emails[s[k]] == shown[k]);
    }
    assert forall|i: int| 0 <= i < emails.len() && #[trigger] answers_none(emails, i) implies
        shown.contains(emails[i]) by {
        assert(is_root(emails, i)) by {
            if let Some(parent) = emails[i].in_reply_to {
                assert forall|k: int| 0 <= k < emails.len() implies (
                #[trigger] emails[k]).message_id != parent by {
                    assert(!answers_at(emails, i, k));
                }
            }
        }
        assert(leads_to_root(emails, i, 0));
        law_rooted_emails_are_read(emails, i, 0);
        let q = choose|q: int| 0 <= q < s.len() && s[q] == i;
        assert(shown[q] == emails[i]);
    }
    assert forall|i: int, p: int|
        0 <= i < emails.len() && 0 <= p < emails.len() && #[trigger] answers_at(emails, i, p)
            && shown.contains(emails[p]) implies shown.contains(emails[i]) by {
        let j = choose|j: int| 0 <= j < shown.len() && shown[j] == emails[p];
        assert(emails[s[j]].message_id == emails[p].message_id);
        assert(s[j] == p) by {
            if s[j] < p {
                assert(emails[s[j]].message_id != emails[p].message_id);
            } else if p < s[j] {
                assert(emails[p].message_id != emails[s[j]].message_id);
            }
        }
        let d = lemma_block(emails, roots(emails), emails.len(), j);
        let t = subthread(emails, p, d);
        let below = replies(emails, emails[p].message_id);
        lemma_replies(emails, emails[p].message_id);
        assert(below.contains(i));
        let x = choose|x: int| 0 <= x < below.len() && below[x] == i;
        assert(ends_within(emails, below[x], (d - 1) as nat));
        let at = lemma_heads_in_order(emails, below, (d - 1) as nat, x);
        assert(t == seq![p] + subthreads(emails, below, (d - 1) as nat));
        assert(t[at + 1] == i);
        assert(s.subrange(j, j + t.len())[at + 1] == s[j + at + 1]);
        assert(shown[j + at + 1] == emails[i]);
    }
}

/// A list of messages behind a line, with the bodies, or the text of it without.
pub open spec fn listing(
    head: Seq<char>,
    order: Seq<LoreEmailInfoView>,
    full: bool,
    bodies: bool,
) -> LoreShowView {
    let entries = EntriesView { head, emails: order, numbered: true, full, tail: ""@ };
    if bodies {
        LoreShowView::Bodies(entries)
    } else {
        LoreShowView::Text(entries_text(entries, None))
    }
}

/// Whether `all` is what belongs to a message in an archive: the message, and what refers to
/// one of them, none twice.
pub open spec fn is_thread_of(
    all: Seq<LoreEmailInfoView>,
    archive: Archive,
    email: LoreEmailInfoView,
) -> bool {
    &&& all.len() > 0
    &&& all[0] == email
    &&& forall|i: int, j: int|
        0 <= i < j < all.len() ==> (#[trigger] all[i]).message_id != (
        #[trigger] all[j]).message_id
    &&& forall|k: int|
        0 < k < all.len() ==> exists|j: int|
            0 <= j < k && (archive.referring)((#[trigger] all[j]).message_id).contains(
                #[trigger] all[k],
            )
    &&& forall|i: int, k: int|
        0 <= i < all.len() && 0 <= k < (archive.referring)((#[trigger] all[i]).message_id).len()
            ==> exists|j: int|
            0 <= j < all.len() && (#[trigger] all[j]).message_id == (#[trigger] (
            archive.referring)(all[i].message_id)[k]).message_id
}

proof fn lemma_thread_of(email: LoreEmailInfoView, archive: Archive, known: Set<Seq<char>>)
    requires
        holds_only(archive, known),
        known.contains(email.message_id),
    ensures
        is_thread_of(gathered(seq![email], 0, archive, known.len()), archive, email),
        ids_differ(gathered(seq![email], 0, archive, known.len())),
{
    let all = gathered(seq![email], 0, archive, known.len());
    law_thread_is_closed(email, archive, known);
    assert forall|k: int| 0 < k < all.len() implies exists|j: int|
        0 <= j < k && (archive.referring)((#[trigger] all[j]).message_id).contains(
            #[trigger] all[k],
        ) by {
        assert(refers_back(all, archive, k));
    }
    assert forall|i: int, k: int|
        0 <= i < all.len() && 0 <= k < (archive.referring)(
            (#[trigger] all[i]).message_id,
        ).len() implies exists|j: int|
        0 <= j < all.len() && (#[trigger] all[j]).message_id == (#[trigger] (archive.referring)(
            all[i].message_id,
        )[k]).message_id by {
        assert(references_found(all, archive, i));
        assert(is_found(all, (archive.referring)(all[i].message_id)[k].message_id));
    }
}

/// Showing the replies to a message ends. Where there are some, it shows the message and all
/// that refers to it or to one of them, as threads; else it says that there are none.
pub proof fn law_replies_stand_as_threads(
    text: Seq<char>,
    bodies: bool,
    email: LoreEmailInfoView,
    archive: Archive,
    known: Set<Seq<char>>,
)
    requires
        holds_only(archive, known),
        (archive.message)(email.message_id) == Some(email),
    ensures
        exists|all: Seq<LoreEmailInfoView>, order: Seq<LoreEmailInfoView>| #[trigger]
            is_thread_of(all, archive, email) && #[trigger] holds_threads(all, order)
                && stands_as_threads(order) && ({
                let aim = Aim { whole: false, bodies };
                walk(
                    ThreadStepView::Message(text, aim, email.message_id),
                    archive,
                    known.len() + 1,
                ) matches ThreadStepView::Show(_, show) && (if all.len() > 1 {
                    show == listing(
                        "\n"@ + in_green(in_bold("Replies:"@)) + " Found "@ + decimal(all.len())
                            + " message(s) (including root):\n\n"@,
                        order,
                        false,
                        bodies,
                    )
                } else {
                    show == LoreShowView::Text(
                        "\n"@ + in_yellow("Info:"@) + " No replies found\n"@,
                    )
                })
            }),
{
    let aim = Aim { whole: false, bodies };
    let all = gathered(seq![email], 0, archive, known.len());
    lemma_thread_of(email, archive, known);
    law_replies_are_shown(aim, email, archive, known);
    law_read_as_threads(all);
    let order = thread_order(all);
    let start = ThreadStepView::Message(text, aim, email.message_id);
    let end = walk(start, archive, known.len() + 1);
    assert(end == walk(
        after_message(aim, email.message_id, Some(email)),
        archive,
        known.len(),
    ));
    assert(is_thread_of(all, archive, email) && holds_threads(all, order));
}

/// Showing the thread of a message ends, and shows as threads the message at which the thread
/// starts and all that refers to it or to one of them. Where going from answered message to
/// answered message comes to one that answers none that the archive holds, the thread starts
/// there.
pub proof fn law_thread_stands_as_threads(
    text: Seq<char>,
    bodies: bool,
    email: LoreEmailInfoView,
    archive: Archive,
    known: Set<Seq<char>>,
    steps: nat,
)
    requires
        holds_only(archive, known),
        (archive.message)(email.message_id) == Some(email),
    ensures
        exists|
            first: LoreEmailInfoView,
            all: Seq<LoreEmailInfoView>,
            order: Seq<LoreEmailInfoView>,
        | #[trigger]
            is_thread_of(all, archive, first) && #[trigger] holds_threads(all, order)
                && stands_as_threads(order) && ({
                let aim = Aim { whole: true, bodies };
                walk(
                    ThreadStepView::Message(text, aim, email.message_id),
                    archive,
                    2 * known.len() + 1,
                ) matches ThreadStepView::Show(_, show) && show == listing(
                    "\n"@ + in_green(in_bold("Thread:"@)) + " Found "@ + decimal(all.len())
                        + " message(s) in thread:\n\n"@,
                    order,
                    true,
                    bodies,
                )
            }) && (answered(email, archive, steps) matches Some(start) ==> starts_thread(
                start,
                archive,
            ) ==> first == start),
{
    let aim = Aim { whole: true, bodies };
    let up = UpView { aim, passed: seq![email.message_id], email };
    let first = top(up, archive, known.len());
    let all = gathered(seq![first], 0, archive, known.len());
    law_thread_is_shown(aim, email, archive, known);
    lemma_thread_of(first, archive, known);
    law_read_as_threads(all);
    let order = thread_order(all);
    let start = ThreadStepView::Message(text, aim, email.message_id);
    let end = walk(start, archive, 2 * known.len() + 1);
    assert(end == walk(
        after_message(aim, email.message_id, Some(email)),
        archive,
        2 * known.len(),
    ));
    if let Some(there) = answered(email, archive, steps) {
        if starts_thread(there, archive) {
            law_root_is_reached(aim, email, archive, known, steps);
        }
    }
    assert(is_thread_of(all, archive, first) && holds_threads(all, order));
}

} // verus!
