//! Email threads: who replies to whom, and the order in which a thread is read.

use vstd::hash_map::StringHashMap;
use vstd::hash_set::StringHashSet;
use vstd::prelude::*;

use crate::dates::{
    anchor, comes_after, date_before, date_key, is_anchor, is_date, lemma_anchor_unique, DateKey,
};
use crate::order::{
    arrange, keys_of, places, stable_order, text_less, text_side, Keyed, Side,
};
use crate::pattern::{is_earlier, parse_moment, rfc2822_moment};
use crate::text::same_text;
use crate::types::{emails_view, text_or_none, LoreEmailInfo, LoreEmailInfoView};

verus! {

/// Whether the email at `i` starts a thread: it replies to nothing, or to an
/// email that is not in the list.
pub open spec fn is_root(emails: Seq<LoreEmailInfoView>, i: int) -> bool {
    match emails[i].in_reply_to {
        None => true,
        Some(parent) => forall|k: int|
            0 <= k < emails.len() ==> (#[trigger] emails[k]).message_id != parent,
    }
}

/// What the emails that are read beside the email at `i` answer: none where they start
/// threads.
pub open spec fn level_of(emails: Seq<LoreEmailInfoView>, i: int) -> Option<Seq<char>> {
    if is_root(emails, i) {
        None
    } else {
        emails[i].in_reply_to
    }
}

/// The dates of the emails of a level.
pub open spec fn dates_beside(
    emails: Seq<LoreEmailInfoView>,
    level: Option<Seq<char>>,
) -> Set<Seq<char>> {
    Set::new(
        |date: Seq<char>|
            exists|j: int|
                0 <= j < emails.len() && (#[trigger] emails[j]).date == date && level_of(emails, j)
                    == level,
    )
}

/// The keys by which the dates of a list of emails are ordered, each among the dates of
/// the emails that are read beside it.
pub open spec fn date_keys(emails: Seq<LoreEmailInfoView>) -> Seq<Seq<Seq<int>>> {
    Seq::new(
        emails.len(),
        |i: int| date_key(emails[i].date, dates_beside(emails, level_of(emails, i))),
    )
}

/// The places of the emails from the first date to the last, emails of one date
/// as they stand in the list.
pub open spec fn by_date(emails: Seq<LoreEmailInfoView>) -> Seq<int> {
    stable_order(date_keys(emails))
}

/// The places of the emails from the first date to the last, emails of one date
/// from the end of the list to its start.
pub open spec fn by_date_from_end(emails: Seq<LoreEmailInfoView>) -> Seq<int> {
    stable_order(date_keys(emails).reverse()).map_values(|i: int| emails.len() - 1 - i)
}

/// The emails that start a thread, in the order in which they are read.
pub open spec fn roots(emails: Seq<LoreEmailInfoView>) -> Seq<int> {
    by_date_from_end(emails).filter(|i: int| is_root(emails, i))
}

/// The replies to the message `id`, in the order in which they are read.
pub open spec fn replies(emails: Seq<LoreEmailInfoView>, id: Seq<char>) -> Seq<int> {
    by_date(emails).filter(|i: int| emails[i].in_reply_to == Some(id))
}

/// The email at `i` and what replies to it, down to `depth` levels: an email
/// comes first, then each of its replies with what belongs to it.
pub open spec fn subthread(emails: Seq<LoreEmailInfoView>, i: int, depth: nat) -> Seq<int>
    decreases depth, 0nat,
{
    if depth == 0 {
        seq![]
    } else {
        seq![i] + subthreads(
            emails,
            replies(emails, emails[i].message_id),
            (depth - 1) as nat,
        )
    }
}

/// The subthreads of several emails, one after the other.
pub open spec fn subthreads(
    emails: Seq<LoreEmailInfoView>,
    heads: Seq<int>,
    depth: nat,
) -> Seq<int>
    decreases depth, heads.len() + 1,
{
    if heads.len() == 0 {
        seq![]
    } else {
        subthread(emails, heads[0], depth) + subthreads(emails, heads.drop_first(), depth)
    }
}

/// Whether the replies below the email at `i` end within `depth` levels.
pub open spec fn ends_within(emails: Seq<LoreEmailInfoView>, i: int, depth: nat) -> bool
    decreases depth,
{
    depth > 0 && forall|k: int|
        0 <= k < replies(emails, emails[i].message_id).len() ==> ends_within(
            emails,
            #[trigger] replies(emails, emails[i].message_id)[k],
            (depth - 1) as nat,
        )
}

/// Whether no thread leads back into itself: a chain of replies in which no email
/// occurs twice has at most as many levels as there are emails.
pub open spec fn threads_end(emails: Seq<LoreEmailInfoView>) -> bool {
    forall|k: int|
        0 <= k < roots(emails).len() ==> ends_within(
            emails,
            #[trigger] roots(emails)[k],
            emails.len(),
        )
}

/// The places of the emails in the order in which their threads are read.
pub open spec fn thread_places(emails: Seq<LoreEmailInfoView>) -> Seq<int> {
    subthreads(emails, roots(emails), emails.len())
}

/// The emails in the order in which their threads are read.
pub open spec fn thread_order(emails: Seq<LoreEmailInfoView>) -> Seq<LoreEmailInfoView> {
    thread_places(emails).map_values(|i: int| emails[i])
}

/// A subthread that ends does not change when it is followed further down.
pub proof fn lemma_deeper(emails: Seq<LoreEmailInfoView>, i: int, depth: nat, deeper: nat)
    requires
        ends_within(emails, i, depth),
        depth <= deeper,
    ensures
        ends_within(emails, i, deeper),
        subthread(emails, i, deeper) == subthread(emails, i, depth),
    decreases depth, 0nat,
{
    let below = replies(emails, emails[i].message_id);
    lemma_deeper_all(emails, below, (depth - 1) as nat, (deeper - 1) as nat);
}

/// Threads that end within a depth are the same at every greater depth.
pub proof fn lemma_deeper_all(
    emails: Seq<LoreEmailInfoView>,
    heads: Seq<int>,
    depth: nat,
    deeper: nat,
)
    requires
        forall|k: int| 0 <= k < heads.len() ==> ends_within(emails, #[trigger] heads[k], depth),
        depth <= deeper,
    ensures
        forall|k: int| 0 <= k < heads.len() ==> ends_within(emails, #[trigger] heads[k], deeper),
        subthreads(emails, heads, deeper) == subthreads(emails, heads, depth),
    decreases depth, heads.len() + 1,
{
    if heads.len() > 0 {
        let rest = heads.drop_first();
        assert(ends_within(emails, heads[0], depth));
        lemma_deeper(emails, heads[0], depth, deeper);
        assert forall|k: int| 0 <= k < rest.len() implies ends_within(
            emails,
            #[trigger] rest[k],
            depth,
        ) by {
            assert(rest[k] == heads[k + 1]);
        }
        lemma_deeper_all(emails, rest, depth, deeper);
        assert forall|k: int| 0 <= k < heads.len() implies ends_within(
            emails,
            #[trigger] heads[k],
            deeper,
        ) by {
            if k > 0 {
                assert(heads[k] == rest[k - 1]);
            }
        }
    }
}

proof fn lemma_subthreads_concat(
    emails: Seq<LoreEmailInfoView>,
    a: Seq<int>,
    b: Seq<int>,
    depth: nat,
)
    ensures
        subthreads(emails, a + b, depth) == subthreads(emails, a, depth) + subthreads(
            emails,
            b,
            depth,
        ),
    decreases a.len(),
{
    if a.len() == 0 {
        assert(a + b =~= b);
        assert(subthreads(emails, a, depth) + subthreads(emails, b, depth) =~= subthreads(
            emails,
            b,
            depth,
        ));
    } else {
        assert((a + b).drop_first() =~= a.drop_first() + b);
        lemma_subthreads_concat(emails, a.drop_first(), b, depth);
        assert(subthreads(emails, a + b, depth) =~= subthreads(emails, a, depth) + subthreads(
            emails,
            b,
            depth,
        ));
    }
}

/// The places of the replies to each message, in the order in which they are
/// read.
struct ReplyIndex {
    slots: StringHashMap<usize>,
    lists: Vec<Vec<usize>>,
}

impl ReplyIndex {
    /// What the index holds for a message.
    spec fn listed(&self, id: Seq<char>) -> Seq<int> {
        if self.slots@.contains_key(id) {
            places(self.lists@[self.slots@[id] as int]@)
        } else {
            seq![]
        }
    }

    spec fn wf(&self) -> bool {
        &&& forall|id: Seq<char>| #[trigger]
            self.slots@.contains_key(id) ==> self.slots@[id] < self.lists@.len()
        &&& forall|a: Seq<char>, b: Seq<char>|
            self.slots@.contains_key(a) && self.slots@.contains_key(b) && a != b
                ==> #[trigger] self.slots@[a] != #[trigger] self.slots@[b]
    }

    fn add(&mut self, id: &String, place: usize)
        requires
            old(self).wf(),
        ensures
            final(self).wf(),
            forall|other: Seq<char>| #[trigger]
                final(self).listed(other) == (if other == id@ {
                    old(self).listed(other).push(place as int)
                } else {
                    old(self).listed(other)
                }),
    {
        let slot: usize = match self.slots.get(id.as_str()) {
            Some(slot) => *slot,
            None => self.lists.len(),
        };
        if slot == self.lists.len() {
            let mut list: Vec<usize> = Vec::new();
            list.push(place);
            assert(places(list@) =~= seq![place as int]);
            assert(seq![place as int] =~= Seq::<int>::empty().push(place as int));
            self.lists.push(list);
            self.slots.insert(id.clone(), slot);
        } else {
            let ghost before = self.lists@[slot as int]@;
            self.lists[slot].push(place);
            assert(places(self.lists@[slot as int]@) =~= places(before).push(place as int));
        }
    }
}

/// Indexes the replies of a list of emails by the message that they answer.
fn index_replies(emails: &[LoreEmailInfo], order: &Vec<usize>) -> (index: ReplyIndex)
    requires
        places(order@) == by_date(emails_view(emails@)),
        forall|k: int| 0 <= k < order@.len() ==> #[trigger] order@[k] < emails@.len(),
    ensures
        index.wf(),
        forall|id: Seq<char>| #[trigger]
            index.listed(id) == replies(emails_view(emails@), id),
{
    let ghost all = emails_view(emails@);
    let mut index = ReplyIndex { slots: StringHashMap::new(), lists: Vec::new() };
    let mut k: usize = 0;
    proof {
        reveal(Seq::filter);
        assert(places(order@).take(0) =~= seq![]);
    }
    while k < order.len()
        invariant
            k <= order@.len(),
            all == emails_view(emails@),
            index.wf(),
            forall|k: int| 0 <= k < order@.len() ==> #[trigger] order@[k] < emails@.len(),
            forall|id: Seq<char>| #[trigger]
                index.listed(id) == places(order@).take(k as int).filter(
                    |i: int| all[i].in_reply_to == Some(id),
                ),
        decreases order@.len() - k,
    {
        let place: usize = order[k];
        proof {
            let prefix = places(order@).take(k as int);
            let longer = places(order@).take(k + 1);
            assert(longer =~= prefix.push(place as int));
            assert(longer.drop_last() =~= prefix);
            assert(longer.last() == place);
            assert(all[place as int].in_reply_to == text_or_none(
                emails@[place as int].in_reply_to,
            ));
            reveal(Seq::filter);
        }
        match &emails[place].in_reply_to {
            Some(parent) => {
                index.add(parent, place);
            },
            None => {},
        }
        k = k + 1;
    }
    assert(places(order@).take(k as int) =~= places(order@));
    index
}

/// The message ids of a list of emails.
pub open spec fn message_ids(emails: Seq<LoreEmailInfoView>) -> Set<Seq<char>> {
    Set::new(
        |id: Seq<char>|
            exists|k: int| 0 <= k < emails.len() && (#[trigger] emails[k]).message_id == id,
    )
}

fn collect_ids(emails: &[LoreEmailInfo]) -> (ids: StringHashSet)
    ensures
        ids@ == message_ids(emails_view(emails@)),
{
    let ghost all = emails_view(emails@);
    let mut ids = StringHashSet::new();
    let mut k: usize = 0;
    while k < emails.len()
        invariant
            k <= emails@.len(),
            all == emails_view(emails@),
            forall|id: Seq<char>| #[trigger]
                ids@.contains(id) <==> exists|j: int|
                    0 <= j < k && (#[trigger] all[j]).message_id == id,
        decreases emails@.len() - k,
    {
        ids.insert(emails[k].message_id.clone());
        assert(all[k as int].message_id == emails@[k as int].message_id@);
        k = k + 1;
    }
    assert(ids@ =~= message_ids(all));
    ids
}

/// Which emails start a thread.
fn mark_roots(emails: &[LoreEmailInfo]) -> (roots: Vec<bool>)
    ensures
        roots@.len() == emails@.len(),
        forall|k: int|
            0 <= k < emails@.len() ==> #[trigger] roots@[k] == is_root(emails_view(emails@), k),
{
    let ghost all = emails_view(emails@);
    let ids = collect_ids(emails);
    let mut roots: Vec<bool> = Vec::new();
    let mut k: usize = 0;
    while k < emails.len()
        invariant
            k <= emails@.len(),
            all == emails_view(emails@),
            ids@ == message_ids(all),
            roots@.len() == k,
            forall|j: int| 0 <= j < k ==> #[trigger] roots@[j] == is_root(all, j),
        decreases emails@.len() - k,
    {
        assert(all[k as int].in_reply_to == text_or_none(emails@[k as int].in_reply_to));
        let root: bool = match &emails[k].in_reply_to {
            None => true,
            Some(parent) => !ids.contains(parent.as_str()),
        };
        assert(root == is_root(all, k as int));
        roots.push(root);
        k = k + 1;
    }
    roots
}

/// Whether two emails are read beside each other.
fn same_level(emails: &[LoreEmailInfo], roots: &Vec<bool>, i: usize, j: usize) -> (same: bool)
    requires
        i < emails@.len(),
        j < emails@.len(),
        roots@.len() == emails@.len(),
        forall|k: int|
            0 <= k < emails@.len() ==> #[trigger] roots@[k] == is_root(emails_view(emails@), k),
    ensures
        same == (level_of(emails_view(emails@), i as int) == level_of(
            emails_view(emails@),
            j as int,
        )),
{
    let ghost all = emails_view(emails@);
    assert(all[i as int].in_reply_to == text_or_none(emails@[i as int].in_reply_to));
    assert(all[j as int].in_reply_to == text_or_none(emails@[j as int].in_reply_to));
    if roots[i] || roots[j] {
        roots[i] && roots[j]
    } else {
        match (&emails[i].in_reply_to, &emails[j].in_reply_to) {
            (Some(a), Some(b)) => same_text(a.as_str(), b.as_str()),
            _ => true,
        }
    }
}

/// Whether one date comes before another; both are dates, with these moments.
fn is_date_before(a: (i64, u32), x: &str, b: (i64, u32), y: &str) -> (yes: bool)
    requires
        rfc2822_moment(x@) == Some(a),
        rfc2822_moment(y@) == Some(b),
    ensures
        yes == date_before(x@, y@),
{
    if a.0 == b.0 && a.1 == b.1 {
        match text_side(x, y) {
            Side::Before => true,
            _ => false,
        }
    } else {
        is_earlier(a, b)
    }
}

/// The place of the first date whose text comes after that of the email at `at`, among
/// those read beside it.
fn find_anchor(
    emails: &[LoreEmailInfo],
    roots: &Vec<bool>,
    moments: &Vec<Option<(i64, u32)>>,
    at: usize,
) -> (found: Option<usize>)
    requires
        at < emails@.len(),
        roots@.len() == emails@.len(),
        moments@.len() == emails@.len(),
        forall|k: int|
            0 <= k < emails@.len() ==> #[trigger] roots@[k] == is_root(emails_view(emails@), k),
        forall|k: int|
            0 <= k < emails@.len() ==> #[trigger] moments@[k] == rfc2822_moment(
                emails_view(emails@)[k].date,
            ),
    ensures
        ({
            let all = emails_view(emails@);
            let beside = dates_beside(all, level_of(all, at as int));
            match found {
                Some(p) => p < emails@.len() && moments@[p as int] is Some && anchor(
                    all[at as int].date,
                    beside,
                ) == Some(all[p as int].date),
                None => anchor(all[at as int].date, beside) is None,
            }
        }),
{
    let ghost all = emails_view(emails@);
    let ghost level = level_of(all, at as int);
    let ghost beside = dates_beside(all, level);
    let ghost text = all[at as int].date;
    let mut found: Option<usize> = None;
    let mut k: usize = 0;
    while k < emails.len()
        invariant
            k <= emails@.len(),
            at < emails@.len(),
            all == emails_view(emails@),
            level == level_of(all, at as int),
            beside == dates_beside(all, level),
            text == all[at as int].date,
            roots@.len() == emails@.len(),
            moments@.len() == emails@.len(),
            forall|k: int|
                0 <= k < emails@.len() ==> #[trigger] roots@[k] == is_root(
                    emails_view(emails@),
                    k,
                ),
            forall|k: int|
                0 <= k < emails@.len() ==> #[trigger] moments@[k] == rfc2822_moment(
                    emails_view(emails@)[k].date,
                ),
            found matches Some(p) ==> p < k && comes_after(all[p as int].date, text, beside),
            forall|j: int|
                0 <= j < k && level_of(all, j) == level && is_date((#[trigger] all[j]).date)
                    && text_less(text, all[j].date) ==> (found matches Some(p)
                    && !date_before(all[j].date, all[p as int].date)),
        decreases emails@.len() - k,
    {
        let ghost before = found;
        assert(all[k as int].date == emails@[k as int].date@);
        assert(text == emails@[at as int].date@);
        if let Some(moment) = moments[k] {
            let after = match text_side(emails[at].date.as_str(), emails[k].date.as_str()) {
                Side::Before => true,
                _ => false,
            };
            if after && same_level(emails, roots, at, k) {
                proof {
                    assert(beside.contains(all[k as int].date));
                    assert(comes_after(all[k as int].date, text, beside));
                    lemma_not_before_itself(all[k as int].date);
                }
                match found {
                    None => {
                        found = Some(k);
                    },
                    Some(p) => {
                        assert(all[p as int].date == emails@[p as int].date@);
                        if let Some(first) = moments[p] {
                            if is_date_before(
                                moment,
                                emails[k].date.as_str(),
                                first,
                                emails[p].date.as_str(),
                            ) {
                                proof {
                                    lemma_still_first(all, k as int, p as int, text, level);
                                }
                                found = Some(k);
                            }
                        }
                    },
                }
            }
        }
        k = k + 1;
    }
    proof {
        match found {
            Some(p) => {
                let date = all[p as int].date;
                assert forall|d: Seq<char>| #[trigger] comes_after(
                    d,
                    text,
                    beside,
                ) implies !date_before(d, date) by {
                    let j = choose|j: int|
                        0 <= j < all.len() && (#[trigger] all[j]).date == d && level_of(all, j)
                            == level;
                    assert(is_date(all[j].date));
                }
                assert(is_anchor(date, text, beside));
                lemma_anchor_unique(date, text, beside);
                assert(is_date(all[p as int].date));
            },
            None => {
                assert forall|d: Seq<char>| !is_anchor(d, text, beside) by {
                    if comes_after(d, text, beside) {
                        let j = choose|j: int|
                            0 <= j < all.len() && (#[trigger] all[j]).date == d && level_of(
                                all,
                                j,
                            ) == level;
                        assert(is_date(all[j].date));
                    }
                }
            },
        }
    }
    found
}

/// No date comes before itself.
proof fn lemma_not_before_itself(date: Seq<char>)
    ensures
        !date_before(date, date),
{
    crate::order::lemma_run_less_total(
        crate::order::text_run(date),
        crate::order::text_run(date),
    );
}

/// What is not before a date is not before one that comes before it.
proof fn lemma_still_first(
    emails: Seq<LoreEmailInfoView>,
    k: int,
    p: int,
    text: Seq<char>,
    level: Option<Seq<char>>,
)
    requires
        date_before(emails[k].date, emails[p].date),
        forall|j: int|
            0 <= j < k && level_of(emails, j) == level && is_date((#[trigger] emails[j]).date)
                && text_less(text, emails[j].date) ==> !date_before(emails[j].date, emails[p].date),
    ensures
        forall|j: int|
            0 <= j < k && level_of(emails, j) == level && is_date((#[trigger] emails[j]).date)
                && text_less(text, emails[j].date) ==> !date_before(emails[j].date, emails[k].date),
{
    assert forall|j: int|
        0 <= j < k && level_of(emails, j) == level && is_date((#[trigger] emails[j]).date)
            && text_less(text, emails[j].date) implies !date_before(
        emails[j].date,
        emails[k].date,
    ) by {
        if date_before(emails[j].date, emails[k].date) {
            crate::dates::lemma_date_transitive(emails[j].date, emails[k].date, emails[p].date);
        }
    }
}

/// The keys by which the dates of emails are ordered.
fn place_dates(emails: &[LoreEmailInfo]) -> (keys: Vec<DateKey<'_>>)
    ensures
        keys_of(keys@) == date_keys(emails_view(emails@)),
{
    let ghost all = emails_view(emails@);
    let roots = mark_roots(emails);
    let mut moments: Vec<Option<(i64, u32)>> = Vec::new();
    let mut k: usize = 0;
    while k < emails.len()
        invariant
            k <= emails@.len(),
            all == emails_view(emails@),
            moments@.len() == k,
            forall|j: int| 0 <= j < k ==> #[trigger] moments@[j] == rfc2822_moment(all[j].date),
        decreases emails@.len() - k,
    {
        moments.push(parse_moment(emails[k].date.as_str()));
        k = k + 1;
    }
    let mut keys: Vec<DateKey<'_>> = Vec::new();
    let mut i: usize = 0;
    while i < emails.len()
        invariant
            i <= emails@.len(),
            all == emails_view(emails@),
            roots@.len() == emails@.len(),
            moments@.len() == emails@.len(),
            forall|k: int| 0 <= k < emails@.len() ==> #[trigger] roots@[k] == is_root(all, k),
            forall|k: int|
                0 <= k < emails@.len() ==> #[trigger] moments@[k] == rfc2822_moment(all[k].date),
            keys@.len() == i,
            forall|j: int| 0 <= j < i ==> (#[trigger] keys@[j]).key() == date_keys(all)[j],
        decreases emails@.len() - i,
    {
        let text = emails[i].date.as_str();
        let key = match moments[i] {
            Some(moment) => DateKey { date: Some((moment, text)), own: true, text },
            None => match find_anchor(emails, &roots, &moments, i) {
                Some(p) => match moments[p] {
                    Some(moment) => DateKey {
                        date: Some((moment, emails[p].date.as_str())),
                        own: false,
                        text,
                    },
                    None => DateKey { date: None, own: false, text },
                },
                None => DateKey { date: None, own: false, text },
            },
        };
        assert(key.key() == date_keys(all)[i as int]);
        keys.push(key);
        i = i + 1;
    }
    assert(keys_of(keys@) =~= date_keys(all));
    keys
}

/// The places of the emails from the first date to the last, emails of one date
/// as they stand in the list.
fn order_by_date(emails: &[LoreEmailInfo]) -> (order: Vec<usize>)
    ensures
        places(order@) == by_date(emails_view(emails@)),
        forall|k: int| 0 <= k < order@.len() ==> #[trigger] order@[k] < emails@.len(),
{
    let keys = place_dates(emails);
    assert(keys_of(keys@).len() == keys@.len());
    let order = arrange(&keys);
    assert forall|k: int| 0 <= k < order@.len() implies #[trigger] order@[k] < emails@.len() by {
        assert(places(order@)[k] == order@[k]);
    }
    order
}

/// The places of the emails from the first date to the last, emails of one date
/// from the end of the list to its start.
fn order_by_date_from_end(emails: &[LoreEmailInfo]) -> (order: Vec<usize>)
    ensures
        places(order@) == by_date_from_end(emails_view(emails@)),
        forall|k: int| 0 <= k < order@.len() ==> #[trigger] order@[k] < emails@.len(),
{
    let ghost all = emails_view(emails@);
    let mut keys = place_dates(emails);
    let ghost forwards = keys@;
    assert(keys_of(keys@).len() == keys@.len());
    let mut turned: Vec<DateKey<'_>> = Vec::new();
    while keys.len() > 0
        invariant
            keys@.len() + turned@.len() == forwards.len(),
            keys@ == forwards.take(keys@.len() as int),
            forall|j: int|
                0 <= j < turned@.len() ==> #[trigger] turned@[j] == forwards[forwards.len() - 1
                    - j],
        decreases keys@.len(),
    {
        let ghost before = keys@;
        match keys.pop() {
            Some(key) => {
                assert(key == before[before.len() - 1]);
                turned.push(key);
                assert(keys@ =~= forwards.take(keys@.len() as int));
            },
            None => {},
        }
    }
    assert(keys_of(turned@) =~= date_keys(all).reverse()) by {
        assert forall|j: int| 0 <= j < turned@.len() implies keys_of(turned@)[j] == date_keys(
            all,
        ).reverse()[j] by {
            assert(keys_of(forwards)[forwards.len() - 1 - j] == forwards[forwards.len() - 1
                - j].key());
        }
    }
    let back = arrange(&turned);
    let mut order: Vec<usize> = Vec::new();
    let mut j: usize = 0;
    while j < back.len()
        invariant
            j <= back@.len(),
            order@.len() == j,
            forall|i: int| 0 <= i < back@.len() ==> #[trigger] places(back@)[i] < emails@.len(),
            forall|i: int| 0 <= i < j ==> #[trigger] order@[i] == emails@.len() - 1 - back@[i],
        decreases back@.len() - j,
    {
        assert(places(back@)[j as int] == back@[j as int]);
        order.push(emails.len() - 1 - back[j]);
        j = j + 1;
    }
    assert(places(order@) =~= by_date_from_end(all));
    order
}

/// The places on a stack, from the top down.
spec fn heads(stack: Seq<usize>) -> Seq<int> {
    places(stack).reverse()
}

/// The emails that start a thread, with the first to be read on top.
fn root_stack(emails: &[LoreEmailInfo]) -> (stack: Vec<usize>)
    ensures
        heads(stack@) == roots(emails_view(emails@)),
        forall|k: int| 0 <= k < stack@.len() ==> #[trigger] stack@[k] < emails@.len(),
{
    let ghost all = emails_view(emails@);
    let starts = mark_roots(emails);
    let order = order_by_date_from_end(emails);
    let mut found: Vec<usize> = Vec::new();
    let mut k: usize = 0;
    proof {
        reveal(Seq::filter);
        assert(places(order@).take(0) =~= seq![]);
        assert(places(found@) =~= seq![]);
    }
    while k < order.len()
        invariant
            k <= order@.len(),
            all == emails_view(emails@),
            starts@.len() == emails@.len(),
            forall|k: int| 0 <= k < emails@.len() ==> #[trigger] starts@[k] == is_root(all, k),
            forall|k: int| 0 <= k < order@.len() ==> #[trigger] order@[k] < emails@.len(),
            forall|k: int| 0 <= k < found@.len() ==> #[trigger] found@[k] < emails@.len(),
            places(found@) == places(order@).take(k as int).filter(|i: int| is_root(all, i)),
        decreases order@.len() - k,
    {
        let place: usize = order[k];
        let root: bool = starts[place];
        let ghost before = places(found@);
        proof {
            let prefix = places(order@).take(k as int);
            let longer = places(order@).take(k + 1);
            assert(longer.drop_last() =~= prefix);
            assert(longer.last() == place);
            reveal(Seq::filter);
        }
        if root {
            found.push(place);
            assert(places(found@) =~= before.push(place as int));
        }
        k = k + 1;
    }
    assert(places(order@).take(k as int) =~= places(order@));
    let mut stack: Vec<usize> = Vec::new();
    let mut j: usize = found.len();
    while j > 0
        invariant
            j <= found@.len(),
            stack@.len() == found@.len() - j,
            forall|k: int| 0 <= k < found@.len() ==> #[trigger] found@[k] < emails@.len(),
            forall|i: int| 0 <= i < stack@.len() ==> #[trigger] stack@[i] == found@[found@.len() - 1 - i],
        decreases j,
    {
        j = j - 1;
        stack.push(found[j]);
    }
    assert(heads(stack@) =~= places(found@));
    stack
}

/// Puts places on top of a stack, the first of them topmost.
fn push_places(stack: &mut Vec<usize>, list: &Vec<usize>, count: usize)
    requires
        forall|k: int| 0 <= k < old(stack)@.len() ==> #[trigger] old(stack)@[k] < count,
        forall|k: int| 0 <= k < list@.len() ==> #[trigger] list@[k] < count,
    ensures
        heads(final(stack)@) == places(list@) + heads(old(stack)@),
        forall|k: int| 0 <= k < final(stack)@.len() ==> #[trigger] final(stack)@[k] < count,
{
    let ghost rest = heads(stack@);
    let ghost all = places(list@);
    let mut j: usize = list.len();
    assert(all.skip(all.len() as int) + rest =~= rest);
    while j > 0
        invariant
            j <= list@.len(),
            all == places(list@),
            forall|k: int| 0 <= k < list@.len() ==> #[trigger] list@[k] < count,
            forall|k: int| 0 <= k < stack@.len() ==> #[trigger] stack@[k] < count,
            heads(stack@) == all.skip(j as int) + rest,
        decreases j,
    {
        j = j - 1;
        let ghost before = stack@;
        assert(all[j as int] == list@[j as int]);
        stack.push(list[j]);
        assert(heads(stack@) =~= seq![all[j as int]] + heads(before));
        assert(all.skip(j as int) =~= seq![all[j as int]] + all.skip(j + 1));
        assert(heads(stack@) =~= all.skip(j as int) + rest);
    }
    assert(all.skip(0) =~= all);
}

/// To read threads is to read the first email, then the replies to it before the rest.
proof fn lemma_read_first(
    emails: Seq<LoreEmailInfoView>,
    first: int,
    rest: Seq<int>,
    depth: nat,
)
    requires
        ends_within(emails, first, depth),
        forall|k: int| 0 <= k < rest.len() ==> ends_within(emails, #[trigger] rest[k], depth),
    ensures
        ({
            let below = replies(emails, emails[first].message_id);
            &&& subthreads(emails, seq![first] + rest, depth) == seq![first] + subthreads(
                emails,
                below + rest,
                depth,
            )
            &&& forall|k: int|
                0 <= k < (below + rest).len() ==> ends_within(
                    emails,
                    #[trigger] (below + rest)[k],
                    depth,
                )
        }),
{
    let below = replies(emails, emails[first].message_id);
    let pending = seq![first] + rest;
    assert(pending.drop_first() =~= rest);
    lemma_deeper_all(emails, below, (depth - 1) as nat, depth);
    lemma_subthreads_concat(emails, below, rest, depth);
    assert(subthread(emails, first, depth) == seq![first] + subthreads(emails, below, depth));
    assert(subthreads(emails, pending, depth) == subthread(emails, first, depth) + subthreads(
        emails,
        rest,
        depth,
    ));
    assert(subthreads(emails, pending, depth) =~= seq![first] + subthreads(
        emails,
        below + rest,
        depth,
    ));
    assert forall|k: int| 0 <= k < (below + rest).len() implies ends_within(
        emails,
        #[trigger] (below + rest)[k],
        depth,
    ) by {
        if k < below.len() {
            assert(ends_within(emails, below[k], depth));
        } else {
            assert((below + rest)[k] == rest[k - below.len()]);
        }
    }
}

/// The emails in the order in which their threads are read: each email before
/// the replies to it, and the replies to one email by date.
pub fn sort_emails_by_thread_order(emails: &[LoreEmailInfo]) -> (sorted: Vec<LoreEmailInfo>)
    requires
        threads_end(emails_view(emails@)),
    ensures
        emails_view(sorted@) == thread_order(emails_view(emails@)),
{
    let ghost all = emails_view(emails@);
    let ghost depth = all.len();
    let order = order_by_date(emails);
    let index = index_replies(emails, &order);
    let mut stack = root_stack(emails);
    let mut sorted: Vec<LoreEmailInfo> = Vec::new();
    let ghost mut read: Seq<int> = seq![];
    proof {
        assert(read + subthreads(all, roots(all), depth) =~= thread_places(all));
        assert(emails_view(sorted@) =~= read.map_values(|i: int| all[i]));
        assert forall|k: int| 0 <= k < heads(stack@).len() implies ends_within(
            all,
            #[trigger] heads(stack@)[k],
            depth,
        ) by {
            assert(ends_within(all, roots(all)[k], depth));
        }
    }
    while stack.len() > 0
        invariant
            all == emails_view(emails@),
            depth == all.len(),
            index.wf(),
            forall|id: Seq<char>| #[trigger] index.listed(id) == replies(all, id),
            forall|k: int| 0 <= k < stack@.len() ==> #[trigger] stack@[k] < emails@.len(),
            forall|k: int|
                0 <= k < heads(stack@).len() ==> ends_within(
                    all,
                    #[trigger] heads(stack@)[k],
                    depth,
                ),
            read + subthreads(all, heads(stack@), depth) == thread_places(all),
            emails_view(sorted@) == read.map_values(|i: int| all[i]),
        decreases subthreads(all, heads(stack@), depth).len(),
    {
        let ghost pending = heads(stack@);
        let last = stack.len() - 1;
        let place: usize = stack[last];
        stack.truncate(last);
        let ghost rest = heads(stack@);
        let ghost below = replies(all, all[place as int].message_id);
        proof {
            assert(pending[0] == place);
            assert(pending =~= seq![place as int] + rest);
            assert(ends_within(all, pending[0], depth));
            assert forall|k: int| 0 <= k < rest.len() implies ends_within(
                all,
                #[trigger] rest[k],
                depth,
            ) by {
                assert(rest[k] == pending[k + 1]);
            }
            lemma_read_first(all, place as int, rest, depth);
            lemma_replies_in_range(all, all[place as int].message_id);
            assert(all[place as int].message_id == emails@[place as int].message_id@);
        }
        let ghost listed = emails_view(sorted@);
        sorted.push(emails[place].copied());
        proof {
            assert(emails_view(sorted@) =~= listed.push(all[place as int]));
            assert(read.push(place as int).map_values(|i: int| all[i]) =~= read.map_values(
                |i: int| all[i],
            ).push(all[place as int]));
            read = read.push(place as int);
        }
        match index.slots.get(emails[place].message_id.as_str()) {
            Some(slot) => {
                let list = &index.lists[*slot];
                assert(index.listed(all[place as int].message_id) == places(list@));
                assert forall|k: int| 0 <= k < list@.len() implies #[trigger] list@[k]
                    < emails@.len() by {
                    assert(below[k] == list@[k]);
                }
                push_places(&mut stack, list, emails.len());
            },
            None => {
                assert(index.listed(all[place as int].message_id) =~= seq![]);
                assert(below + rest =~= rest);
            },
        }
        proof {
            assert(heads(stack@) == below + rest);
            let tail = subthreads(all, below + rest, depth);
            assert(read + tail =~= thread_places(all));
        }
    }
    proof {
        assert(heads(stack@) =~= seq![]);
        assert(read + subthreads(all, heads(stack@), depth) =~= read);
    }
    sorted
}

proof fn lemma_replies_in_range(emails: Seq<LoreEmailInfoView>, id: Seq<char>)
    ensures
        forall|k: int|
            0 <= k < replies(emails, id).len() ==> 0 <= #[trigger] replies(emails, id)[k]
                < emails.len(),
        forall|k: int|
            0 <= k < replies(emails, id).len() ==> emails[#[trigger] replies(
                emails,
                id,
            )[k]].in_reply_to == Some(id),
{
    let order = by_date(emails);
    crate::order::lemma_stable_order_exists(date_keys(emails));
    let pred = |i: int| emails[i].in_reply_to == Some(id);
    assert forall|k: int| 0 <= k < replies(emails, id).len() implies 0 <= #[trigger] replies(
        emails,
        id,
    )[k] < emails.len() && emails[replies(emails, id)[k]].in_reply_to == Some(id) by {
        order.lemma_filter_contains_rev(pred, replies(emails, id)[k]);
        assert(order.contains(replies(emails, id)[k]));
        assert(pred(replies(emails, id)[k]));
    }
}

} // verus!
