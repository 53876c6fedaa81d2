//! What holds of every walk through a thread.

use vstd::prelude::*;

use crate::lore_threads::{
    after_answered, after_message, after_referring, go_down, go_up, is_found, lemma_unseen,
    walk_shown, with_unseen, Aim, DownView, ThreadStepView, UpView,
};
use crate::thread_laws::ids_differ;
use crate::types::LoreEmailInfoView;

verus! {

/// An archive: the message of an id, and the messages that refer to it.
pub struct Archive {
    pub message: spec_fn(Seq<char>) -> Option<LoreEmailInfoView>,
    pub referring: spec_fn(Seq<char>) -> Seq<LoreEmailInfoView>,
}

/// Whether an archive gives a message under its own id, and holds no other ids than
/// `known`.
pub open spec fn holds_only(archive: Archive, known: Set<Seq<char>>) -> bool {
    &&& known.finite()
    &&& forall|id: Seq<char>|
        (#[trigger] (archive.message)(id)) matches Some(email) ==> email.message_id == id
            && known.contains(id)
    &&& forall|id: Seq<char>, k: int|
        0 <= k < (archive.referring)(id).len() ==> known.contains(
            (#[trigger] (archive.referring)(id)[k]).message_id,
        )
}

/// A walk with the archive's answers, up to `fuel` of them.
pub open spec fn walk(step: ThreadStepView, archive: Archive, fuel: nat) -> ThreadStepView
    decreases fuel,
{
    if fuel == 0 {
        step
    } else {
        let rest = (fuel - 1) as nat;
        match step {
            ThreadStepView::Message(text, aim, id) => walk(
                after_message(aim, id, (archive.message)(id)),
                archive,
                rest,
            ),
            ThreadStepView::Answered(up) => match up.email.in_reply_to {
                Some(id) => walk(after_answered(up, (archive.message)(id)), archive, rest),
                None => step,
            },
            ThreadStepView::Referring(text, down) => walk(
                after_referring(
                    down,
                    (archive.referring)(down.emails[down.at as int].message_id),
                ),
                archive,
                rest,
            ),
            ThreadStepView::Show(text, show) => step,
        }
    }
}

/// The message that a walk up reaches, within `fuel` answers.
pub open spec fn top(up: UpView, archive: Archive, fuel: nat) -> LoreEmailInfoView
    decreases fuel,
{
    if fuel == 0 || !(go_up(up) is Answered) {
        up.email
    } else {
        match (archive.message)(up.email.in_reply_to->0) {
            Some(email) => top(
                UpView { passed: up.passed.push(email.message_id), email, ..up },
                archive,
                (fuel - 1) as nat,
            ),
            None => up.email,
        }
    }
}

/// The messages that a walk down finds, within `fuel` answers.
pub open spec fn gathered(
    emails: Seq<LoreEmailInfoView>,
    at: nat,
    archive: Archive,
    fuel: nat,
) -> Seq<LoreEmailInfoView>
    decreases fuel,
{
    if fuel == 0 || at >= emails.len() {
        emails
    } else {
        gathered(
            with_unseen(emails, (archive.referring)(emails[at as int].message_id)),
            at + 1,
            archive,
            (fuel - 1) as nat,
        )
    }
}

/// Whether a message was found because it refers to one that stands before it.
pub open spec fn refers_back(
    emails: Seq<LoreEmailInfoView>,
    archive: Archive,
    k: int,
) -> bool {
    exists|j: int|
        0 <= j < k && (archive.referring)((#[trigger] emails[j]).message_id).contains(emails[k])
}

/// Whether all that refers to the message at `i` was found.
pub open spec fn references_found(
    emails: Seq<LoreEmailInfoView>,
    archive: Archive,
    i: int,
) -> bool {
    forall|k: int|
        0 <= k < (archive.referring)(emails[i].message_id).len() ==> is_found(
            emails,
            (#[trigger] (archive.referring)(emails[i].message_id)[k]).message_id,
        )
}

/// Whether the ids of the messages are known.
pub open spec fn ids_known(emails: Seq<LoreEmailInfoView>, known: Set<Seq<char>>) -> bool {
    forall|k: int| 0 <= k < emails.len() ==> known.contains((#[trigger] emails[k]).message_id)
}

proof fn lemma_distinct_fit(list: Seq<Seq<char>>, known: Set<Seq<char>>)
    requires
        list.no_duplicates(),
        known.finite(),
        forall|k: int| 0 <= k < list.len() ==> known.contains(#[trigger] list[k]),
    ensures
        list.len() <= known.len(),
{
    list.unique_seq_to_set();
    assert(list.to_set().subset_of(known));
    vstd::set_lib::lemma_len_subset(list.to_set(), known);
}

proof fn lemma_ids_fit(emails: Seq<LoreEmailInfoView>, known: Set<Seq<char>>)
    requires
        ids_differ(emails),
        known.finite(),
        ids_known(emails, known),
    ensures
        emails.len() <= known.len(),
{
    let ids = emails.map_values(|email: LoreEmailInfoView| email.message_id);
    assert(ids.no_duplicates()) by {
        assert forall|i: int, j: int| 0 <= i < j < ids.len() implies ids[i] != ids[j] by {
            assert(emails[i].message_id != emails[j].message_id);
        }
    }
    assert forall|k: int| 0 <= k < ids.len() implies known.contains(#[trigger] ids[k]) by {
        assert(known.contains(emails[k].message_id));
    }
    lemma_distinct_fit(ids, known);
}

/// What adding messages keeps and brings.
proof fn lemma_added(emails: Seq<LoreEmailInfoView>, more: Seq<LoreEmailInfoView>)
    ensures
        emails.len() <= with_unseen(emails, more).len(),
        forall|k: int|
            0 <= k < emails.len() ==> #[trigger] with_unseen(emails, more)[k] == emails[k],
        forall|k: int|
            emails.len() <= k < with_unseen(emails, more).len() ==> more.contains(
                #[trigger] with_unseen(emails, more)[k],
            ),
        forall|k: int|
            0 <= k < more.len() ==> is_found(
                with_unseen(emails, more),
                (#[trigger] more[k]).message_id,
            ),
    decreases more.len(),
{
    if more.len() > 0 {
        let fewer = more.drop_last();
        let before = with_unseen(emails, fewer);
        let all = with_unseen(emails, more);
        lemma_added(emails, fewer);
        assert forall|k: int| emails.len() <= k < all.len() implies more.contains(
            #[trigger] all[k],
        ) by {
            if k < before.len() {
                assert(fewer.contains(before[k]));
                let n = choose|n: int| 0 <= n < fewer.len() && fewer[n] == before[k];
                assert(more[n] == all[k]);
            } else {
                assert(more[more.len() - 1] == all[k]);
            }
        }
        assert forall|k: int| 0 <= k < more.len() implies is_found(
            all,
            (#[trigger] more[k]).message_id,
        ) by {
            if k < fewer.len() {
                assert(is_found(before, fewer[k].message_id));
                let n = choose|n: int|
                    0 <= n < before.len() && (#[trigger] before[n]).message_id
                        == fewer[k].message_id;
                assert(all[n] == before[n]);
            } else if is_found(before, more.last().message_id) {
            } else {
                assert(all[before.len() as int] == more.last());
            }
        }
    }
}

/// What holds of the messages that a walk down has found before it asks for those that
/// refer to the one at `at`.
spec fn half_way(
    start: Seq<LoreEmailInfoView>,
    emails: Seq<LoreEmailInfoView>,
    at: nat,
    archive: Archive,
) -> bool {
    &&& start.len() <= emails.len()
    &&& forall|k: int| 0 <= k < start.len() ==> #[trigger] emails[k] == start[k]
    &&& forall|i: int|
        0 <= i < at && i < emails.len() ==> #[trigger] references_found(emails, archive, i)
    &&& forall|k: int|
        start.len() <= k < emails.len() ==> #[trigger] refers_back(emails, archive, k)
}

proof fn lemma_half_way(
    start: Seq<LoreEmailInfoView>,
    emails: Seq<LoreEmailInfoView>,
    at: nat,
    archive: Archive,
)
    requires
        half_way(start, emails, at, archive),
        at < emails.len(),
    ensures
        half_way(
            start,
            with_unseen(emails, (archive.referring)(emails[at as int].message_id)),
            at + 1,
            archive,
        ),
{
    let more = (archive.referring)(emails[at as int].message_id);
    let all = with_unseen(emails, more);
    lemma_added(emails, more);
    assert forall|k: int| 0 <= k < start.len() implies #[trigger] all[k] == start[k] by {
        assert(all[k] == emails[k]);
    }
    assert forall|i: int| 0 <= i < at + 1 && i < all.len() implies #[trigger] references_found(
        all,
        archive,
        i,
    ) by {
        assert(all[i] == emails[i]);
        if i < at {
            assert(references_found(emails, archive, i));
            let list = (archive.referring)(emails[i].message_id);
            assert forall|k: int| 0 <= k < list.len() implies is_found(
                all,
                (#[trigger] list[k]).message_id,
            ) by {
                assert(is_found(emails, list[k].message_id));
                let n = choose|n: int|
                    0 <= n < emails.len() && (#[trigger] emails[n]).message_id
                        == list[k].message_id;
                assert(all[n] == emails[n]);
            }
        } else {
            assert forall|k: int| 0 <= k < more.len() implies is_found(
                all,
                (#[trigger] more[k]).message_id,
            ) by {}
        }
    }
    assert forall|k: int| start.len() <= k < all.len() implies #[trigger] refers_back(
        all,
        archive,
        k,
    ) by {
        if k < emails.len() {
            assert(refers_back(emails, archive, k));
            let j = choose|j: int|
                0 <= j < k && (archive.referring)((#[trigger] emails[j]).message_id).contains(
                    emails[k],
                );
            assert(all[j] == emails[j] && all[k] == emails[k]);
        } else {
            assert(all[at as int] == emails[at as int]);
            assert(more.contains(all[k]));
        }
    }
}

proof fn lemma_known_added(
    emails: Seq<LoreEmailInfoView>,
    at: nat,
    archive: Archive,
    known: Set<Seq<char>>,
)
    requires
        holds_only(archive, known),
        ids_known(emails, known),
        at < emails.len(),
    ensures
        ids_known(
            with_unseen(emails, (archive.referring)(emails[at as int].message_id)),
            known,
        ),
{
    let id = emails[at as int].message_id;
    let more = (archive.referring)(id);
    let all = with_unseen(emails, more);
    lemma_added(emails, more);
    assert forall|k: int| 0 <= k < all.len() implies known.contains(
        (#[trigger] all[k]).message_id,
    ) by {
        if k < emails.len() {
            assert(all[k] == emails[k]);
        } else {
            assert(more.contains(all[k]));
            let n = choose|n: int| 0 <= n < more.len() && more[n] == all[k];
            assert(known.contains((archive.referring)(id)[n].message_id));
        }
    }
}

proof fn lemma_gathered(
    start: Seq<LoreEmailInfoView>,
    emails: Seq<LoreEmailInfoView>,
    at: nat,
    archive: Archive,
    known: Set<Seq<char>>,
    fuel: nat,
)
    requires
        holds_only(archive, known),
        half_way(start, emails, at, archive),
        ids_differ(emails),
        ids_known(emails, known),
        known.len() <= at + fuel,
    ensures
        ({
            let all = gathered(emails, at, archive, fuel);
            half_way(start, all, all.len(), archive) && ids_differ(all) && ids_known(all, known)
        }),
    decreases fuel,
{
    lemma_ids_fit(emails, known);
    if fuel == 0 || at >= emails.len() {
        assert(half_way(start, emails, emails.len(), archive));
    } else {
        let more = (archive.referring)(emails[at as int].message_id);
        lemma_half_way(start, emails, at, archive);
        lemma_known_added(emails, at, archive, known);
        lemma_unseen(emails, more);
        lemma_gathered(
            start,
            with_unseen(emails, more),
            at + 1,
            archive,
            known,
            (fuel - 1) as nat,
        );
    }
}

/// The messages that a walk down finds in an archive of finitely many messages: the
/// first is the one it starts from, no message occurs twice, each of the others refers
/// to one that stands before it, and all that refers to one of them is among them.
pub proof fn law_thread_is_closed(
    email: LoreEmailInfoView,
    archive: Archive,
    known: Set<Seq<char>>,
)
    requires
        holds_only(archive, known),
        known.contains(email.message_id),
    ensures
        ({
            let all = gathered(seq![email], 0, archive, known.len());
            &&& all.len() > 0
            &&& all[0] == email
            &&& ids_differ(all)
            &&& forall|k: int| 0 < k < all.len() ==> #[trigger] refers_back(all, archive, k)
            &&& forall|i: int|
                0 <= i < all.len() ==> #[trigger] references_found(all, archive, i)
        }),
{
    let start = seq![email];
    let all = gathered(start, 0, archive, known.len());
    lemma_gathered(start, start, 0, archive, known, known.len());
    assert(all[0] == start[0]);
    assert forall|k: int| 0 < k < all.len() implies #[trigger] refers_back(all, archive, k) by {
        assert(start.len() <= k);
    }
}

proof fn lemma_walk_down(
    down: DownView,
    text: Seq<char>,
    archive: Archive,
    known: Set<Seq<char>>,
    fuel: nat,
)
    requires
        holds_only(archive, known),
        ids_differ(down.emails),
        ids_known(down.emails, known),
        known.len() <= down.at + fuel,
    ensures
        ({
            let last = walk(go_down(down, text), archive, fuel);
            last matches ThreadStepView::Show(_, show) && show == walk_shown(
                down.aim,
                gathered(down.emails, down.at, archive, fuel),
            )
        }),
    decreases fuel,
{
    lemma_ids_fit(down.emails, known);
    if fuel > 0 && down.at < down.emails.len() {
        let more = (archive.referring)(down.emails[down.at as int].message_id);
        lemma_known_added(down.emails, down.at, archive, known);
        lemma_unseen(down.emails, more);
        let next = DownView { emails: with_unseen(down.emails, more), at: down.at + 1, ..down };
        lemma_walk_down(next, ""@, archive, known, (fuel - 1) as nat);
    }
}

proof fn lemma_more_fuel(
    emails: Seq<LoreEmailInfoView>,
    at: nat,
    archive: Archive,
    known: Set<Seq<char>>,
    fuel: nat,
    more_fuel: nat,
)
    requires
        holds_only(archive, known),
        ids_differ(emails),
        ids_known(emails, known),
        known.len() <= at + fuel,
        fuel <= more_fuel,
    ensures
        gathered(emails, at, archive, fuel) == gathered(emails, at, archive, more_fuel),
    decreases fuel,
{
    lemma_ids_fit(emails, known);
    if fuel > 0 && at < emails.len() {
        let more = (archive.referring)(emails[at as int].message_id);
        lemma_known_added(emails, at, archive, known);
        lemma_unseen(emails, more);
        lemma_more_fuel(
            with_unseen(emails, more),
            at + 1,
            archive,
            known,
            (fuel - 1) as nat,
            (more_fuel - 1) as nat,
        );
    }
}

/// Showing the replies to a message asks no more often than there are messages, and then
/// shows what a walk down finds.
pub proof fn law_replies_are_shown(
    aim: Aim,
    email: LoreEmailInfoView,
    archive: Archive,
    known: Set<Seq<char>>,
)
    requires
        holds_only(archive, known),
        (archive.message)(email.message_id) == Some(email),
        !aim.whole,
    ensures
        walk(
            after_message(aim, email.message_id, Some(email)),
            archive,
            known.len(),
        ) matches ThreadStepView::Show(_, show) && show == walk_shown(
            aim,
            gathered(seq![email], 0, archive, known.len()),
        ),
{
    let down = DownView { aim, emails: seq![email], at: 0 };
    lemma_walk_down(down, ""@, archive, known, known.len());
}

/// What holds on the way up: the messages that were passed are known and different, and
/// the last of them is the one at hand.
spec fn on_the_way(up: UpView, known: Set<Seq<char>>) -> bool {
    &&& up.passed.len() > 0
    &&& up.passed.last() == up.email.message_id
    &&& up.passed.no_duplicates()
    &&& forall|k: int| 0 <= k < up.passed.len() ==> known.contains(#[trigger] up.passed[k])
}

/// Whether a thread starts at a message: it answers none, or one that the archive does
/// not hold.
pub open spec fn starts_thread(email: LoreEmailInfoView, archive: Archive) -> bool {
    match email.in_reply_to {
        Some(parent) => (archive.message)(parent) is None,
        None => true,
    }
}

/// The message `steps` answers up from `email`, where there is one.
pub open spec fn answered(email: LoreEmailInfoView, archive: Archive, steps: nat) -> Option<
    LoreEmailInfoView,
>
    decreases steps,
{
    if steps == 0 {
        Some(email)
    } else {
        match email.in_reply_to {
            Some(parent) => match (archive.message)(parent) {
                Some(next) => answered(next, archive, (steps - 1) as nat),
                None => None,
            },
            None => None,
        }
    }
}

proof fn lemma_walk_up(
    up: UpView,
    archive: Archive,
    known: Set<Seq<char>>,
    fuel: nat,
)
    requires
        holds_only(archive, known),
        on_the_way(up, known),
        known.len() < up.passed.len() + fuel,
    ensures
        ({
            let email = top(up, archive, fuel);
            let last = walk(go_up(up), archive, fuel + known.len());
            &&& known.contains(email.message_id)
            &&& last matches ThreadStepView::Show(_, show) && show == walk_shown(
                up.aim,
                gathered(seq![email], 0, archive, known.len()),
            )
        }),
    decreases fuel,
{
    lemma_distinct_fit(up.passed, known);
    assert(known.contains(up.passed[up.passed.len() - 1]));
    let text = "Found thread root: "@ + crate::style::in_bright_black(up.email.message_id)
        + "\n"@;
    let down = DownView { aim: up.aim, emails: seq![up.email], at: 0 };
    match go_up(up) {
        ThreadStepView::Answered(_) => {
            let parent = up.email.in_reply_to->0;
            match (archive.message)(parent) {
                Some(email) => {
                    let next = UpView {
                        passed: up.passed.push(email.message_id),
                        email,
                        ..up
                    };
                    assert(on_the_way(next, known)) by {
                        assert(!up.passed.contains(parent));
                        assert forall|i: int, j: int|
                            0 <= i < next.passed.len() && 0 <= j < next.passed.len() && i
                                != j implies next.passed[i] != next.passed[j] by {
                            if i < up.passed.len() {
                                assert(up.passed.contains(up.passed[i]));
                            }
                            if j < up.passed.len() {
                                assert(up.passed.contains(up.passed[j]));
                            }
                        }
                        assert forall|k: int| 0 <= k < next.passed.len() implies known.contains(
                            #[trigger] next.passed[k],
                        ) by {
                            if k < up.passed.len() {
                                assert(known.contains(up.passed[k]));
                            }
                        }
                    }
                    lemma_walk_up(next, archive, known, (fuel - 1) as nat);
                },
                None => {
                    lemma_walk_down(down, text, archive, known, (fuel + known.len() - 1) as nat);
                    lemma_more_fuel(
                        down.emails,
                        0,
                        archive,
                        known,
                        known.len(),
                        (fuel + known.len() - 1) as nat,
                    );
                },
            }
        },
        _ => {
            lemma_walk_down(down, text, archive, known, fuel + known.len());
            lemma_more_fuel(down.emails, 0, archive, known, known.len(), fuel + known.len());
        },
    }
}

/// Showing the thread of a message asks no more than twice as often as there are messages,
/// circles among the answered messages or not, and then shows what a walk down finds from
/// the message that the walk up reached.
pub proof fn law_thread_is_shown(
    aim: Aim,
    email: LoreEmailInfoView,
    archive: Archive,
    known: Set<Seq<char>>,
)
    requires
        holds_only(archive, known),
        (archive.message)(email.message_id) == Some(email),
        aim.whole,
    ensures
        ({
            let up = UpView { aim, passed: seq![email.message_id], email };
            let first = top(up, archive, known.len());
            &&& known.contains(first.message_id)
            &&& walk(
                after_message(aim, email.message_id, Some(email)),
                archive,
                2 * known.len(),
            ) matches ThreadStepView::Show(_, show) && show == walk_shown(
                aim,
                gathered(seq![first], 0, archive, known.len()),
            )
        }),
{
    let up = UpView { aim, passed: seq![email.message_id], email };
    lemma_walk_up(up, archive, known, known.len());
}

proof fn lemma_top(up: UpView, archive: Archive, known: Set<Seq<char>>, fuel: nat, steps: nat)
    requires
        holds_only(archive, known),
        on_the_way(up, known),
        known.len() < up.passed.len() + fuel,
        answered(up.email, archive, steps) matches Some(first) && starts_thread(first, archive),
        // No message on the way up was passed before.
        forall|n: nat|
            n < steps ==> ((#[trigger] answered(up.email, archive, n)) matches Some(email)
                && email.in_reply_to matches Some(parent) && !up.passed.contains(parent)),
        forall|m: nat, n: nat|
            m < n <= steps ==> (#[trigger] answered(up.email, archive, m))->0.message_id != (
            #[trigger] answered(up.email, archive, n))->0.message_id,
    ensures
        Some(top(up, archive, fuel)) == answered(up.email, archive, steps),
    decreases steps,
{
    lemma_distinct_fit(up.passed, known);
    if steps > 0 {
        assert(answered(up.email, archive, 0) == Some(up.email));
        let parent = up.email.in_reply_to->0;
        assert(!up.passed.contains(parent));
        let email = (archive.message)(parent)->0;
        let next = UpView { passed: up.passed.push(email.message_id), email, ..up };
        assert(answered(email, archive, (steps - 1) as nat) == answered(up.email, archive, steps));
        assert(on_the_way(next, known)) by {
            assert forall|i: int, j: int|
                0 <= i < next.passed.len() && 0 <= j < next.passed.len() && i
                    != j implies next.passed[i] != next.passed[j] by {
                if i < up.passed.len() {
                    assert(up.passed.contains(up.passed[i]));
                }
                if j < up.passed.len() {
                    assert(up.passed.contains(up.passed[j]));
                }
            }
            assert forall|k: int| 0 <= k < next.passed.len() implies known.contains(
                #[trigger] next.passed[k],
            ) by {
                if k < up.passed.len() {
                    assert(known.contains(up.passed[k]));
                }
            }
        }
        let rest = (steps - 1) as nat;
        assert forall|n: nat| n < rest implies ((#[trigger] answered(email, archive, n)) matches Some(
            e,
        ) && e.in_reply_to matches Some(p) && !next.passed.contains(p)) by {
            let here = answered(up.email, archive, n + 1);
            assert(answered(email, archive, n) == here);
            let p = here->0.in_reply_to->0;
            assert(!up.passed.contains(p));
            let after = answered(up.email, archive, n + 2);
            assert(answered(email, archive, n + 1) == after);
            lemma_next_answered(email, archive, n);
            assert(after->0.message_id == p);
            assert(answered(up.email, archive, 1)->0.message_id != after->0.message_id) by {
                assert(1 < n + 2);
            }
            assert(answered(up.email, archive, 1) == Some(email)) by {
                assert(answered(email, archive, 0) == Some(email));
            }
            if next.passed.contains(p) {
                let k = choose|k: int| 0 <= k < next.passed.len() && next.passed[k] == p;
                if k < up.passed.len() {
                    assert(up.passed.contains(up.passed[k]));
                }
            }
        }
        assert forall|m: nat, n: nat| m < n <= rest implies (#[trigger] answered(
            email,
            archive,
            m,
        ))->0.message_id != (#[trigger] answered(email, archive, n))->0.message_id by {
            assert(answered(email, archive, m) == answered(up.email, archive, m + 1));
            assert(answered(email, archive, n) == answered(up.email, archive, n + 1));
        }
        lemma_top(next, archive, known, (fuel - 1) as nat, rest);
    } else {
        match up.email.in_reply_to {
            Some(parent) => {
                assert((archive.message)(parent) is None);
            },
            None => {},
        }
    }
}

/// The message one step further up is the one that the last one answers.
proof fn lemma_next_answered(email: LoreEmailInfoView, archive: Archive, n: nat)
    requires
        answered(email, archive, n) is Some,
    ensures
        answered(email, archive, n + 1) == (match answered(email, archive, n)->0.in_reply_to {
            Some(parent) => (archive.message)(parent),
            None => None,
        }),
    decreases n,
{
    if n > 0 {
        let next = (archive.message)(email.in_reply_to->0)->0;
        lemma_next_answered(next, archive, (n - 1) as nat);
    } else {
        match email.in_reply_to {
            Some(parent) => {
                match (archive.message)(parent) {
                    Some(next) => {
                        assert(answered(next, archive, 0) == Some(next));
                    },
                    None => {},
                }
            },
            None => {},
        }
    }
}

/// Going up `n` steps and then `k` is going up `n + k` steps.
proof fn lemma_further_up(email: LoreEmailInfoView, archive: Archive, n: nat, k: nat)
    requires
        answered(email, archive, n) is Some,
    ensures
        answered(email, archive, n + k) == answered(answered(email, archive, n)->0, archive, k),
    decreases n,
{
    if n > 0 {
        let next = (archive.message)(email.in_reply_to->0)->0;
        lemma_further_up(next, archive, (n - 1) as nat, k);
    }
}

/// Below a message that is there, all are there.
proof fn lemma_below(email: LoreEmailInfoView, archive: Archive, n: nat, m: nat)
    requires
        answered(email, archive, n) is Some,
        m <= n,
    ensures
        answered(email, archive, m) is Some,
    decreases m,
{
    if m > 0 {
        let next = (archive.message)(email.in_reply_to->0)->0;
        lemma_below(next, archive, (n - 1) as nat, (m - 1) as nat);
    }
}

/// The archive gives each message on the way up under its id.
proof fn lemma_given(
    email: LoreEmailInfoView,
    archive: Archive,
    known: Set<Seq<char>>,
    n: nat,
)
    requires
        holds_only(archive, known),
        (archive.message)(email.message_id) == Some(email),
        answered(email, archive, n) is Some,
    ensures
        ({
            let there = answered(email, archive, n)->0;
            (archive.message)(there.message_id) == Some(there)
        }),
    decreases n,
{
    if n > 0 {
        let parent = email.in_reply_to->0;
        let next = (archive.message)(parent)->0;
        assert(next.message_id == parent);
        lemma_given(next, archive, known, (n - 1) as nat);
    }
}

/// On a way that ends, no message comes twice.
proof fn lemma_no_circle(
    email: LoreEmailInfoView,
    archive: Archive,
    known: Set<Seq<char>>,
    steps: nat,
    m: nat,
    n: nat,
)
    requires
        holds_only(archive, known),
        (archive.message)(email.message_id) == Some(email),
        answered(email, archive, steps) matches Some(first) && starts_thread(first, archive),
        m < n <= steps,
    ensures
        answered(email, archive, m)->0.message_id != answered(email, archive, n)->0.message_id,
{
    lemma_below(email, archive, steps, m);
    lemma_below(email, archive, steps, n);
    lemma_given(email, archive, known, m);
    lemma_given(email, archive, known, n);
    let a = answered(email, archive, m)->0;
    let b = answered(email, archive, n)->0;
    if a.message_id == b.message_id {
        assert(a == b);
        let k = (steps - n) as nat;
        lemma_further_up(email, archive, m, k);
        lemma_further_up(email, archive, n, k);
        lemma_below(email, archive, steps, m + k + 1);
        lemma_next_answered(email, archive, m + k);
    }
}

/// The walk up from a message reaches the message at which its thread starts, where going
/// from answered message to answered message comes to one.
pub proof fn law_root_is_reached(
    aim: Aim,
    email: LoreEmailInfoView,
    archive: Archive,
    known: Set<Seq<char>>,
    steps: nat,
)
    requires
        holds_only(archive, known),
        (archive.message)(email.message_id) == Some(email),
        answered(email, archive, steps) matches Some(first) && starts_thread(first, archive),
    ensures
        Some(
            top(UpView { aim, passed: seq![email.message_id], email }, archive, known.len()),
        ) == answered(email, archive, steps),
{
    let up = UpView { aim, passed: seq![email.message_id], email };
    assert forall|m: nat, n: nat| m < n <= steps implies (#[trigger] answered(
        up.email,
        archive,
        m,
    ))->0.message_id != (#[trigger] answered(up.email, archive, n))->0.message_id by {
        lemma_no_circle(email, archive, known, steps, m, n);
    }
    assert forall|n: nat| n < steps implies ((#[trigger] answered(
        up.email,
        archive,
        n,
    )) matches Some(e) && e.in_reply_to matches Some(parent) && !up.passed.contains(parent)) by {
        lemma_below(email, archive, steps, n);
        lemma_below(email, archive, steps, n + 1);
        lemma_next_answered(email, archive, n);
        lemma_no_circle(email, archive, known, steps, 0, n + 1);
    }
    lemma_top(up, archive, known, known.len(), steps);
}

} // verus!
