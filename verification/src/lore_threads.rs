//! Walks through mail threads.
//!
//! The thread of a message is found by going up from reply to answered message, then down
//! to everything that refers to a message that was found. Each message is taken once.

use vstd::prelude::*;
use vstd::string::*;

use crate::lore::{shown_entries, Entries, EntriesView, LoreShow, LoreShowView};
use crate::style::{
    bold, bright_black, cyan, green, in_bold, in_bright_black, in_cyan, in_green, in_red, in_yellow,
    red, yellow,
};
use crate::text::{decimal, number, same_text, texts};
use crate::thread_laws::{ids_differ, law_distinct_ids_end};
use crate::threads::{sort_emails_by_thread_order, thread_order};
use crate::types::{emails_view, LoreEmailInfo, LoreEmailInfoView};

verus! {

/// What the walk is for.
#[derive(Clone, Copy)]
pub struct Aim {
    /// Whether the whole thread is shown, and not just the replies.
    pub whole: bool,
    /// Whether the bodies are shown.
    pub bodies: bool,
}

/// A walk up a thread.
#[verifier::ext_equal]
pub struct UpView {
    pub aim: Aim,
    /// The ids of the messages that were passed.
    pub passed: Seq<Seq<char>>,
    /// The message that was reached.
    pub email: LoreEmailInfoView,
}

/// A walk down a thread.
#[verifier::ext_equal]
pub struct DownView {
    pub aim: Aim,
    /// The messages that were found.
    pub emails: Seq<LoreEmailInfoView>,
    /// The message whose references are asked for.
    pub at: nat,
}

/// A walk that waits for the message that it starts from.
pub struct AwaitMessage {
    aim: Aim,
    message_id: String,
}

/// A walk that waits for the answered message.
pub struct AwaitAnswered {
    aim: Aim,
    passed: Vec<String>,
    email: LoreEmailInfo,
}

/// A walk that waits for the messages that refer to the one at hand.
pub struct AwaitReferring {
    aim: Aim,
    emails: Vec<LoreEmailInfo>,
    at: usize,
}

impl AwaitMessage {
    pub closed spec fn aim(&self) -> Aim {
        self.aim
    }

    pub closed spec fn message_id(&self) -> Seq<char> {
        self.message_id@
    }
}

impl AwaitAnswered {
    pub closed spec fn state(&self) -> UpView {
        UpView { aim: self.aim, passed: texts(self.passed@), email: self.email@ }
    }

    #[verifier::type_invariant]
    spec fn valid(self) -> bool {
        self.email.in_reply_to is Some
    }
}

impl AwaitReferring {
    pub closed spec fn state(&self) -> DownView {
        DownView { aim: self.aim, emails: emails_view(self.emails@), at: self.at as nat }
    }

    #[verifier::type_invariant]
    spec fn valid(self) -> bool {
        &&& self.at < self.emails@.len()
        &&& ids_differ(emails_view(self.emails@))
    }
}

/// What is to be done next: show the text, then what the step says.
pub enum ThreadStep {
    /// Show the emails.
    Show(String, LoreShow),
    /// Find the message to start from; then [`AwaitMessage::email`].
    Message(String, AwaitMessage),
    /// Find the answered message; then [`AwaitAnswered::email`].
    Answered(AwaitAnswered),
    /// Find the messages that refer to the one at hand; then [`AwaitReferring::emails`].
    Referring(String, AwaitReferring),
}

#[verifier::ext_equal]
pub enum ThreadStepView {
    Show(Seq<char>, LoreShowView),
    Message(Seq<char>, Aim, Seq<char>),
    Answered(UpView),
    Referring(Seq<char>, DownView),
}

impl View for ThreadStep {
    type V = ThreadStepView;

    open spec fn view(&self) -> ThreadStepView {
        match *self {
            ThreadStep::Show(text, show) => ThreadStepView::Show(text@, show@),
            ThreadStep::Message(text, wait) => ThreadStepView::Message(
                text@,
                wait.aim(),
                wait.message_id(),
            ),
            ThreadStep::Answered(wait) => ThreadStepView::Answered(wait.state()),
            ThreadStep::Referring(text, wait) => ThreadStepView::Referring(text@, wait.state()),
        }
    }
}

/// The text with which a walk starts.
pub open spec fn walk_text(message_id: Seq<char>, whole: bool) -> Seq<char> {
    if whole {
        "Finding thread root for message: "@ + in_cyan(message_id) + "\n"@
    } else {
        "Finding all replies to message: "@ + in_cyan(message_id) + "\n"@
    }
}

/// The step after the message to start from came.
pub open spec fn after_message(
    aim: Aim,
    message_id: Seq<char>,
    email: Option<LoreEmailInfoView>,
) -> ThreadStepView {
    match email {
        None => ThreadStepView::Show(
            ""@,
            LoreShowView::Text(
                in_red("Error:"@) + " Email not found with message_id: "@ + message_id + "\n"@,
            ),
        ),
        Some(email) => if aim.whole {
            go_up(UpView { aim, passed: seq![email.message_id], email })
        } else {
            go_down(DownView { aim, emails: seq![email], at: 0 }, ""@)
        },
    }
}

/// The step when the walk goes up: it ends where the message answers none, or one that
/// was passed.
pub open spec fn go_up(walk: UpView) -> ThreadStepView {
    match walk.email.in_reply_to {
        Some(parent) => if walk.passed.contains(parent) {
            turn_down(walk)
        } else {
            ThreadStepView::Answered(walk)
        },
        None => turn_down(walk),
    }
}

/// The step when the walk has reached the start of the thread.
pub open spec fn turn_down(walk: UpView) -> ThreadStepView {
    go_down(
        DownView { aim: walk.aim, emails: seq![walk.email], at: 0 },
        "Found thread root: "@ + in_bright_black(walk.email.message_id) + "\n"@,
    )
}

/// The step after the answered message came. Where there is none, the thread starts here.
pub open spec fn after_answered(walk: UpView, email: Option<LoreEmailInfoView>) -> ThreadStepView {
    match email {
        Some(email) => go_up(
            UpView { passed: walk.passed.push(email.message_id), email, ..walk },
        ),
        None => turn_down(walk),
    }
}

/// Whether a message is among those that were found.
pub open spec fn is_found(emails: Seq<LoreEmailInfoView>, id: Seq<char>) -> bool {
    exists|k: int| 0 <= k < emails.len() && (#[trigger] emails[k]).message_id == id
}

/// The messages that were found, with those of `more` that were not among them.
pub open spec fn with_unseen(
    emails: Seq<LoreEmailInfoView>,
    more: Seq<LoreEmailInfoView>,
) -> Seq<LoreEmailInfoView>
    decreases more.len(),
{
    if more.len() == 0 {
        emails
    } else {
        let before = with_unseen(emails, more.drop_last());
        if is_found(before, more.last().message_id) {
            before
        } else {
            before.push(more.last())
        }
    }
}

/// The step after the messages came that refer to the one at hand.
pub open spec fn after_referring(walk: DownView, more: Seq<LoreEmailInfoView>) -> ThreadStepView {
    go_down(DownView { emails: with_unseen(walk.emails, more), at: walk.at + 1, ..walk }, ""@)
}

/// The step when the walk goes down. After the last message they are shown as threads.
pub open spec fn go_down(walk: DownView, text: Seq<char>) -> ThreadStepView {
    if walk.at < walk.emails.len() {
        ThreadStepView::Referring(text, walk)
    } else {
        ThreadStepView::Show(text, walk_shown(walk.aim, walk.emails))
    }
}

/// What is shown of the messages of a thread.
pub open spec fn walk_shown(aim: Aim, emails: Seq<LoreEmailInfoView>) -> LoreShowView {
    if !aim.whole && emails.len() == 1 {
        LoreShowView::Text("\n"@ + in_yellow("Info:"@) + " No replies found\n"@)
    } else {
        shown_entries(
            EntriesView {
                head: walk_head(aim.whole, emails.len()),
                emails: thread_order(emails),
                numbered: true,
                full: aim.whole,
                tail: ""@,
            },
            aim.bodies,
        )
    }
}

/// The line before the messages of a thread.
pub open spec fn walk_head(whole: bool, count: nat) -> Seq<char> {
    if whole {
        "\n"@ + in_green(in_bold("Thread:"@)) + " Found "@ + decimal(count)
            + " message(s) in thread:\n\n"@
    } else {
        "\n"@ + in_green(in_bold("Replies:"@)) + " Found "@ + decimal(count)
            + " message(s) (including root):\n\n"@
    }
}

/// Ids stay different when messages are added that were not found.
pub proof fn lemma_unseen(emails: Seq<LoreEmailInfoView>, more: Seq<LoreEmailInfoView>)
    requires
        ids_differ(emails),
    ensures
        ids_differ(with_unseen(emails, more)),
        emails.len() <= with_unseen(emails, more).len(),
        with_unseen(emails, more).take(emails.len() as int) == emails,
    decreases more.len(),
{
    if more.len() > 0 {
        lemma_unseen(emails, more.drop_last());
        let before = with_unseen(emails, more.drop_last());
        let all = with_unseen(emails, more);
        assert(all.take(emails.len() as int) =~= emails) by {
            assert(before.take(emails.len() as int) == emails);
            assert forall|k: int| 0 <= k < emails.len() implies all[k] == emails[k] by {
                assert(before.take(emails.len() as int)[k] == before[k]);
            }
        }
    } else {
        assert(emails.take(emails.len() as int) =~= emails);
    }
}

fn holds(list: &Vec<String>, text: &str) -> (yes: bool)
    ensures
        yes == texts(list@).contains(text@),
{
    let mut i: usize = 0;
    while i < list.len()
        invariant
            i <= list@.len(),
            forall|k: int| 0 <= k < i ==> (#[trigger] list@[k])@ != text@,
        decreases list@.len() - i,
    {
        if same_text(list[i].as_str(), text) {
            assert(texts(list@)[i as int] == text@);
            return true;
        }
        i = i + 1;
    }
    assert forall|k: int| 0 <= k < texts(list@).len() implies texts(list@)[k] != text@ by {
        assert(list@[k]@ != text@);
    }
    false
}

fn has_message(emails: &Vec<LoreEmailInfo>, id: &str) -> (yes: bool)
    ensures
        yes == is_found(emails_view(emails@), id@),
{
    let mut i: usize = 0;
    while i < emails.len()
        invariant
            i <= emails@.len(),
            forall|k: int| 0 <= k < i ==> (#[trigger] emails_view(emails@)[k]).message_id != id@,
        decreases emails@.len() - i,
    {
        assert(emails_view(emails@)[i as int] == emails@[i as int]@);
        if same_text(emails[i].message_id.as_str(), id) {
            return true;
        }
        i = i + 1;
    }
    false
}

fn show_walk(aim: Aim, emails: Vec<LoreEmailInfo>) -> (show: LoreShow)
    requires
        ids_differ(emails_view(emails@)),
    ensures
        show@ == walk_shown(aim, emails_view(emails@)),
{
    assert(emails_view(emails@).len() == emails@.len());
    let count: usize = emails.len();
    if !aim.whole && count == 1 {
        return LoreShow::Text(
            String::from_str("\n").concat(yellow("Info:").as_str()).concat(" No replies found\n"),
        );
    }
    proof {
        law_distinct_ids_end(emails_view(emails@));
    }
    let sorted = sort_emails_by_thread_order(emails.as_slice());
    let head = if aim.whole {
        String::from_str("\n").concat(green(bold("Thread:").as_str()).as_str()).concat(
            " Found ",
        ).concat(number(count).as_str()).concat(" message(s) in thread:\n\n")
    } else {
        String::from_str("\n").concat(green(bold("Replies:").as_str()).as_str()).concat(
            " Found ",
        ).concat(number(count).as_str()).concat(" message(s) (including root):\n\n")
    };
    let entries = Entries::new(head, sorted, true, aim.whole, String::from_str(""));
    if aim.bodies {
        LoreShow::Bodies(entries)
    } else {
        LoreShow::Text(entries.without_bodies())
    }
}

fn step_down(aim: Aim, emails: Vec<LoreEmailInfo>, at: usize, text: String) -> (step: ThreadStep)
    requires
        ids_differ(emails_view(emails@)),
    ensures
        step@ == go_down(DownView { aim, emails: emails_view(emails@), at: at as nat }, text@),
{
    assert(emails_view(emails@).len() == emails@.len());
    if at < emails.len() {
        ThreadStep::Referring(text, AwaitReferring { aim, emails, at })
    } else {
        ThreadStep::Show(text, show_walk(aim, emails))
    }
}

fn start_down(aim: Aim, email: LoreEmailInfo, text: String) -> (step: ThreadStep)
    ensures
        step@ == go_down(DownView { aim, emails: seq![email@], at: 0 }, text@),
{
    let ghost it = email@;
    let mut emails: Vec<LoreEmailInfo> = Vec::new();
    emails.push(email);
    assert(emails_view(emails@) =~= seq![it]);
    step_down(aim, emails, 0, text)
}

fn reach_root(aim: Aim, email: LoreEmailInfo, Ghost(walk): Ghost<UpView>) -> (step: ThreadStep)
    requires
        walk.aim == aim,
        walk.email == email@,
    ensures
        step@ == turn_down(walk),
{
    let text = String::from_str("Found thread root: ").concat(
        bright_black(email.message_id.as_str()).as_str(),
    ).concat("\n");
    start_down(aim, email, text)
}

fn step_up(aim: Aim, passed: Vec<String>, email: LoreEmailInfo) -> (step: ThreadStep)
    ensures
        step@ == go_up(UpView { aim, passed: texts(passed@), email: email@ }),
{
    let ghost walk = UpView { aim, passed: texts(passed@), email: email@ };
    let further = match &email.in_reply_to {
        Some(parent) => !holds(&passed, parent.as_str()),
        None => false,
    };
    if further {
        ThreadStep::Answered(AwaitAnswered { aim, passed, email })
    } else {
        reach_root(aim, email, Ghost(walk))
    }
}

/// Starts to show the whole thread of a message.
pub fn lore_show_thread(message_id: &str, verbose: usize) -> (step: ThreadStep)
    ensures
        step@ == ThreadStepView::Message(
            walk_text(message_id@, true),
            (Aim { whole: true, bodies: verbose >= 1 }),
            message_id@,
        ),
{
    ThreadStep::Message(
        String::from_str("Finding thread root for message: ").concat(
            cyan(message_id).as_str(),
        ).concat("\n"),
        AwaitMessage {
            aim: Aim { whole: true, bodies: verbose >= 1 },
            message_id: message_id.to_string(),
        },
    )
}

/// Starts to show the replies to a message and what replies to them.
pub fn lore_show_replies(message_id: &str, verbose: usize) -> (step: ThreadStep)
    ensures
        step@ == ThreadStepView::Message(
            walk_text(message_id@, false),
            (Aim { whole: false, bodies: verbose >= 1 }),
            message_id@,
        ),
{
    ThreadStep::Message(
        String::from_str("Finding all replies to message: ").concat(
            cyan(message_id).as_str(),
        ).concat("\n"),
        AwaitMessage {
            aim: Aim { whole: false, bodies: verbose >= 1 },
            message_id: message_id.to_string(),
        },
    )
}

/// The view of an email that may be there.
pub open spec fn email_or_none(email: Option<LoreEmailInfo>) -> Option<LoreEmailInfoView> {
    match email {
        Some(email) => Some(email@),
        None => None,
    }
}

impl AwaitMessage {
    /// The id of the message that is asked for.
    pub fn wanted(&self) -> (id: &str)
        ensures
            id@ == self.message_id(),
    {
        self.message_id.as_str()
    }

    /// The message to start from.
    pub fn email(self, email: Option<LoreEmailInfo>) -> (step: ThreadStep)
        ensures
            step@ == after_message(self.aim(), self.message_id(), email_or_none(email)),
    {
        match email {
            None => ThreadStep::Show(
                String::from_str(""),
                LoreShow::Text(
                    red("Error:").concat(" Email not found with message_id: ").concat(
                        self.message_id.as_str(),
                    ).concat("\n"),
                ),
            ),
            Some(email) => {
                if self.aim.whole {
                    let mut passed: Vec<String> = Vec::new();
                    passed.push(email.message_id.clone());
                    assert(texts(passed@) =~= seq![email@.message_id]);
                    step_up(self.aim, passed, email)
                } else {
                    start_down(self.aim, email, String::from_str(""))
                }
            },
        }
    }
}

impl AwaitAnswered {
    /// The id of the message that is asked for.
    pub fn wanted(&self) -> (id: &str)
        ensures
            Some(id@) == self.state().email.in_reply_to,
    {
        proof {
            use_type_invariant(self);
        }
        match &self.email.in_reply_to {
            Some(parent) => parent.as_str(),
            None => "",
        }
    }

    /// The answered message.
    pub fn email(self, email: Option<LoreEmailInfo>) -> (step: ThreadStep)
        ensures
            step@ == after_answered(self.state(), email_or_none(email)),
    {
        let ghost walk = self.state();
        match email {
            Some(parent) => {
                let AwaitAnswered { aim, passed, email: last } = self;
                let mut more = passed;
                more.push(parent.message_id.clone());
                assert(texts(more@) =~= walk.passed.push(parent@.message_id));
                step_up(aim, more, parent)
            },
            None => reach_root(self.aim, self.email, Ghost(walk)),
        }
    }
}

impl AwaitReferring {
    /// The id of the message whose references are asked for.
    pub fn wanted(&self) -> (id: &str)
        ensures
            id@ == self.state().emails[self.state().at as int].message_id,
    {
        proof {
            use_type_invariant(self);
        }
        self.emails[self.at].message_id.as_str()
    }

    /// The messages that refer to the one at hand.
    pub fn emails(self, more: &Vec<LoreEmailInfo>) -> (step: ThreadStep)
        ensures
            step@ == after_referring(self.state(), emails_view(more@)),
    {
        proof {
            use_type_invariant(&self);
        }
        let ghost walk = self.state();
        let ghost all = emails_view(more@);
        let AwaitReferring { aim, emails: found, at } = self;
        let count: usize = found.len();
        assert(at < count);
        let mut emails = found;
        let mut i: usize = 0;
        assert(all.take(0) =~= seq![]);
        while i < more.len()
            invariant
                i <= more@.len(),
                all == emails_view(more@),
                emails_view(emails@) == with_unseen(walk.emails, all.take(i as int)),
            decreases more@.len() - i,
        {
            let ghost before = emails_view(emails@);
            assert(all.take(i + 1).drop_last() =~= all.take(i as int));
            assert(all[i as int] == more@[i as int]@);
            if !has_message(&emails, more[i].message_id.as_str()) {
                emails.push(more[i].copied());
                assert(emails_view(emails@) =~= before.push(all[i as int]));
            }
            i = i + 1;
        }
        assert(all.take(i as int) =~= all);
        proof {
            lemma_unseen(walk.emails, all);
        }
        step_down(aim, emails, at + 1, String::from_str(""))
    }
}

} // verus!
