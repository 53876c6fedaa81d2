//! Which emails match patterns for several of their fields: for each field that
//! has patterns, at least one of them.

use vstd::hash_set::StringHashSet;
use vstd::prelude::*;
use vstd::string::*;

use crate::database::similar::VectorSearchManager;
use crate::lists::{distinct, distinct_texts, law_distinct};
use crate::pattern::{
    bound_moment, find_ignoring_case, full_text_words, is_within, matches_ignoring_case,
    normalize_for_search, parse_moment, pattern_fault, refusal, rfc2822_moment, within,
};
use crate::text::texts;
use crate::types::copy_slice;

verus! {

/// Filter patterns for searches of emails.
#[derive(Debug, Clone, Default)]
pub struct LoreEmailFilters<'a> {
    pub from_patterns: Option<&'a [String]>,
    pub subject_patterns: Option<&'a [String]>,
    pub body_patterns: Option<&'a [String]>,
    pub symbols_patterns: Option<&'a [String]>,
    pub recipients_patterns: Option<&'a [String]>,
    pub since_date: Option<&'a str>,
    pub until_date: Option<&'a str>,
}

/// Patterns for the fields of an email, and the dates that it may have.
#[verifier::ext_equal]
pub struct FiltersView {
    pub from: Option<Seq<Seq<char>>>,
    pub subject: Option<Seq<Seq<char>>>,
    pub body: Option<Seq<Seq<char>>>,
    pub symbols: Option<Seq<Seq<char>>>,
    pub recipients: Option<Seq<Seq<char>>>,
    pub since: Option<Seq<char>>,
    pub until: Option<Seq<char>>,
}

/// The contents of patterns that may be absent.
pub open spec fn patterns_view(patterns: Option<&[String]>) -> Option<Seq<Seq<char>>> {
    match patterns {
        Some(list) => Some(texts(list@)),
        None => None,
    }
}

/// The contents of a text that may be absent.
pub open spec fn str_or_none(text: Option<&str>) -> Option<Seq<char>> {
    match text {
        Some(t) => Some(t@),
        None => None,
    }
}

impl<'a> View for LoreEmailFilters<'a> {
    type V = FiltersView;

    open spec fn view(&self) -> FiltersView {
        FiltersView {
            from: patterns_view(self.from_patterns),
            subject: patterns_view(self.subject_patterns),
            body: patterns_view(self.body_patterns),
            symbols: patterns_view(self.symbols_patterns),
            recipients: patterns_view(self.recipients_patterns),
            since: str_or_none(self.since_date),
            until: str_or_none(self.until_date),
        }
    }
}

/// How many candidates a query without a limit hands out. Full-text search has a
/// small limit of its own where none is given.
pub const UNLIMITED_CANDIDATES: usize = 100000;

/// A question to the full-text index of the emails.
#[derive(Debug)]
pub struct FullTextQuery {
    /// The field that is searched.
    pub column: String,
    /// The words that are looked for.
    pub words: String,
    /// How many candidates at most.
    pub limit: usize,
}

#[verifier::ext_equal]
pub struct FullTextQueryView {
    pub column: Seq<char>,
    pub words: Seq<char>,
    pub limit: nat,
}

impl View for FullTextQuery {
    type V = FullTextQueryView;

    open spec fn view(&self) -> FullTextQueryView {
        FullTextQueryView { column: self.column@, words: self.words@, limit: self.limit as nat }
    }
}

/// An email that the full-text index found.
#[derive(Debug)]
pub struct Candidate {
    pub message_id: String,
    /// The field that was searched.
    pub text: String,
    pub date: String,
}

/// Patterns for one field.
pub struct FieldPatterns {
    column: String,
    patterns: Vec<String>,
}

#[verifier::ext_equal]
pub struct FieldPatternsView {
    pub column: Seq<char>,
    pub patterns: Seq<Seq<char>>,
}

impl View for FieldPatterns {
    type V = FieldPatternsView;

    closed spec fn view(&self) -> FieldPatternsView {
        FieldPatternsView { column: self.column@, patterns: texts(self.patterns@) }
    }
}

/// The contents of a list of patterns for fields.
pub open spec fn fields_view(fields: Seq<FieldPatterns>) -> Seq<FieldPatternsView> {
    fields.map_values(|field: FieldPatterns| field@)
}

/// The patterns for one field, in a list of one; nothing where there are none.
pub open spec fn field_entry(column: Seq<char>, patterns: Option<Seq<Seq<char>>>) -> Seq<
    FieldPatternsView,
> {
    match patterns {
        Some(list) => if list.len() > 0 {
            seq![FieldPatternsView { column, patterns: list }]
        } else {
            seq![]
        },
        None => seq![],
    }
}

/// The fields that have patterns, in the order in which they are queried.
pub open spec fn queried_fields(filters: FiltersView) -> Seq<FieldPatternsView> {
    field_entry("from"@, filters.from) + field_entry("subject"@, filters.subject) + field_entry(
        "body"@,
        filters.body,
    ) + field_entry("symbols"@, filters.symbols) + field_entry("recipients"@, filters.recipients)
}

/// Whether a candidate is kept: the pattern is found in its field, and its date
/// lies within the bounds.
pub open spec fn candidate_kept(
    candidate: Candidate,
    pattern: Seq<char>,
    since: Option<(i64, u32)>,
    until: Option<(i64, u32)>,
) -> bool {
    matches_ignoring_case(pattern, candidate.text@) && within(
        rfc2822_moment(candidate.date@),
        since,
        until,
    )
}

/// The message ids of the candidates that are kept.
pub open spec fn kept_ids(
    candidates: Seq<Candidate>,
    pattern: Seq<char>,
    since: Option<(i64, u32)>,
    until: Option<(i64, u32)>,
) -> Seq<Seq<char>>
    decreases candidates.len(),
{
    if candidates.len() == 0 {
        seq![]
    } else {
        let rest = kept_ids(candidates.drop_last(), pattern, since, until);
        if candidate_kept(candidates.last(), pattern, since, until) {
            rest.push(candidates.last().message_id@)
        } else {
            rest
        }
    }
}

/// Whether every list holds `id`.
pub open spec fn in_all(lists: Seq<Seq<Seq<char>>>, id: Seq<char>) -> bool {
    forall|k: int| 0 <= k < lists.len() ==> (#[trigger] lists[k]).contains(id)
}

/// Of `ids`, those that every list holds.
pub open spec fn shared(ids: Seq<Seq<char>>, lists: Seq<Seq<Seq<char>>>) -> Seq<Seq<char>>
    decreases ids.len(),
{
    if ids.len() == 0 {
        seq![]
    } else {
        let rest = shared(ids.drop_last(), lists);
        if in_all(lists, ids.last()) {
            rest.push(ids.last())
        } else {
            rest
        }
    }
}

/// What all lists hold, each once; nothing where there is no list.
pub open spec fn intersection(lists: Seq<Seq<Seq<char>>>) -> Seq<Seq<char>> {
    if lists.len() == 0 {
        seq![]
    } else {
        shared(distinct(lists[0]), lists)
    }
}

/// The limit that a query is given.
pub open spec fn effective_limit(limit: nat) -> nat {
    if limit > 0 {
        limit
    } else {
        UNLIMITED_CANDIDATES as nat
    }
}

/// A search of fields that waits for candidates.
pub struct FieldWait {
    fields: Vec<FieldPatterns>,
    field: usize,
    pattern: usize,
    limit: usize,
    since: Option<(i64, u32)>,
    until: Option<(i64, u32)>,
    found: Vec<Vec<String>>,
}

#[verifier::ext_equal]
pub struct FieldState {
    pub fields: Seq<FieldPatternsView>,
    /// The field at hand.
    pub field: nat,
    /// The pattern at hand.
    pub pattern: nat,
    pub limit: nat,
    pub since: Option<(i64, u32)>,
    pub until: Option<(i64, u32)>,
    /// What was found for each field so far.
    pub found: Seq<Seq<Seq<char>>>,
}

/// The contents of a list of lists of texts.
pub open spec fn text_lists(lists: Seq<Vec<String>>) -> Seq<Seq<Seq<char>>> {
    lists.map_values(|list: Vec<String>| texts(list@))
}

impl FieldWait {
    pub closed spec fn state(&self) -> FieldState {
        FieldState {
            fields: fields_view(self.fields@),
            field: self.field as nat,
            pattern: self.pattern as nat,
            limit: self.limit as nat,
            since: self.since,
            until: self.until,
            found: text_lists(self.found@),
        }
    }

    #[verifier::type_invariant]
    spec fn valid(self) -> bool {
        &&& self.field < self.fields@.len()
        &&& self.pattern < self.fields@[self.field as int].patterns@.len()
        &&& self.found@.len() == self.field + 1
        &&& forall|k: int| 0 <= k < self.fields@.len() ==> (#[trigger] self.fields@[k]).patterns@.len() > 0
    }
}

/// What is to be done next.
pub enum FieldStep {
    /// Nothing more: these message ids match.
    Done(Vec<String>),
    /// Give up, with this message: a pattern cannot be compiled.
    Failed(String),
    /// Ask the full-text index; then [`FieldWait::candidates`].
    Ask(FullTextQuery, FieldWait),
}

#[verifier::ext_equal]
pub enum FieldStepView {
    Done(Seq<Seq<char>>),
    Failed(Seq<char>),
    Ask(FullTextQueryView, FieldState),
}

impl View for FieldStep {
    type V = FieldStepView;

    open spec fn view(&self) -> FieldStepView {
        match *self {
            FieldStep::Done(ids) => FieldStepView::Done(texts(ids@)),
            FieldStep::Failed(message) => FieldStepView::Failed(message@),
            FieldStep::Ask(query, wait) => FieldStepView::Ask(query@, wait.state()),
        }
    }
}

/// The question for the pattern at hand.
pub open spec fn ask_field(state: FieldState) -> FieldStepView {
    let field = state.fields[state.field as int];
    FieldStepView::Ask(
        FullTextQueryView {
            column: field.column,
            words: full_text_words(field.patterns[state.pattern as int]),
            limit: effective_limit(state.limit),
        },
        state,
    )
}

/// The first step of a search of fields.
pub open spec fn fields_start(filters: FiltersView, limit: nat) -> FieldStepView {
    let fields = queried_fields(filters);
    if fields.len() == 0 {
        FieldStepView::Done(seq![])
    } else {
        ask_field(
            FieldState {
                fields,
                field: 0,
                pattern: 0,
                limit,
                since: bound_moment(filters.since),
                until: bound_moment(filters.until),
                found: seq![seq![]],
            },
        )
    }
}

/// The state after the candidates for the pattern at hand were looked at.
pub open spec fn with_candidates(state: FieldState, candidates: Seq<Candidate>) -> FieldState {
    let pattern = state.fields[state.field as int].patterns[state.pattern as int];
    let ids = kept_ids(candidates, pattern, state.since, state.until);
    FieldState { found: state.found.drop_last().push(state.found.last() + ids), ..state }
}

/// The step after the candidates for the pattern at hand came. The patterns of one
/// field add up; the fields have to agree.
pub open spec fn after_candidates(
    state: FieldState,
    candidates: Seq<Candidate>,
) -> FieldStepView {
    let field = state.fields[state.field as int];
    let after = with_candidates(state, candidates);
    match refusal(field.patterns[state.pattern as int]) {
        Some(message) => FieldStepView::Failed(message),
        None => if state.pattern + 1 < field.patterns.len() {
            ask_field(FieldState { pattern: state.pattern + 1, ..after })
        } else if state.field + 1 < state.fields.len() {
            ask_field(
                FieldState {
                    field: state.field + 1,
                    pattern: 0,
                    found: after.found.push(seq![]),
                    ..after
                },
            )
        } else {
            FieldStepView::Done(intersection(after.found))
        },
    }
}

/// Appends the patterns for one field, where there are any.
fn push_field(fields: &mut Vec<FieldPatterns>, column: &str, patterns: Option<&[String]>)
    ensures
        fields_view(final(fields)@) == fields_view(old(fields)@) + field_entry(
            column@,
            patterns_view(patterns),
        ),
        (forall|k: int|
            0 <= k < old(fields)@.len() ==> (#[trigger] old(fields)@[k]).patterns@.len() > 0)
            ==> (forall|k: int|
            0 <= k < final(fields)@.len() ==> (#[trigger] final(fields)@[k]).patterns@.len() > 0),
{
    let ghost before = fields_view(fields@);
    match patterns {
        Some(list) => {
            assert(texts(list@).len() == list@.len());
            if list.len() > 0 {
                let copy = copy_slice(list);
                assert(texts(copy@).len() == copy@.len());
                let field = FieldPatterns { column: column.to_string(), patterns: copy };
                fields.push(field);
                assert(fields_view(fields@) =~= before + field_entry(column@, Some(texts(list@))));
            } else {
                assert(before + field_entry(column@, Some(texts(list@))) =~= before);
            }
        },
        None => {
            assert(before + field_entry(column@, None) =~= before);
        },
    }
}

/// The moment of a date that may be absent.
fn parse_bound(date: Option<&str>) -> (moment: Option<(i64, u32)>)
    ensures
        moment == bound_moment(str_or_none(date)),
{
    match date {
        Some(text) => parse_moment(text),
        None => None,
    }
}

/// The message ids of the candidates that are kept.
fn keep_ids(
    candidates: &Vec<Candidate>,
    pattern: &str,
    since: Option<(i64, u32)>,
    until: Option<(i64, u32)>,
) -> (ids: Vec<String>)
    ensures
        texts(ids@) == kept_ids(candidates@, pattern@, since, until),
{
    let mut ids: Vec<String> = Vec::new();
    let dated = since.is_some() || until.is_some();
    let mut i: usize = 0;
    assert(candidates@.take(0) =~= seq![]);
    assert(texts(ids@) =~= kept_ids(candidates@.take(0), pattern@, since, until));
    while i < candidates.len()
        invariant
            i <= candidates@.len(),
            dated == (since is Some || until is Some),
            texts(ids@) == kept_ids(candidates@.take(i as int), pattern@, since, until),
        decreases candidates@.len() - i,
    {
        let ghost before = texts(ids@);
        let candidate = &candidates[i];
        assert(candidates@.take(i + 1).drop_last() =~= candidates@.take(i as int));
        assert(candidates@.take(i + 1).last() == candidate);
        if find_ignoring_case(pattern, candidate.text.as_str()) {
            let moment = if dated {
                parse_moment(candidate.date.as_str())
            } else {
                None
            };
            if is_within(moment, since, until) {
                ids.push(candidate.message_id.clone());
                assert(texts(ids@) =~= before.push(candidate.message_id@));
            }
        }
        i = i + 1;
    }
    assert(candidates@.take(i as int) =~= candidates@);
    ids
}

/// The texts of a list, as a set.
pub fn set_of_texts(list: &Vec<String>) -> (set: StringHashSet)
    ensures
        forall|text: Seq<char>| #[trigger] set@.contains(text) <==> texts(list@).contains(text),
{
    let ghost all = texts(list@);
    let mut set = StringHashSet::new();
    let mut i: usize = 0;
    while i < list.len()
        invariant
            i <= list@.len(),
            all == texts(list@),
            forall|text: Seq<char>| #[trigger]
                set@.contains(text) <==> (exists|k: int| 0 <= k < i && all[k] == text),
        decreases list@.len() - i,
    {
        set.insert(list[i].clone());
        proof {
            assert forall|text: Seq<char>| #[trigger] set@.contains(text) <==> (exists|k: int|
                0 <= k < i + 1 && all[k] == text) by {
                if text == all[i as int] {
                    assert(0 <= i < i + 1 && all[i as int] == text);
                }
            }
        }
        i = i + 1;
    }
    set
}

/// What all lists hold, each once.
fn intersect(lists: &Vec<Vec<String>>) -> (ids: Vec<String>)
    ensures
        texts(ids@) == intersection(text_lists(lists@)),
{
    let ghost all = text_lists(lists@);
    let mut ids: Vec<String> = Vec::new();
    assert(texts(ids@) =~= seq![]);
    if lists.len() == 0 {
        return ids;
    }
    let mut sets: Vec<StringHashSet> = Vec::new();
    let mut k: usize = 0;
    while k < lists.len()
        invariant
            k <= lists@.len(),
            all == text_lists(lists@),
            sets@.len() == k,
            forall|j: int, text: Seq<char>|
                0 <= j < k ==> (#[trigger] sets@[j]@.contains(text) <==> all[j].contains(text)),
        decreases lists@.len() - k,
    {
        let set = set_of_texts(&lists[k]);
        assert(all[k as int] == texts(lists@[k as int]@));
        sets.push(set);
        k = k + 1;
    }
    let first = distinct_texts(&lists[0]);
    let ghost order = texts(first@);
    let mut i: usize = 0;
    assert(order.take(0) =~= seq![]);
    while i < first.len()
        invariant
            i <= first@.len(),
            order == texts(first@),
            sets@.len() == all.len(),
            forall|j: int, text: Seq<char>|
                0 <= j < all.len() ==> (#[trigger] sets@[j]@.contains(text) <==> all[j].contains(
                    text,
                )),
            texts(ids@) == shared(order.take(i as int), all),
        decreases first@.len() - i,
    {
        let ghost before = texts(ids@);
        let ghost id = order[i as int];
        let mut everywhere = true;
        let mut j: usize = 0;
        while j < sets.len()
            invariant
                j <= sets@.len(),
                i < first@.len(),
                order == texts(first@),
                id == order[i as int],
                sets@.len() == all.len(),
                forall|j: int, text: Seq<char>|
                    0 <= j < all.len() ==> (#[trigger] sets@[j]@.contains(text)
                        <==> all[j].contains(text)),
                everywhere == (forall|m: int| 0 <= m < j ==> (#[trigger] all[m]).contains(id)),
            decreases sets@.len() - j,
        {
            let held = sets[j].contains(first[i].as_str());
            assert(held == all[j as int].contains(id));
            everywhere = everywhere && held;
            j = j + 1;
        }
        assert(order.take(i + 1).drop_last() =~= order.take(i as int));
        assert(everywhere == in_all(all, id));
        if everywhere {
            ids.push(first[i].clone());
            assert(texts(ids@) =~= before.push(id));
        }
        i = i + 1;
    }
    assert(order.take(i as int) =~= order);
    ids
}

/// The question for the pattern at hand.
fn ask(wait: FieldWait) -> (step: FieldStep)
    ensures
        step@ == ask_field(wait.state()),
{
    proof {
        use_type_invariant(&wait);
    }
    let field = &wait.fields[wait.field];
    let limit: usize = if wait.limit > 0 {
        wait.limit
    } else {
        UNLIMITED_CANDIDATES
    };
    let query = FullTextQuery {
        column: field.column.clone(),
        words: normalize_for_search(field.patterns[wait.pattern].as_str()),
        limit,
    };
    proof {
        let state = wait.state();
        assert(state.fields[state.field as int] == field@);
        assert(field@.patterns[state.pattern as int] == field.patterns@[wait.pattern as int]@);
    }
    FieldStep::Ask(query, wait)
}

impl FieldWait {
    /// The candidates for the pattern at hand.
    pub fn candidates(self, candidates: Vec<Candidate>) -> (step: FieldStep)
        ensures
            step@ == after_candidates(self.state(), candidates@),
    {
        proof {
            use_type_invariant(&self);
        }
        let ghost state = self.state();
        let FieldWait { fields, field, pattern, limit, since, until, found } = self;
        let mut found = found;
        proof {
            let view = state.fields[state.field as int];
            assert(view == fields@[field as int]@);
            assert(view.patterns[state.pattern as int]
                == fields@[field as int].patterns@[pattern as int]@);
            assert(view.patterns.len() == fields@[field as int].patterns@.len());
            assert(state.fields.len() == fields@.len());
        }
        if let Some(message) = pattern_fault(fields[field].patterns[pattern].as_str()) {
            return FieldStep::Failed(message);
        }
        let mut ids = keep_ids(
            &candidates,
            fields[field].patterns[pattern].as_str(),
            since,
            until,
        );
        let ghost kept = texts(ids@);
        let mut list = match found.pop() {
            Some(list) => list,
            None => Vec::new(),
        };
        let ghost so_far = texts(list@);
        list.append(&mut ids);
        assert(texts(list@) =~= so_far + kept);
        found.push(list);
        let ghost after = with_candidates(state, candidates@);
        proof {
            assert(state.found.last() == so_far);
            assert(text_lists(found@) =~= after.found);
        }
        let patterns: usize = fields[field].patterns.len();
        let count: usize = fields.len();
        if pattern + 1 < patterns {
            let wait = FieldWait {
                fields,
                field,
                pattern: pattern + 1,
                limit,
                since,
                until,
                found,
            };
            assert(wait.state() =~= FieldState { pattern: state.pattern + 1, ..after });
            ask(wait)
        } else if field + 1 < count {
            let empty: Vec<String> = Vec::new();
            assert(texts(empty@) =~= seq![]);
            let ghost lists = text_lists(found@);
            found.push(empty);
            assert(text_lists(found@) =~= lists.push(seq![]));
            let wait = FieldWait {
                fields,
                field: field + 1,
                pattern: 0,
                limit,
                since,
                until,
                found,
            };
            assert(wait.state() =~= FieldState {
                field: state.field + 1,
                pattern: 0,
                found: after.found.push(seq![]),
                ..after
            });
            ask(wait)
        } else {
            FieldStep::Done(intersect(&found))
        }
    }
}

impl VectorSearchManager {
    /// Which emails match the patterns of all fields that have some, one pattern of
    /// each.
    pub fn query_lore_fields_intersection(
        &self,
        filters: &LoreEmailFilters,
        search_limit: usize,
    ) -> (step: FieldStep)
        ensures
            step@ == fields_start(filters@, search_limit as nat),
    {
        let mut fields: Vec<FieldPatterns> = Vec::new();
        assert(fields_view(fields@) =~= seq![]);
        push_field(&mut fields, "from", filters.from_patterns);
        push_field(&mut fields, "subject", filters.subject_patterns);
        push_field(&mut fields, "body", filters.body_patterns);
        push_field(&mut fields, "symbols", filters.symbols_patterns);
        push_field(&mut fields, "recipients", filters.recipients_patterns);
        assert(fields_view(fields@) =~= queried_fields(filters@));
        assert(fields_view(fields@).len() == fields@.len());
        let since = parse_bound(filters.since_date);
        let until = parse_bound(filters.until_date);
        if fields.len() == 0 {
            let ids: Vec<String> = Vec::new();
            assert(texts(ids@) =~= seq![]);
            return FieldStep::Done(ids);
        }
        let mut found: Vec<Vec<String>> = Vec::new();
        let empty: Vec<String> = Vec::new();
        assert(texts(empty@) =~= seq![]);
        found.push(empty);
        assert(text_lists(found@) =~= seq![seq![]]);
        ask(
            FieldWait {
                fields,
                field: 0,
                pattern: 0,
                limit: search_limit,
                since,
                until,
                found,
            },
        )
    }
}

/// Which of `ids` all lists hold.
proof fn lemma_shared(ids: Seq<Seq<char>>, lists: Seq<Seq<Seq<char>>>)
    requires
        ids.no_duplicates(),
    ensures
        shared(ids, lists).no_duplicates(),
        forall|id: Seq<char>| #[trigger]
            shared(ids, lists).contains(id) <==> ids.contains(id) && in_all(lists, id),
    decreases ids.len(),
{
    if ids.len() > 0 {
        let rest = ids.drop_last();
        assert(rest.no_duplicates());
        lemma_shared(rest, lists);
        let before = shared(rest, lists);
        let all = shared(ids, lists);
        assert forall|id: Seq<char>| #[trigger] all.contains(id) <==> ids.contains(id) && in_all(
            lists,
            id,
        ) by {
            if before.contains(id) {
                let p = choose|p: int| 0 <= p < before.len() && before[p] == id;
                assert(all[p] == id);
                let q = choose|q: int| 0 <= q < rest.len() && rest[q] == id;
                assert(ids[q] == id);
            }
            if ids.contains(id) && in_all(lists, id) {
                let q = choose|q: int| 0 <= q < ids.len() && ids[q] == id;
                if q < rest.len() {
                    assert(rest[q] == id);
                } else {
                    assert(all[all.len() - 1] == id);
                }
            }
            if all.contains(id) {
                let p = choose|p: int| 0 <= p < all.len() && all[p] == id;
                if p < before.len() {
                    assert(before[p] == id);
                } else {
                    assert(ids[ids.len() - 1] == id);
                }
            }
        }
        if in_all(lists, ids.last()) {
            assert(!before.contains(ids.last())) by {
                if before.contains(ids.last()) {
                    let q = choose|q: int| 0 <= q < rest.len() && rest[q] == ids.last();
                    assert(ids[q] == ids[ids.len() - 1]);
                }
            }
            assert(all.no_duplicates());
        }
    }
}

/// What is handed out is what all lists hold, each once.
pub proof fn law_intersection(lists: Seq<Seq<Seq<char>>>)
    requires
        lists.len() > 0,
    ensures
        intersection(lists).no_duplicates(),
        forall|id: Seq<char>| #[trigger] intersection(lists).contains(id) <==> in_all(lists, id),
{
    law_distinct(lists[0]);
    lemma_shared(distinct(lists[0]), lists);
    assert forall|id: Seq<char>| #[trigger] intersection(lists).contains(id) <==> in_all(
        lists,
        id,
    ) by {
        if in_all(lists, id) {
            assert(lists[0].contains(id));
            assert(distinct(lists[0]).contains(id));
        }
    }
}

/// What a search of fields comes to within `steps` answers.
pub open spec fn run_fields(
    step: FieldStepView,
    answers: spec_fn(FullTextQueryView) -> Seq<Candidate>,
    steps: nat,
) -> Option<FieldStepView>
    decreases steps,
{
    match step {
        FieldStepView::Ask(query, state) => if steps == 0 {
            None
        } else {
            run_fields(after_candidates(state, answers(query)), answers, (steps - 1) as nat)
        },
        _ => Some(step),
    }
}

/// The question for a pattern of a field.
pub open spec fn question(column: Seq<char>, pattern: Seq<char>, limit: nat) -> FullTextQueryView {
    FullTextQueryView {
        column,
        words: full_text_words(pattern),
        limit: effective_limit(limit),
    }
}

/// What the patterns of a field from `from` on find, one after the other.
pub open spec fn found_by_patterns(
    field: FieldPatternsView,
    from: nat,
    state: FieldState,
    answers: spec_fn(FullTextQueryView) -> Seq<Candidate>,
) -> Seq<Seq<char>>
    decreases field.patterns.len() - from,
{
    if from >= field.patterns.len() {
        seq![]
    } else {
        let pattern = field.patterns[from as int];
        kept_ids(
            answers(question(field.column, pattern, state.limit)),
            pattern,
            state.since,
            state.until,
        ) + found_by_patterns(field, from + 1, state, answers)
    }
}

/// What each field from `from` on finds.
pub open spec fn found_by_fields(
    from: nat,
    state: FieldState,
    answers: spec_fn(FullTextQueryView) -> Seq<Candidate>,
) -> Seq<Seq<Seq<char>>>
    decreases state.fields.len() - from,
{
    if from >= state.fields.len() {
        seq![]
    } else {
        seq![found_by_patterns(state.fields[from as int], 0, state, answers)] + found_by_fields(
            from + 1,
            state,
            answers,
        )
    }
}

/// Whether all patterns can be compiled.
pub open spec fn patterns_compile(fields: Seq<FieldPatternsView>) -> bool {
    forall|f: int, p: int|
        0 <= f < fields.len() && 0 <= p < fields[f].patterns.len() ==> refusal(
            #[trigger] fields[f].patterns[p],
        ) is None
}

proof fn lemma_fields_run(
    state: FieldState,
    answers: spec_fn(FullTextQueryView) -> Seq<Candidate>,
) -> (steps: nat)
    requires
        patterns_compile(state.fields),
        state.field < state.fields.len(),
        state.pattern < state.fields[state.field as int].patterns.len(),
        state.found.len() == state.field + 1,
        forall|f: int| 0 <= f < state.fields.len() ==> (#[trigger] state.fields[f]).patterns.len() > 0,
    ensures
        run_fields(ask_field(state), answers, steps) == Some(
            FieldStepView::Done(
                intersection(
                    state.found.drop_last().push(
                        state.found.last() + found_by_patterns(
                            state.fields[state.field as int],
                            state.pattern,
                            state,
                            answers,
                        ),
                    ) + found_by_fields(state.field + 1, state, answers),
                ),
            ),
        ),
    decreases state.fields.len() - state.field, state.fields[state.field as int].patterns.len() - state.pattern,
{
    let field = state.fields[state.field as int];
    let pattern = field.patterns[state.pattern as int];
    let query = question(field.column, pattern, state.limit);
    let after = with_candidates(state, answers(query));
    let goal = state.found.drop_last().push(
        state.found.last() + found_by_patterns(field, state.pattern, state, answers),
    ) + found_by_fields(state.field + 1, state, answers);
    assert(refusal(state.fields[state.field as int].patterns[state.pattern as int])
        is None);
    if state.pattern + 1 < field.patterns.len() {
        let next = FieldState { pattern: state.pattern + 1, ..after };
        let steps = lemma_fields_run(next, answers);
        lemma_found_same(state, next, answers);
        assert(next.found.drop_last() =~= state.found.drop_last());
        assert(next.found.last() + found_by_patterns(field, next.pattern, next, answers)
            =~= state.found.last() + found_by_patterns(field, state.pattern, state, answers));
        assert(run_fields(ask_field(state), answers, (steps + 1) as nat) == run_fields(
            ask_field(next),
            answers,
            steps,
        ));
        (steps + 1) as nat
    } else if state.field + 1 < state.fields.len() {
        let next = FieldState {
            field: state.field + 1,
            pattern: 0,
            found: after.found.push(seq![]),
            ..after
        };
        let steps = lemma_fields_run(next, answers);
        lemma_found_same(state, next, answers);
        let own = found_by_patterns(field, state.pattern, state, answers);
        assert(found_by_patterns(field, state.pattern + 1, state, answers) =~= seq![]);
        assert(own =~= kept_ids(answers(query), pattern, state.since, state.until));
        assert(next.found.drop_last() =~= after.found);
        let following = state.fields[next.field as int];
        let first = found_by_patterns(following, 0, next, answers);
        assert(next.found.last() + first =~= first);
        assert(next.found.drop_last().push(next.found.last() + first) + found_by_fields(
            next.field + 1,
            next,
            answers,
        ) =~= goal);
        assert(run_fields(ask_field(state), answers, (steps + 1) as nat) == run_fields(
            ask_field(next),
            answers,
            steps,
        ));
        (steps + 1) as nat
    } else {
        assert(found_by_patterns(field, state.pattern + 1, state, answers) =~= seq![]);
        assert(found_by_patterns(field, state.pattern, state, answers) =~= kept_ids(
            answers(query),
            pattern,
            state.since,
            state.until,
        ));
        assert(after.found =~= goal);
        assert(run_fields(after_candidates(state, answers(query)), answers, 0) == Some(
            FieldStepView::Done(intersection(goal)),
        ));
        assert(run_fields(ask_field(state), answers, 1) == Some(
            FieldStepView::Done(intersection(goal)),
        ));
        1
    }
}

/// What patterns find does not depend on where the search stands.
proof fn lemma_found_same(
    a: FieldState,
    b: FieldState,
    answers: spec_fn(FullTextQueryView) -> Seq<Candidate>,
)
    requires
        a.fields == b.fields,
        a.limit == b.limit,
        a.since == b.since,
        a.until == b.until,
    ensures
        forall|field: FieldPatternsView, from: nat| #[trigger]
            found_by_patterns(field, from, a, answers) == found_by_patterns(
                field,
                from,
                b,
                answers,
            ),
        forall|from: nat| #[trigger]
            found_by_fields(from, a, answers) == found_by_fields(from, b, answers),
{
    assert forall|field: FieldPatternsView, from: nat| #[trigger]
        found_by_patterns(field, from, a, answers) == found_by_patterns(
        field,
        from,
        b,
        answers,
    ) by {
        lemma_patterns_same(field, from, a, b, answers);
    }
    assert forall|from: nat| #[trigger]
        found_by_fields(from, a, answers) == found_by_fields(from, b, answers) by {
        lemma_fields_same(from, a, b, answers);
    }
}

proof fn lemma_patterns_same(
    field: FieldPatternsView,
    from: nat,
    a: FieldState,
    b: FieldState,
    answers: spec_fn(FullTextQueryView) -> Seq<Candidate>,
)
    requires
        a.limit == b.limit,
        a.since == b.since,
        a.until == b.until,
    ensures
        found_by_patterns(field, from, a, answers) == found_by_patterns(field, from, b, answers),
    decreases field.patterns.len() - from,
{
    if from < field.patterns.len() {
        lemma_patterns_same(field, from + 1, a, b, answers);
    }
}

proof fn lemma_fields_same(
    from: nat,
    a: FieldState,
    b: FieldState,
    answers: spec_fn(FullTextQueryView) -> Seq<Candidate>,
)
    requires
        a.fields == b.fields,
        a.limit == b.limit,
        a.since == b.since,
        a.until == b.until,
    ensures
        found_by_fields(from, a, answers) == found_by_fields(from, b, answers),
    decreases a.fields.len() - from,
{
    if from < a.fields.len() {
        lemma_fields_same(from + 1, a, b, answers);
        lemma_patterns_same(a.fields[from as int], 0, a, b, answers);
    }
}

/// A search of fields at its start.
pub open spec fn fields_state(filters: FiltersView, limit: nat) -> FieldState {
    FieldState {
        fields: queried_fields(filters),
        field: 0,
        pattern: 0,
        limit,
        since: bound_moment(filters.since),
        until: bound_moment(filters.until),
        found: seq![seq![]],
    }
}

/// The message ids that every field finds, each once.
pub open spec fn matching_ids(
    filters: FiltersView,
    limit: nat,
    answers: spec_fn(FullTextQueryView) -> Seq<Candidate>,
) -> Seq<Seq<char>> {
    intersection(found_by_fields(0, fields_state(filters, limit), answers))
}

/// Whether a search of fields ends with these message ids.
pub open spec fn fields_end(
    filters: FiltersView,
    limit: nat,
    answers: spec_fn(FullTextQueryView) -> Seq<Candidate>,
    ids: Seq<Seq<char>>,
) -> bool {
    exists|steps: nat| #[trigger]
        run_fields(fields_start(filters, limit), answers, steps) == Some(FieldStepView::Done(ids))
}

/// Where all patterns can be compiled, a search of fields ends with the message ids
/// that every field finds, a field finding what one of its patterns finds.
pub proof fn law_fields_agree(
    filters: FiltersView,
    limit: nat,
    answers: spec_fn(FullTextQueryView) -> Seq<Candidate>,
)
    requires
        queried_fields(filters).len() > 0,
        patterns_compile(queried_fields(filters)),
    ensures
        fields_end(filters, limit, answers, matching_ids(filters, limit, answers)),
{
    let fields = queried_fields(filters);
    let state = fields_state(filters, limit);
    let steps = lemma_fields_run(state, answers);
    let first = found_by_patterns(fields[0], 0, state, answers);
    assert(state.found.last() + first =~= first);
    assert(state.found.drop_last().push(state.found.last() + first) + found_by_fields(
        1,
        state,
        answers,
    ) =~= found_by_fields(0, state, answers));
    assert(run_fields(fields_start(filters, limit), answers, steps) == Some(
        FieldStepView::Done(matching_ids(filters, limit, answers)),
    ));
}

} // verus!
