//! What records stand for: every part of them, in the contents that they are seen by.

use vstd::prelude::*;

use crate::database::edge_sort::EdgeVersion;
use crate::database::edges::CallEdge;
use crate::database::lore_fields::{FullTextQuery, LoreEmailFilters};
use crate::database::search::Query;
use crate::database::symbols::Plan;
use crate::types::{FunctionInfo, GitCommitInfo, LoreEmailInfo, TypeInfo, TypedefInfo};

verus! {

/// Whether contents are those of a list of texts, one for each and in their order.
pub open spec fn same_texts(contents: Seq<Seq<char>>, list: Seq<String>) -> bool {
    &&& contents.len() == list.len()
    &&& forall|i: int| 0 <= i < list.len() ==> #[trigger] contents[i] == list[i]@
}

/// Whether contents are those of a list that may be absent.
pub open spec fn same_list(contents: Option<Seq<Seq<char>>>, list: Option<Vec<String>>) -> bool {
    match (contents, list) {
        (Some(c), Some(l)) => same_texts(c, l@),
        (None, None) => true,
        _ => false,
    }
}

/// Whether contents are those of a text that may be absent.
pub open spec fn same_text(contents: Option<Seq<char>>, text: Option<String>) -> bool {
    match (contents, text) {
        (Some(c), Some(t)) => c == t@,
        (None, None) => true,
        _ => false,
    }
}

/// Whether contents are those of patterns that may be absent.
pub open spec fn same_patterns(contents: Option<Seq<Seq<char>>>, list: Option<&[String]>) -> bool {
    match (contents, list) {
        (Some(c), Some(l)) => same_texts(c, l@),
        (None, None) => true,
        _ => false,
    }
}

/// Whether contents are those of a date that may be absent.
pub open spec fn same_date(contents: Option<Seq<char>>, text: Option<&str>) -> bool {
    match (contents, text) {
        (Some(c), Some(t)) => c == t@,
        (None, None) => true,
        _ => false,
    }
}

/// A function is seen by all of its parts.
pub proof fn law_function_is_seen(f: FunctionInfo)
    ensures
        f@.name == f.name@,
        f@.file_path == f.file_path@,
        f@.git_file_hash == f.git_file_hash@,
        f@.line_start == f.line_start,
        f@.line_end == f.line_end,
        f@.return_type == f.return_type@,
        f@.parameters == f.parameters@,
        f@.body == f.body@,
        same_list(f@.calls, f.calls),
        same_list(f@.types, f.types),
{
}

/// A type is seen by all of its parts.
pub proof fn law_type_is_seen(t: TypeInfo)
    ensures
        t@.name == t.name@,
        t@.file_path == t.file_path@,
        t@.git_file_hash == t.git_file_hash@,
        t@.line_start == t.line_start,
        t@.kind == t.kind@,
        t@.size == t.size,
        t@.members == t.members@,
        t@.definition == t.definition@,
        same_list(t@.types, t.types),
{
}

/// A typedef is seen by all of its parts.
pub proof fn law_typedef_is_seen(t: TypedefInfo)
    ensures
        t@.name == t.name@,
        t@.file_path == t.file_path@,
        t@.git_file_hash == t.git_file_hash@,
        t@.line_start == t.line_start,
        t@.underlying_type == t.underlying_type@,
        t@.definition == t.definition@,
{
}

/// An email is seen by all of its parts.
pub proof fn law_email_is_seen(e: LoreEmailInfo)
    ensures
        e@.git_commit_sha == e.git_commit_sha@,
        e@.message_id == e.message_id@,
        e@.from == e.from@,
        e@.date == e.date@,
        e@.date_timestamp == e.date_timestamp,
        e@.subject == e.subject@,
        same_text(e@.in_reply_to, e.in_reply_to),
        same_text(e@.references, e.references),
        e@.recipients == e.recipients@,
        e@.body == e.body@,
        same_texts(e@.symbols, e.symbols@),
{
}

/// A commit is seen by all of its parts.
pub proof fn law_commit_is_seen(c: GitCommitInfo)
    ensures
        c@.git_sha == c.git_sha@,
        same_texts(c@.parent_sha, c.parent_sha@),
        c@.author == c.author@,
        c@.subject == c.subject@,
        c@.message == c.message@,
        c@.tags.len() == c.tags@.len(),
        forall|i: int|
            0 <= i < c.tags@.len() ==> (#[trigger] c@.tags[i]).0 == c.tags@[i].0@ && same_texts(
                c@.tags[i].1,
                c.tags@[i].1@,
            ),
        c@.diff == c.diff@,
        same_texts(c@.symbols, c.symbols@),
        same_texts(c@.files, c.files@),
{
}

/// An edge is seen by all of its parts.
pub proof fn law_edge_is_seen(e: CallEdge)
    ensures
        e@.callee == e.callee@,
        e@.caller == e.caller@,
        e@.caller_file_path == e.caller_file_path@,
        same_texts(e@.caller_git_file_hashes, e.caller_git_file_hashes@),
        e@.kind == e.kind@,
{
}

/// A version of an edge is seen by all of its parts.
pub proof fn law_version_is_seen(v: EdgeVersion)
    ensures
        v@.callee == v.callee@,
        v@.caller == v.caller@,
        v@.caller_file_path == v.caller_file_path@,
        v@.kind == v.kind@,
        v@.hash == v.hash@,
{
}

/// Filters are seen by the patterns of each field and by both dates.
pub proof fn law_filters_are_seen(filters: LoreEmailFilters)
    ensures
        same_patterns(filters@.from, filters.from_patterns),
        same_patterns(filters@.subject, filters.subject_patterns),
        same_patterns(filters@.body, filters.body_patterns),
        same_patterns(filters@.symbols, filters.symbols_patterns),
        same_patterns(filters@.recipients, filters.recipients_patterns),
        same_date(filters@.since, filters.since_date),
        same_date(filters@.until, filters.until_date),
{
}

/// Questions to the database and plans of searches are seen by all of their parts.
pub proof fn law_questions_are_seen(query: Query, words: FullTextQuery, plan: Plan)
    ensures
        query@.table == query.table,
        query@.filter == query.filter@,
        query@.limit == query.limit,
        words@.column == words.column@,
        words@.words == words.words@,
        words@.limit == words.limit,
        plan@.pattern == plan.pattern@,
        plan@.mode == plan.mode,
        plan@.git_aware == plan.git_aware,
{
}

} // verus!
