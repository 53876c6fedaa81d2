//! The records that the database hands out.

use vstd::prelude::*;

use crate::text::texts;

verus! {

/// The contents of a text that may be absent.
pub open spec fn text_or_none(text: Option<String>) -> Option<Seq<char>> {
    match text {
        Some(t) => Some(t@),
        None => None,
    }
}

/// The contents of a list that may be absent.
pub open spec fn texts_or_none(list: Option<Vec<String>>) -> Option<Seq<Seq<char>>> {
    match list {
        Some(l) => Some(texts(l@)),
        None => None,
    }
}

/// A function or macro.
#[derive(Debug, Clone)]
pub struct FunctionInfo {
    pub name: String,
    pub file_path: String,
    pub git_file_hash: String,
    pub line_start: u32,
    pub line_end: u32,
    /// Empty for a macro.
    pub return_type: String,
    /// The parameter list, as the JSON text that the database keeps.
    pub parameters: String,
    pub body: String,
    /// What the function calls; absent where it was not analysed.
    pub calls: Option<Vec<String>>,
    /// The types that the function mentions; absent where it was not analysed.
    pub types: Option<Vec<String>>,
}

#[verifier::ext_equal]
pub struct FunctionInfoView {
    pub name: Seq<char>,
    pub file_path: Seq<char>,
    pub git_file_hash: Seq<char>,
    pub line_start: u32,
    pub line_end: u32,
    pub return_type: Seq<char>,
    pub parameters: Seq<char>,
    pub body: Seq<char>,
    pub calls: Option<Seq<Seq<char>>>,
    pub types: Option<Seq<Seq<char>>>,
}

impl View for FunctionInfo {
    type V = FunctionInfoView;

    open spec fn view(&self) -> FunctionInfoView {
        FunctionInfoView {
            name: self.name@,
            file_path: self.file_path@,
            git_file_hash: self.git_file_hash@,
            line_start: self.line_start,
            line_end: self.line_end,
            return_type: self.return_type@,
            parameters: self.parameters@,
            body: self.body@,
            calls: texts_or_none(self.calls),
            types: texts_or_none(self.types),
        }
    }
}

/// A structure, union, enumeration or other type.
#[derive(Debug, Clone)]
pub struct TypeInfo {
    pub name: String,
    pub file_path: String,
    pub git_file_hash: String,
    pub line_start: u32,
    pub kind: String,
    pub size: Option<u64>,
    /// The member list, as the JSON text that the database keeps.
    pub members: String,
    pub definition: String,
    /// The types that the type mentions; absent where it was not analysed.
    pub types: Option<Vec<String>>,
}

#[verifier::ext_equal]
pub struct TypeInfoView {
    pub name: Seq<char>,
    pub file_path: Seq<char>,
    pub git_file_hash: Seq<char>,
    pub line_start: u32,
    pub kind: Seq<char>,
    pub size: Option<u64>,
    pub members: Seq<char>,
    pub definition: Seq<char>,
    pub types: Option<Seq<Seq<char>>>,
}

impl View for TypeInfo {
    type V = TypeInfoView;

    open spec fn view(&self) -> TypeInfoView {
        TypeInfoView {
            name: self.name@,
            file_path: self.file_path@,
            git_file_hash: self.git_file_hash@,
            line_start: self.line_start,
            kind: self.kind@,
            size: self.size,
            members: self.members@,
            definition: self.definition@,
            types: texts_or_none(self.types),
        }
    }
}

/// A type definition that gives another type a name.
#[derive(Debug, Clone)]
pub struct TypedefInfo {
    pub name: String,
    pub file_path: String,
    pub git_file_hash: String,
    pub line_start: u32,
    pub underlying_type: String,
    pub definition: String,
}

#[verifier::ext_equal]
pub struct TypedefInfoView {
    pub name: Seq<char>,
    pub file_path: Seq<char>,
    pub git_file_hash: Seq<char>,
    pub line_start: u32,
    pub underlying_type: Seq<char>,
    pub definition: Seq<char>,
}

impl View for TypedefInfo {
    type V = TypedefInfoView;

    open spec fn view(&self) -> TypedefInfoView {
        TypedefInfoView {
            name: self.name@,
            file_path: self.file_path@,
            git_file_hash: self.git_file_hash@,
            line_start: self.line_start,
            underlying_type: self.underlying_type@,
            definition: self.definition@,
        }
    }
}

/// An email of a mailing list archive.
#[derive(Debug, Clone)]
pub struct LoreEmailInfo {
    pub git_commit_sha: String,
    pub message_id: String,
    pub from: String,
    pub date: String,
    pub date_timestamp: i64,
    pub subject: String,
    pub in_reply_to: Option<String>,
    pub references: Option<String>,
    pub recipients: String,
    pub body: String,
    pub symbols: Vec<String>,
}

#[verifier::ext_equal]
pub struct LoreEmailInfoView {
    pub git_commit_sha: Seq<char>,
    pub message_id: Seq<char>,
    pub from: Seq<char>,
    pub date: Seq<char>,
    pub date_timestamp: i64,
    pub subject: Seq<char>,
    pub in_reply_to: Option<Seq<char>>,
    pub references: Option<Seq<char>>,
    pub recipients: Seq<char>,
    pub body: Seq<char>,
    pub symbols: Seq<Seq<char>>,
}

impl View for LoreEmailInfo {
    type V = LoreEmailInfoView;

    open spec fn view(&self) -> LoreEmailInfoView {
        LoreEmailInfoView {
            git_commit_sha: self.git_commit_sha@,
            message_id: self.message_id@,
            from: self.from@,
            date: self.date@,
            date_timestamp: self.date_timestamp,
            subject: self.subject@,
            in_reply_to: text_or_none(self.in_reply_to),
            references: text_or_none(self.references),
            recipients: self.recipients@,
            body: self.body@,
            symbols: texts(self.symbols@),
        }
    }
}

/// The contents of a list of emails.
pub open spec fn emails_view(list: Seq<LoreEmailInfo>) -> Seq<LoreEmailInfoView> {
    list.map_values(|e: LoreEmailInfo| e@)
}

impl LoreEmailInfo {
    /// An email with the same contents.
    pub fn copied(&self) -> (copy: LoreEmailInfo)
        ensures
            copy@ == self@,
    {
        LoreEmailInfo {
            git_commit_sha: self.git_commit_sha.clone(),
            message_id: self.message_id.clone(),
            from: self.from.clone(),
            date: self.date.clone(),
            date_timestamp: self.date_timestamp,
            subject: self.subject.clone(),
            in_reply_to: copy_option(&self.in_reply_to),
            references: copy_option(&self.references),
            recipients: self.recipients.clone(),
            body: self.body.clone(),
            symbols: copy_texts(&self.symbols),
        }
    }
}

/// A commit.
#[derive(Debug, Clone)]
pub struct GitCommitInfo {
    pub git_sha: String,
    pub parent_sha: Vec<String>,
    pub author: String,
    pub subject: String,
    pub message: String,
    /// The values of each tag, in the order of the tags' names.
    pub tags: Vec<(String, Vec<String>)>,
    pub diff: String,
    pub symbols: Vec<String>,
    pub files: Vec<String>,
}

/// The contents of a list of tags.
pub open spec fn tags_view(tags: Seq<(String, Vec<String>)>) -> Seq<(Seq<char>, Seq<Seq<char>>)> {
    tags.map_values(|t: (String, Vec<String>)| (t.0@, texts(t.1@)))
}

#[verifier::ext_equal]
pub struct GitCommitInfoView {
    pub git_sha: Seq<char>,
    pub parent_sha: Seq<Seq<char>>,
    pub author: Seq<char>,
    pub subject: Seq<char>,
    pub message: Seq<char>,
    pub tags: Seq<(Seq<char>, Seq<Seq<char>>)>,
    pub diff: Seq<char>,
    pub symbols: Seq<Seq<char>>,
    pub files: Seq<Seq<char>>,
}

impl View for GitCommitInfo {
    type V = GitCommitInfoView;

    open spec fn view(&self) -> GitCommitInfoView {
        GitCommitInfoView {
            git_sha: self.git_sha@,
            parent_sha: texts(self.parent_sha@),
            author: self.author@,
            subject: self.subject@,
            message: self.message@,
            tags: tags_view(self.tags@),
            diff: self.diff@,
            symbols: texts(self.symbols@),
            files: texts(self.files@),
        }
    }
}

/// A text that may be absent, copied.
pub fn copy_option(text: &Option<String>) -> (copy: Option<String>)
    ensures
        text_or_none(copy) == text_or_none(*text),
{
    match text {
        Some(t) => Some(t.clone()),
        None => None,
    }
}

/// A list of texts, copied.
pub fn copy_slice(list: &[String]) -> (copy: Vec<String>)
    ensures
        texts(copy@) == texts(list@),
{
    let mut copy: Vec<String> = Vec::new();
    let mut i: usize = 0;
    while i < list.len()
        invariant
            i <= list@.len(),
            copy@.len() == i,
            forall|k: int| 0 <= k < i ==> (#[trigger] copy@[k])@ == list@[k]@,
        decreases list@.len() - i,
    {
        copy.push(list[i].clone());
        i = i + 1;
    }
    assert(texts(copy@) =~= texts(list@));
    copy
}

/// A list of texts, copied.
pub fn copy_texts(list: &Vec<String>) -> (copy: Vec<String>)
    ensures
        texts(copy@) == texts(list@),
{
    copy_slice(list.as_slice())
}

} // verus!
