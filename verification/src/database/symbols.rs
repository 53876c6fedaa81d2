//! Rows of the tables of functions and types, and the records made from them.

use vstd::prelude::*;
use vstd::string::*;

use crate::pattern::{find_ignoring_case, matches_ignoring_case};
use crate::text::{find_char, first_of, has_prefix, lemma_first_of, same_text, starts_with, text_of,
    to_chars};
use crate::types::{
    copy_option, text_or_none, FunctionInfo, FunctionInfoView, TypeInfo, TypeInfoView, TypedefInfo,
    TypedefInfoView,
};

verus! {

/// What a search goes by.
#[derive(Clone, Copy, PartialEq, Eq, Structural, Debug)]
pub enum Mode {
    /// A name, in full if there is such a symbol, else as part of the name.
    Fuzzy,
    /// A regular expression for the name.
    Regex,
    /// The kind of a type.
    Kind,
}

/// The table that a search reads.
#[derive(Clone, Copy, PartialEq, Eq, Structural, Debug)]
pub enum Table {
    Functions,
    Types,
}

/// What is searched for, and whether only at one commit.
#[derive(Debug)]
pub struct Plan {
    pub pattern: String,
    pub mode: Mode,
    pub git_aware: bool,
}

#[verifier::ext_equal]
pub struct PlanView {
    pub pattern: Seq<char>,
    pub mode: Mode,
    pub git_aware: bool,
}

impl View for Plan {
    type V = PlanView;

    open spec fn view(&self) -> PlanView {
        PlanView { pattern: self.pattern@, mode: self.mode, git_aware: self.git_aware }
    }
}

/// A row of the table of functions.
#[derive(Debug)]
pub struct FunctionRow {
    pub name: String,
    pub file_path: String,
    pub git_file_hash: String,
    pub line_start: i64,
    pub line_end: i64,
    pub return_type: String,
    pub parameters: String,
    /// What is wrong with the parameters, where they are not the JSON that they should be.
    pub fault: Option<String>,
    /// Where the body is kept; absent where there is none.
    pub body_hash: Option<String>,
}

/// A row of the table of types.
#[derive(Debug)]
pub struct TypeRow {
    pub name: String,
    pub file_path: String,
    pub git_file_hash: String,
    pub line: i64,
    pub kind: String,
    pub size: Option<i64>,
    pub fields: String,
    /// What is wrong with the fields, where they are not the JSON that they should be.
    pub fault: Option<String>,
    /// Where the definition is kept; absent where there is none.
    pub definition_hash: Option<String>,
}

/// A row of the table of types, read as that of a type definition.
#[derive(Debug)]
pub struct TypedefRow {
    pub row: TypeRow,
}

/// The kind of the rows that are type definitions.
pub const TYPEDEF_KIND: &'static str = "typedef";

/// What a definition starts with where it tells the underlying type.
pub const UNDERLYING_MARK: &'static str = "// Underlying type: ";

/// What is said of the underlying type where it is not known.
pub const UNKNOWN_TYPE: &'static str = "unknown";

/// The function that a row and the body kept for it stand for. What it calls and
/// mentions is not read by searches.
pub open spec fn function_of(row: FunctionRow, body: Seq<char>) -> FunctionInfoView {
    FunctionInfoView {
        name: row.name@,
        file_path: row.file_path@,
        git_file_hash: row.git_file_hash@,
        line_start: row.line_start as u32,
        line_end: row.line_end as u32,
        return_type: row.return_type@,
        parameters: row.parameters@,
        body,
        calls: None,
        types: None,
    }
}

/// The type that a row and the definition kept for it stand for.
pub open spec fn type_of(row: TypeRow, definition: Seq<char>) -> TypeInfoView {
    TypeInfoView {
        name: row.name@,
        file_path: row.file_path@,
        git_file_hash: row.git_file_hash@,
        line_start: row.line as u32,
        kind: row.kind@,
        size: match row.size {
            Some(size) => Some(size as u64),
            None => None,
        },
        members: row.fields@,
        definition,
        types: None,
    }
}

/// The underlying type that a definition tells in its first line, and the rest of
/// the definition; a definition that does not is kept whole.
pub open spec fn split_definition(definition: Seq<char>) -> (Seq<char>, Seq<char>) {
    let end = first_of(definition, '\n');
    if has_prefix(definition, UNDERLYING_MARK@) && end < definition.len() {
        (definition.subrange(UNDERLYING_MARK@.len() as int, end), definition.skip(end + 1))
    } else {
        (UNKNOWN_TYPE@, definition)
    }
}

/// The type definition that a row stands for, with what its definition tells.
pub open spec fn typedef_of(
    row: TypeRow,
    parts: (Seq<char>, Seq<char>),
) -> TypedefInfoView {
    TypedefInfoView {
        name: row.name@,
        file_path: row.file_path@,
        git_file_hash: row.git_file_hash@,
        line_start: row.line as u32,
        underlying_type: parts.0,
        definition: parts.1,
    }
}

/// Splits a definition into the underlying type and the rest.
pub fn split_underlying(definition: &str) -> (parts: (String, String))
    ensures
        (parts.0@, parts.1@) == split_definition(definition@),
{
    if starts_with(definition, UNDERLYING_MARK) {
        let chars = to_chars(definition);
        let end = find_char(&chars, 0, '\n');
        proof {
            reveal_strlit("// Underlying type: ");
            assert(chars@.skip(0) =~= chars@);
            lemma_first_of(chars@, '\n');
            assert(definition@.take(20)[0] == '/');
            if end < 20 {
                assert(definition@.take(20)[end as int] == '\n');
            }
        }
        if end < chars.len() {
            let rest = text_of(&chars, end + 1, chars.len());
            assert(rest@ =~= definition@.skip(end + 1));
            return (text_of(&chars, 20, end), rest);
        }
    }
    (UNKNOWN_TYPE.to_string(), definition.to_string())
}

/// A row that a search finds, and the record that is made from it.
pub trait Symbol: Sized {
    type Info: View;

    /// The table that holds such rows.
    spec fn table_spec() -> Table;

    /// Whether only type definitions are asked for.
    spec fn typedefs_spec() -> bool;

    spec fn path_spec(&self) -> Seq<char>;

    /// Why no record can be made from the row, if so.
    spec fn fault_spec(&self) -> Option<Seq<char>>;

    /// Where what belongs to the row is kept, if anything.
    spec fn content_spec(&self) -> Option<Seq<char>>;

    /// Whether the row is one that the search is about.
    spec fn kept_spec(&self, plan: PlanView) -> bool;

    /// The record made from the row and what is kept for it.
    spec fn info_spec(&self, plan: PlanView, content: Seq<char>) -> <Self::Info as View>::V;

    fn table() -> (table: Table)
        ensures
            table == Self::table_spec(),
    ;

    fn typedefs() -> (yes: bool)
        ensures
            yes == Self::typedefs_spec(),
    ;

    fn path(&self) -> (path: String)
        ensures
            path@ == self.path_spec(),
    ;

    fn fault(&self) -> (fault: Option<String>)
        ensures
            text_or_none(fault) == self.fault_spec(),
    ;

    fn content_hash(&self) -> (hash: Option<String>)
        ensures
            text_or_none(hash) == self.content_spec(),
    ;

    fn kept(&self, plan: &Plan) -> (yes: bool)
        ensures
            yes == self.kept_spec(plan@),
    ;

    fn info(&self, plan: &Plan, content: String) -> (info: Self::Info)
        ensures
            info@ == self.info_spec(plan@, content@),
    ;
}

impl Symbol for FunctionRow {
    type Info = FunctionInfo;

    open spec fn table_spec() -> Table {
        Table::Functions
    }

    open spec fn typedefs_spec() -> bool {
        false
    }

    open spec fn path_spec(&self) -> Seq<char> {
        self.file_path@
    }

    open spec fn fault_spec(&self) -> Option<Seq<char>> {
        text_or_none(self.fault)
    }

    open spec fn content_spec(&self) -> Option<Seq<char>> {
        text_or_none(self.body_hash)
    }

    open spec fn kept_spec(&self, plan: PlanView) -> bool {
        plan.mode == Mode::Regex ==> matches_ignoring_case(plan.pattern, self.name@)
    }

    open spec fn info_spec(&self, plan: PlanView, content: Seq<char>) -> FunctionInfoView {
        function_of(*self, content)
    }

    fn table() -> (table: Table) {
        Table::Functions
    }

    fn typedefs() -> (yes: bool) {
        false
    }

    fn path(&self) -> (path: String) {
        self.file_path.clone()
    }

    fn fault(&self) -> (fault: Option<String>) {
        copy_option(&self.fault)
    }

    fn content_hash(&self) -> (hash: Option<String>) {
        copy_option(&self.body_hash)
    }

    fn kept(&self, plan: &Plan) -> (yes: bool) {
        match plan.mode {
            Mode::Regex => find_ignoring_case(plan.pattern.as_str(), self.name.as_str()),
            _ => true,
        }
    }

    fn info(&self, plan: &Plan, content: String) -> (info: FunctionInfo) {
        FunctionInfo {
            name: self.name.clone(),
            file_path: self.file_path.clone(),
            git_file_hash: self.git_file_hash.clone(),
            line_start: #[verifier::truncate] (self.line_start as u32),
            line_end: #[verifier::truncate] (self.line_end as u32),
            return_type: self.return_type.clone(),
            parameters: self.parameters.clone(),
            body: content,
            calls: None,
            types: None,
        }
    }
}

impl Symbol for TypeRow {
    type Info = TypeInfo;

    open spec fn table_spec() -> Table {
        Table::Types
    }

    open spec fn typedefs_spec() -> bool {
        false
    }

    open spec fn path_spec(&self) -> Seq<char> {
        self.file_path@
    }

    open spec fn fault_spec(&self) -> Option<Seq<char>> {
        text_or_none(self.fault)
    }

    open spec fn content_spec(&self) -> Option<Seq<char>> {
        text_or_none(self.definition_hash)
    }

    open spec fn kept_spec(&self, plan: PlanView) -> bool {
        plan.mode == Mode::Regex ==> self.kind@ != TYPEDEF_KIND@ && (plan.git_aware
            ==> matches_ignoring_case(plan.pattern, self.name@))
    }

    open spec fn info_spec(&self, plan: PlanView, content: Seq<char>) -> TypeInfoView {
        type_of(*self, content)
    }

    fn table() -> (table: Table) {
        Table::Types
    }

    fn typedefs() -> (yes: bool) {
        false
    }

    fn path(&self) -> (path: String) {
        self.file_path.clone()
    }

    fn fault(&self) -> (fault: Option<String>) {
        copy_option(&self.fault)
    }

    fn content_hash(&self) -> (hash: Option<String>) {
        copy_option(&self.definition_hash)
    }

    fn kept(&self, plan: &Plan) -> (yes: bool) {
        match plan.mode {
            Mode::Regex => !same_text(self.kind.as_str(), TYPEDEF_KIND) && (!plan.git_aware
                || find_ignoring_case(plan.pattern.as_str(), self.name.as_str())),
            _ => true,
        }
    }

    fn info(&self, plan: &Plan, content: String) -> (info: TypeInfo) {
        TypeInfo {
            name: self.name.clone(),
            file_path: self.file_path.clone(),
            git_file_hash: self.git_file_hash.clone(),
            line_start: #[verifier::truncate] (self.line as u32),
            kind: self.kind.clone(),
            size: match self.size {
                Some(size) => Some(#[verifier::truncate] (size as u64)),
                None => None,
            },
            members: self.fields.clone(),
            definition: content,
            types: None,
        }
    }
}

impl Symbol for TypedefRow {
    type Info = TypedefInfo;

    open spec fn table_spec() -> Table {
        Table::Types
    }

    open spec fn typedefs_spec() -> bool {
        true
    }

    open spec fn path_spec(&self) -> Seq<char> {
        self.row.file_path@
    }

    /// A search for type definitions does not read the fields.
    open spec fn fault_spec(&self) -> Option<Seq<char>> {
        None
    }

    open spec fn content_spec(&self) -> Option<Seq<char>> {
        text_or_none(self.row.definition_hash)
    }

    /// A search by name at a commit has asked the database for type definitions
    /// only; the others look at the kind here.
    open spec fn kept_spec(&self, plan: PlanView) -> bool {
        if plan.git_aware {
            plan.mode == Mode::Regex ==> self.row.kind@ == TYPEDEF_KIND@ && matches_ignoring_case(
                plan.pattern,
                self.row.name@,
            )
        } else {
            self.row.kind@ == TYPEDEF_KIND@
        }
    }

    /// A search by pattern at a commit leaves the definition as it is kept.
    open spec fn info_spec(&self, plan: PlanView, content: Seq<char>) -> TypedefInfoView {
        if plan.git_aware && plan.mode == Mode::Regex {
            typedef_of(self.row, (UNKNOWN_TYPE@, content))
        } else {
            typedef_of(self.row, split_definition(content))
        }
    }

    fn table() -> (table: Table) {
        Table::Types
    }

    fn typedefs() -> (yes: bool) {
        true
    }

    fn path(&self) -> (path: String) {
        self.row.file_path.clone()
    }

    fn fault(&self) -> (fault: Option<String>) {
        None
    }

    fn content_hash(&self) -> (hash: Option<String>) {
        copy_option(&self.row.definition_hash)
    }

    fn kept(&self, plan: &Plan) -> (yes: bool) {
        if plan.git_aware {
            match plan.mode {
                Mode::Regex => same_text(self.row.kind.as_str(), TYPEDEF_KIND)
                    && find_ignoring_case(plan.pattern.as_str(), self.row.name.as_str()),
                _ => true,
            }
        } else {
            same_text(self.row.kind.as_str(), TYPEDEF_KIND)
        }
    }

    fn info(&self, plan: &Plan, content: String) -> (info: TypedefInfo) {
        let whole = plan.git_aware && match plan.mode {
            Mode::Regex => true,
            _ => false,
        };
        let (underlying_type, definition) = if whole {
            (UNKNOWN_TYPE.to_string(), content)
        } else {
            split_underlying(content.as_str())
        };
        TypedefInfo {
            name: self.row.name.clone(),
            file_path: self.row.file_path.clone(),
            git_file_hash: self.row.git_file_hash.clone(),
            line_start: #[verifier::truncate] (self.row.line as u32),
            underlying_type,
            definition,
        }
    }
}

} // verus!
