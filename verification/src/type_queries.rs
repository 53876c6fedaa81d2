//! Queries for types and typedefs by name.
//!
//! A query is a chain of steps, as for functions: the name itself, then the name as a
//! pattern, then suggestions.

use vstd::prelude::*;
use vstd::string::*;

use crate::queries::{first_few, SUGGESTIONS};
use crate::search::{heading_line, types_view, typedefs_view, write_heading};
use crate::style::{cyan, in_cyan, in_red, in_yellow, red, yellow};
use crate::text::{
    decimal, number, put_together, strip_prefixes, texts, together, without_prefixes,
};
use crate::types::{TypeInfo, TypeInfoView, TypedefInfo, TypedefInfoView};

verus! {

/// A piece of what is shown: a text, or a type or typedef in full.
pub enum Piece {
    Text(String),
    Type(TypeInfo),
    Typedef(TypedefInfo),
}

#[verifier::ext_equal]
pub enum PieceView {
    Text(Seq<char>),
    Type(TypeInfoView),
    Typedef(TypedefInfoView),
}

impl View for Piece {
    type V = PieceView;

    open spec fn view(&self) -> PieceView {
        match *self {
            Piece::Text(text) => PieceView::Text(text@),
            Piece::Type(info) => PieceView::Type(info@),
            Piece::Typedef(info) => PieceView::Typedef(info@),
        }
    }
}

/// The views of a list of pieces.
pub open spec fn pieces_view(pieces: Seq<Piece>) -> Seq<PieceView> {
    pieces.map_values(|piece: Piece| piece@)
}

/// Types as pieces.
pub open spec fn type_pieces(types: Seq<TypeInfoView>) -> Seq<PieceView> {
    types.map_values(|info: TypeInfoView| PieceView::Type(info))
}

/// Typedefs as pieces.
pub open spec fn typedef_pieces(typedefs: Seq<TypedefInfoView>) -> Seq<PieceView> {
    typedefs.map_values(|info: TypedefInfoView| PieceView::Typedef(info))
}

/// The view of a typedef that may be there.
pub open spec fn typedef_or_none(typedef: Option<TypedefInfo>) -> Option<TypedefInfoView> {
    match typedef {
        Some(typedef) => Some(typedef@),
        None => None,
    }
}

/// A query for a type by name.
struct TypeQuery {
    name: String,
    git_sha: String,
}

#[verifier::ext_equal]
pub struct TypeQueryView {
    /// The name without a leading `struct`, `union` or `enum`.
    pub name: Seq<char>,
    pub git_sha: Seq<char>,
}

impl TypeQuery {
    spec fn view(&self) -> TypeQueryView {
        TypeQueryView { name: self.name@, git_sha: self.git_sha@ }
    }
}

/// A query that waits for the types and the typedef of the name.
pub struct AwaitTypesNamed {
    query: TypeQuery,
}

/// A query that waits for what the name finds as a pattern.
pub struct AwaitTypesMatching {
    query: TypeQuery,
}

/// A query that waits for suggestions.
pub struct AwaitTypesLike {
    query: TypeQuery,
}

impl AwaitTypesNamed {
    pub closed spec fn state(&self) -> TypeQueryView {
        self.query.view()
    }
}

impl AwaitTypesMatching {
    pub closed spec fn state(&self) -> TypeQueryView {
        self.query.view()
    }
}

impl AwaitTypesLike {
    pub closed spec fn state(&self) -> TypeQueryView {
        self.query.view()
    }
}

/// What is to be done next: show the text or the pieces, then what the step says.
pub enum TypeQueryStep {
    /// Nothing more.
    Done(Vec<Piece>),
    /// Find the types and the typedef of the name at the commit; then
    /// [`AwaitTypesNamed::found`].
    Named(String, AwaitTypesNamed),
    /// Find the types and typedefs that the name finds as a pattern at the commit; then
    /// [`AwaitTypesMatching::found`].
    Matching(AwaitTypesMatching),
    /// Find types and typedefs with a name like it at the commit; then
    /// [`AwaitTypesLike::found`].
    Like(String, AwaitTypesLike),
}

#[verifier::ext_equal]
pub enum TypeQueryStepView {
    Done(Seq<PieceView>),
    Named(Seq<char>, TypeQueryView),
    Matching(TypeQueryView),
    Like(Seq<char>, TypeQueryView),
}

impl View for TypeQueryStep {
    type V = TypeQueryStepView;

    open spec fn view(&self) -> TypeQueryStepView {
        match *self {
            TypeQueryStep::Done(pieces) => TypeQueryStepView::Done(pieces_view(pieces@)),
            TypeQueryStep::Named(text, wait) => TypeQueryStepView::Named(text@, wait.state()),
            TypeQueryStep::Matching(wait) => TypeQueryStepView::Matching(wait.state()),
            TypeQueryStep::Like(text, wait) => TypeQueryStepView::Like(text@, wait.state()),
        }
    }
}

/// A name without the leading `struct`s, then `union`s, then `enum`s.
pub open spec fn clean_name(name: Seq<char>) -> Seq<char> {
    without_prefixes(
        without_prefixes(without_prefixes(name, "struct "@), "union "@),
        "enum "@,
    )
}

/// The first step of a query.
pub open spec fn type_query_start(name: Seq<char>, git_sha: Seq<char>) -> TypeQueryStepView {
    TypeQueryStepView::Named(
        "Searching for type or typedef: "@ + in_cyan(clean_name(name)) + " (git SHA: "@
            + in_yellow(git_sha) + ")\n"@,
        TypeQueryView { name: clean_name(name), git_sha },
    )
}

/// The note that there is a type and a typedef.
pub open spec fn both_note(git_sha: Seq<char>) -> Seq<char> {
    "\n"@ + in_yellow("Note:"@) + " Found both a type and a typedef with this name at git SHA "@
        + in_yellow(git_sha) + "!\n"@
}

/// The note that there are several types.
pub open spec fn several_types_note(count: nat) -> Seq<char> {
    "\n"@ + in_yellow("Note:"@) + " Found "@ + decimal(count) + " type definitions:\n"@
}

/// The step after the types and the typedef of the name came.
pub open spec fn after_types_named(
    query: TypeQueryView,
    types: Seq<TypeInfoView>,
    typedef: Option<TypedefInfoView>,
) -> TypeQueryStepView {
    if types.len() == 0 && typedef is None {
        TypeQueryStepView::Matching(query)
    } else {
        let both = if types.len() > 0 && typedef is Some {
            both_note(query.git_sha)
        } else {
            ""@
        };
        let several = if types.len() > 1 {
            several_types_note(types.len())
        } else {
            ""@
        };
        let last = match typedef {
            Some(typedef) => seq![PieceView::Typedef(typedef)],
            None => seq![],
        };
        TypeQueryStepView::Done(
            seq![PieceView::Text(both + several)] + type_pieces(types) + last,
        )
    }
}

/// The text that says that a pattern found what `what` names.
pub open spec fn pattern_info(query: TypeQueryView, what: Seq<char>) -> Seq<char> {
    "\n"@ + in_yellow("Info:"@) + " No exact match found for '"@ + query.name + "' at git SHA "@
        + in_yellow(query.git_sha) + ", but found "@ + what
        + " using it as a regex pattern:\n"@
}

/// The step after the types and typedefs came that the name finds as a pattern.
pub open spec fn after_types_matching(
    query: TypeQueryView,
    types: Seq<TypeInfoView>,
    typedefs: Seq<TypedefInfoView>,
) -> TypeQueryStepView {
    if types.len() > 0 && typedefs.len() > 0 {
        TypeQueryStepView::Done(
            seq![
                PieceView::Text(
                    pattern_info(query, "matches"@) + heading_line(
                        "=== Types (regex matches) ==="@,
                    ),
                ),
            ] + type_pieces(types) + seq![
                PieceView::Text(heading_line("=== Typedefs (regex matches) ==="@)),
            ] + typedef_pieces(typedefs),
        )
    } else if types.len() > 0 {
        TypeQueryStepView::Done(
            seq![PieceView::Text(pattern_info(query, "types"@))] + type_pieces(types),
        )
    } else if typedefs.len() > 0 {
        TypeQueryStepView::Done(
            seq![PieceView::Text(pattern_info(query, "typedefs"@))] + typedef_pieces(typedefs),
        )
    } else {
        TypeQueryStepView::Like(
            in_red("Error:"@) + " No type or typedef '"@ + query.name + "' found at git SHA "@
                + in_yellow(query.git_sha) + "\n"@,
            query,
        )
    }
}

/// The line of a suggested type.
pub open spec fn type_suggestion(info: TypeInfoView, git_sha: Seq<char>) -> Seq<char> {
    "  - "@ + in_yellow("type --git"@) + " "@ + info.kind + " "@ + info.name
        + " (at git SHA "@ + in_yellow(git_sha) + ")\n"@
}

/// The line of a suggested typedef.
pub open spec fn typedef_suggestion(info: TypedefInfoView, git_sha: Seq<char>) -> Seq<char> {
    "  - "@ + in_yellow("typedef --git"@) + " "@ + info.name + " (at git SHA "@ + in_yellow(
        git_sha,
    ) + ")\n"@
}

/// The lines of the suggested types.
pub open spec fn type_suggestions(types: Seq<TypeInfoView>, git_sha: Seq<char>) -> Seq<Seq<char>> {
    first_few(types).map_values(|info: TypeInfoView| type_suggestion(info, git_sha))
}

/// The lines of the suggested typedefs.
pub open spec fn typedef_suggestions(
    typedefs: Seq<TypedefInfoView>,
    git_sha: Seq<char>,
) -> Seq<Seq<char>> {
    first_few(typedefs).map_values(|info: TypedefInfoView| typedef_suggestion(info, git_sha))
}

/// The step after types and typedefs with a name like it came.
pub open spec fn after_types_like(
    query: TypeQueryView,
    types: Seq<TypeInfoView>,
    typedefs: Seq<TypedefInfoView>,
) -> TypeQueryStepView {
    if types.len() == 0 && typedefs.len() == 0 {
        TypeQueryStepView::Done(seq![])
    } else {
        TypeQueryStepView::Done(
            seq![
                PieceView::Text(
                    "\nDid you mean:\n"@ + together(type_suggestions(types, query.git_sha))
                        + together(typedef_suggestions(typedefs, query.git_sha)),
                ),
            ],
        )
    }
}

/// Puts types behind pieces.
fn add_types(pieces: &mut Vec<Piece>, types: Vec<TypeInfo>)
    ensures
        pieces_view(final(pieces)@) == pieces_view(old(pieces)@) + type_pieces(types_view(types@)),
{
    let ghost all = type_pieces(types_view(types@));
    let ghost start = pieces_view(pieces@);
    let mut backwards = types;
    let mut list: Vec<TypeInfo> = Vec::new();
    while backwards.len() > 0
        invariant
            all == type_pieces(types_view(backwards@)) + type_pieces(types_view(list@)).reverse(),
        decreases backwards@.len(),
    {
        let ghost before = type_pieces(types_view(backwards@));
        let ghost done = type_pieces(types_view(list@));
        match backwards.pop() {
            Some(info) => {
                let ghost it = PieceView::Type(info@);
                list.push(info);
                assert(before =~= type_pieces(types_view(backwards@)).push(it));
                assert(type_pieces(types_view(list@)) =~= done.push(it));
                assert(done.push(it).reverse() =~= seq![it] + done.reverse());
                assert(type_pieces(types_view(backwards@)) + type_pieces(
                    types_view(list@),
                ).reverse() =~= before + done.reverse());
            },
            None => {},
        }
    }
    assert(start + type_pieces(types_view(list@)).reverse() =~= start + all);
    while list.len() > 0
        invariant
            start + all == pieces_view(pieces@) + type_pieces(types_view(list@)).reverse(),
        decreases list@.len(),
    {
        let ghost before = pieces_view(pieces@);
        let ghost rest = type_pieces(types_view(list@));
        match list.pop() {
            Some(info) => {
                let ghost it = PieceView::Type(info@);
                pieces.push(Piece::Type(info));
                assert(pieces_view(pieces@) =~= before.push(it));
                assert(rest =~= type_pieces(types_view(list@)).push(it));
                assert(rest.reverse() =~= seq![it] + type_pieces(types_view(list@)).reverse());
                assert(pieces_view(pieces@) + type_pieces(types_view(list@)).reverse()
                    =~= before + rest.reverse());
            },
            None => {},
        }
    }
    assert(pieces_view(pieces@) + type_pieces(types_view(list@)).reverse() =~= pieces_view(
        pieces@,
    ));
}

/// Puts typedefs behind pieces.
fn add_typedefs(pieces: &mut Vec<Piece>, typedefs: Vec<TypedefInfo>)
    ensures
        pieces_view(final(pieces)@) == pieces_view(old(pieces)@) + typedef_pieces(
            typedefs_view(typedefs@),
        ),
{
    let ghost all = typedef_pieces(typedefs_view(typedefs@));
    let ghost start = pieces_view(pieces@);
    let mut backwards = typedefs;
    let mut list: Vec<TypedefInfo> = Vec::new();
    while backwards.len() > 0
        invariant
            all == typedef_pieces(typedefs_view(backwards@)) + typedef_pieces(
                typedefs_view(list@),
            ).reverse(),
        decreases backwards@.len(),
    {
        let ghost before = typedef_pieces(typedefs_view(backwards@));
        let ghost done = typedef_pieces(typedefs_view(list@));
        match backwards.pop() {
            Some(info) => {
                let ghost it = PieceView::Typedef(info@);
                list.push(info);
                assert(before =~= typedef_pieces(typedefs_view(backwards@)).push(it));
                assert(typedef_pieces(typedefs_view(list@)) =~= done.push(it));
                assert(done.push(it).reverse() =~= seq![it] + done.reverse());
                assert(typedef_pieces(typedefs_view(backwards@)) + typedef_pieces(
                    typedefs_view(list@),
                ).reverse() =~= before + done.reverse());
            },
            None => {},
        }
    }
    assert(start + typedef_pieces(typedefs_view(list@)).reverse() =~= start + all);
    while list.len() > 0
        invariant
            start + all == pieces_view(pieces@) + typedef_pieces(typedefs_view(list@)).reverse(),
        decreases list@.len(),
    {
        let ghost before = pieces_view(pieces@);
        let ghost rest = typedef_pieces(typedefs_view(list@));
        match list.pop() {
            Some(info) => {
                let ghost it = PieceView::Typedef(info@);
                pieces.push(Piece::Typedef(info));
                assert(pieces_view(pieces@) =~= before.push(it));
                assert(rest =~= typedef_pieces(typedefs_view(list@)).push(it));
                assert(rest.reverse() =~= seq![it] + typedef_pieces(
                    typedefs_view(list@),
                ).reverse());
                assert(pieces_view(pieces@) + typedef_pieces(typedefs_view(list@)).reverse()
                    =~= before + rest.reverse());
            },
            None => {},
        }
    }
    assert(pieces_view(pieces@) + typedef_pieces(typedefs_view(list@)).reverse()
        =~= pieces_view(pieces@));
}

/// Puts a text behind pieces.
fn add_text(pieces: &mut Vec<Piece>, text: String)
    ensures
        pieces_view(final(pieces)@) == pieces_view(old(pieces)@).push(PieceView::Text(text@)),
{
    let ghost before = pieces_view(pieces@);
    pieces.push(Piece::Text(text));
    assert(pieces_view(pieces@) =~= before.push(PieceView::Text(text@)));
}

/// Starts a query for a type or typedef by name.
pub fn query_type_or_typedef_to_writer(name: &str, git_sha: &str) -> (step: TypeQueryStep)
    ensures
        step@ == type_query_start(name@, git_sha@),
{
    let no_struct = strip_prefixes(name, "struct ");
    let no_union = strip_prefixes(no_struct.as_str(), "union ");
    let clean = strip_prefixes(no_union.as_str(), "enum ");
    let text = String::from_str("Searching for type or typedef: ").concat(
        cyan(clean.as_str()).as_str(),
    ).concat(" (git SHA: ").concat(yellow(git_sha).as_str()).concat(")\n");
    TypeQueryStep::Named(
        text,
        AwaitTypesNamed { query: TypeQuery { name: clean, git_sha: git_sha.to_string() } },
    )
}

/// Starts a query for a type or typedef by name whose text goes to the terminal.
pub fn query_type_or_typedef(name: &str, git_sha: &str) -> (step: TypeQueryStep)
    ensures
        step@ == type_query_start(name@, git_sha@),
{
    query_type_or_typedef_to_writer(name, git_sha)
}

impl AwaitTypesNamed {
    /// The name that is asked for.
    pub fn name(&self) -> (name: &str)
        ensures
            name@ == self.state().name,
    {
        self.query.name.as_str()
    }

    /// The types and the typedef of the name.
    pub fn found(self, types: Vec<TypeInfo>, typedef: Option<TypedefInfo>) -> (step: TypeQueryStep)
        ensures
            step@ == after_types_named(self.state(), types_view(types@), typedef_or_none(typedef)),
    {
        assert(types_view(types@).len() == types@.len());
        if types.len() == 0 && typedef.is_none() {
            return TypeQueryStep::Matching(AwaitTypesMatching { query: self.query });
        }
        let both = if types.len() > 0 && typedef.is_some() {
            String::from_str("\n").concat(yellow("Note:").as_str()).concat(
                " Found both a type and a typedef with this name at git SHA ",
            ).concat(yellow(self.query.git_sha.as_str()).as_str()).concat("!\n")
        } else {
            String::from_str("")
        };
        let several = if types.len() > 1 {
            String::from_str("\n").concat(yellow("Note:").as_str()).concat(" Found ").concat(
                number(types.len()).as_str(),
            ).concat(" type definitions:\n")
        } else {
            String::from_str("")
        };
        let mut pieces: Vec<Piece> = Vec::new();
        let head = both.concat(several.as_str());
        let ghost first = PieceView::Text(head@);
        add_text(&mut pieces, head);
        assert(pieces_view(pieces@) =~= seq![first]);
        add_types(&mut pieces, types);
        let ghost before = pieces_view(pieces@);
        match typedef {
            Some(info) => {
                let ghost it = PieceView::Typedef(info@);
                pieces.push(Piece::Typedef(info));
                assert(pieces_view(pieces@) =~= before + seq![it]);
            },
            None => {
                assert(before =~= before + seq![]);
            },
        }
        TypeQueryStep::Done(pieces)
    }
}

/// Writes the text that says that a pattern found what `what` names.
fn write_pattern_info(query: &TypeQuery, what: &str) -> (text: String)
    ensures
        text@ == pattern_info(query.view(), what@),
{
    String::from_str("\n").concat(yellow("Info:").as_str()).concat(
        " No exact match found for '",
    ).concat(query.name.as_str()).concat("' at git SHA ").concat(
        yellow(query.git_sha.as_str()).as_str(),
    ).concat(", but found ").concat(what).concat(" using it as a regex pattern:\n")
}

impl AwaitTypesMatching {
    /// The name that is asked for.
    pub fn name(&self) -> (name: &str)
        ensures
            name@ == self.state().name,
    {
        self.query.name.as_str()
    }

    /// The types and typedefs that the name finds as a pattern.
    pub fn found(self, types: Vec<TypeInfo>, typedefs: Vec<TypedefInfo>) -> (step: TypeQueryStep)
        ensures
            step@ == after_types_matching(
                self.state(),
                types_view(types@),
                typedefs_view(typedefs@),
            ),
    {
        assert(types_view(types@).len() == types@.len());
        assert(typedefs_view(typedefs@).len() == typedefs@.len());
        let mut pieces: Vec<Piece> = Vec::new();
        if types.len() > 0 && typedefs.len() > 0 {
            let head = write_pattern_info(&self.query, "matches").concat(
                write_heading("=== Types (regex matches) ===").as_str(),
            );
            let ghost first = PieceView::Text(head@);
            add_text(&mut pieces, head);
            assert(pieces_view(pieces@) =~= seq![first]);
            add_types(&mut pieces, types);
            let ghost before = pieces_view(pieces@);
            let second = write_heading("=== Typedefs (regex matches) ===");
            let ghost middle = PieceView::Text(second@);
            add_text(&mut pieces, second);
            assert(before.push(middle) =~= before + seq![middle]);
            add_typedefs(&mut pieces, typedefs);
            TypeQueryStep::Done(pieces)
        } else if types.len() > 0 {
            let head = write_pattern_info(&self.query, "types");
            let ghost first = PieceView::Text(head@);
            add_text(&mut pieces, head);
            assert(pieces_view(pieces@) =~= seq![first]);
            add_types(&mut pieces, types);
            TypeQueryStep::Done(pieces)
        } else if typedefs.len() > 0 {
            let head = write_pattern_info(&self.query, "typedefs");
            let ghost first = PieceView::Text(head@);
            add_text(&mut pieces, head);
            assert(pieces_view(pieces@) =~= seq![first]);
            add_typedefs(&mut pieces, typedefs);
            TypeQueryStep::Done(pieces)
        } else {
            let text = red("Error:").concat(" No type or typedef '").concat(
                self.query.name.as_str(),
            ).concat("' found at git SHA ").concat(
                yellow(self.query.git_sha.as_str()).as_str(),
            ).concat("\n");
            TypeQueryStep::Like(text, AwaitTypesLike { query: self.query })
        }
    }
}

/// Writes the lines of the suggested types.
fn suggest_types(types: &Vec<TypeInfo>, git_sha: &str) -> (text: String)
    ensures
        text@ == together(type_suggestions(types_view(types@), git_sha@)),
{
    let ghost shown = first_few(types_view(types@));
    let ghost expected = type_suggestions(types_view(types@), git_sha@);
    let mut rows: Vec<String> = Vec::new();
    let mut i: usize = 0;
    while i < types.len() && i < SUGGESTIONS
        invariant
            i <= types@.len(),
            i <= SUGGESTIONS,
            shown == first_few(types_view(types@)),
            expected == type_suggestions(types_view(types@), git_sha@),
            texts(rows@) == expected.take(i as int),
        decreases types@.len() - i,
    {
        let ghost before = texts(rows@);
        let row = String::from_str("  - ").concat(yellow("type --git").as_str()).concat(
            " ",
        ).concat(types[i].kind.as_str()).concat(" ").concat(types[i].name.as_str()).concat(
            " (at git SHA ",
        ).concat(yellow(git_sha).as_str()).concat(")\n");
        assert(shown[i as int] == types@[i as int]@);
        assert(row@ == expected[i as int]);
        rows.push(row);
        assert(texts(rows@) =~= before.push(expected[i as int]));
        assert(expected.take(i + 1) =~= before.push(expected[i as int]));
        i = i + 1;
    }
    assert(expected.take(i as int) =~= expected);
    put_together(&rows)
}

/// Writes the lines of the suggested typedefs.
fn suggest_typedefs(typedefs: &Vec<TypedefInfo>, git_sha: &str) -> (text: String)
    ensures
        text@ == together(typedef_suggestions(typedefs_view(typedefs@), git_sha@)),
{
    let ghost shown = first_few(typedefs_view(typedefs@));
    let ghost expected = typedef_suggestions(typedefs_view(typedefs@), git_sha@);
    let mut rows: Vec<String> = Vec::new();
    let mut i: usize = 0;
    while i < typedefs.len() && i < SUGGESTIONS
        invariant
            i <= typedefs@.len(),
            i <= SUGGESTIONS,
            shown == first_few(typedefs_view(typedefs@)),
            expected == typedef_suggestions(typedefs_view(typedefs@), git_sha@),
            texts(rows@) == expected.take(i as int),
        decreases typedefs@.len() - i,
    {
        let ghost before = texts(rows@);
        let row = String::from_str("  - ").concat(yellow("typedef --git").as_str()).concat(
            " ",
        ).concat(typedefs[i].name.as_str()).concat(" (at git SHA ").concat(
            yellow(git_sha).as_str(),
        ).concat(")\n");
        assert(shown[i as int] == typedefs@[i as int]@);
        assert(row@ == expected[i as int]);
        rows.push(row);
        assert(texts(rows@) =~= before.push(expected[i as int]));
        assert(expected.take(i + 1) =~= before.push(expected[i as int]));
        i = i + 1;
    }
    assert(expected.take(i as int) =~= expected);
    put_together(&rows)
}

impl AwaitTypesLike {
    /// The name that is asked for.
    pub fn name(&self) -> (name: &str)
        ensures
            name@ == self.state().name,
    {
        self.query.name.as_str()
    }

    /// Types and typedefs with a name like it.
    pub fn found(self, types: Vec<TypeInfo>, typedefs: Vec<TypedefInfo>) -> (step: TypeQueryStep)
        ensures
            step@ == after_types_like(self.state(), types_view(types@), typedefs_view(typedefs@)),
    {
        assert(types_view(types@).len() == types@.len());
        assert(typedefs_view(typedefs@).len() == typedefs@.len());
        let mut pieces: Vec<Piece> = Vec::new();
        if types.len() == 0 && typedefs.len() == 0 {
            assert(pieces_view(pieces@) =~= seq![]);
            return TypeQueryStep::Done(pieces);
        }
        let text = String::from_str("\nDid you mean:\n").concat(
            suggest_types(&types, self.query.git_sha.as_str()).as_str(),
        ).concat(suggest_typedefs(&typedefs, self.query.git_sha.as_str()).as_str());
        let ghost first = PieceView::Text(text@);
        add_text(&mut pieces, text);
        assert(pieces_view(pieces@) =~= seq![first]);
        TypeQueryStep::Done(pieces)
    }
}

} // verus!
