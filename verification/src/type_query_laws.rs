//! What a query for a type or typedef shows, whatever is found.

use vstd::prelude::*;

use crate::queries::first_few;
use crate::style::{in_bold, in_cyan, in_green, in_red, in_yellow};
use crate::text::{decimal, has_prefix, together, without_prefixes};
use crate::type_queries::{
    after_types_like, after_types_matching, after_types_named, clean_name, type_query_start,
    type_suggestions, typedef_suggestions, PieceView, TypeQueryStepView,
};
use crate::types::{TypeInfoView, TypedefInfoView};

verus! {

/// What is answered to everything that a query for a type asks.
pub struct TypeAnswersView {
    /// The types of a name.
    pub types_named: spec_fn(Seq<char>) -> Seq<TypeInfoView>,
    /// The typedef of a name.
    pub typedef_named: spec_fn(Seq<char>) -> Option<TypedefInfoView>,
    /// The types whose name a pattern is found in.
    pub types_matching: spec_fn(Seq<char>) -> Seq<TypeInfoView>,
    /// The typedefs whose name a pattern is found in.
    pub typedefs_matching: spec_fn(Seq<char>) -> Seq<TypedefInfoView>,
    /// The types with a name like one.
    pub types_like: spec_fn(Seq<char>) -> Seq<TypeInfoView>,
    /// The typedefs with a name like one.
    pub typedefs_like: spec_fn(Seq<char>) -> Seq<TypedefInfoView>,
}

/// The step after a step was answered.
pub open spec fn type_query_answered(
    step: TypeQueryStepView,
    answers: TypeAnswersView,
) -> TypeQueryStepView {
    match step {
        TypeQueryStepView::Named(_, query) => after_types_named(
            query,
            (answers.types_named)(query.name),
            (answers.typedef_named)(query.name),
        ),
        TypeQueryStepView::Matching(query) => after_types_matching(
            query,
            (answers.types_matching)(query.name),
            (answers.typedefs_matching)(query.name),
        ),
        TypeQueryStepView::Like(_, query) => after_types_like(
            query,
            (answers.types_like)(query.name),
            (answers.typedefs_like)(query.name),
        ),
        TypeQueryStepView::Done(_) => step,
    }
}

/// The first step of a query, and what comes after one, two and three answers.
pub open spec fn type_query_steps(
    name: Seq<char>,
    git_sha: Seq<char>,
    answers: TypeAnswersView,
) -> (TypeQueryStepView, TypeQueryStepView, TypeQueryStepView, TypeQueryStepView) {
    let start = type_query_start(name, git_sha);
    let first = type_query_answered(start, answers);
    let second = type_query_answered(first, answers);
    (start, first, second, type_query_answered(second, answers))
}

/// Pieces that show types, each once and in their order.
pub open spec fn show_types(types: Seq<TypeInfoView>) -> Seq<PieceView> {
    Seq::new(types.len(), |i: int| PieceView::Type(types[i]))
}

/// Pieces that show typedefs, each once and in their order.
pub open spec fn show_typedefs(typedefs: Seq<TypedefInfoView>) -> Seq<PieceView> {
    Seq::new(typedefs.len(), |i: int| PieceView::Typedef(typedefs[i]))
}

proof fn lemma_prefix_gone(prefix: Seq<char>, rest: Seq<char>)
    requires
        prefix.len() > 0,
    ensures
        has_prefix(prefix + rest, prefix),
        without_prefixes(prefix + rest, prefix) == without_prefixes(rest, prefix),
{
    let text = prefix + rest;
    assert(text.take(prefix.len() as int) =~= prefix);
    assert(text.skip(prefix.len() as int) =~= rest);
}

/// Whether a text starts with another.
pub open spec fn starts_with(text: Seq<char>, prefix: Seq<char>) -> bool {
    exists|rest: Seq<char>| text == #[trigger] (prefix + rest)
}

proof fn lemma_starts(text: Seq<char>, prefix: Seq<char>)
    ensures
        starts_with(text, prefix) <==> has_prefix(text, prefix),
{
    if has_prefix(text, prefix) {
        let rest = text.skip(prefix.len() as int);
        assert(text =~= prefix + rest);
    }
    if starts_with(text, prefix) {
        let rest = choose|rest: Seq<char>| text == #[trigger] (prefix + rest);
        assert(text.take(prefix.len() as int) =~= prefix);
    }
}

/// A leading `struct`, `union` or `enum` makes no difference to what is looked for, and a name
/// that has none is looked for as it is.
pub proof fn law_kind_words_are_dropped(name: Seq<char>)
    ensures
        clean_name("struct "@ + name) == clean_name(name),
        !starts_with(name, "struct "@) ==> clean_name("union "@ + name) == clean_name(name),
        !starts_with(name, "struct "@) && !starts_with(name, "union "@) ==> clean_name(
            "enum "@ + name,
        ) == clean_name(name),
        !starts_with(name, "struct "@) && !starts_with(name, "union "@) && !starts_with(
            name,
            "enum "@,
        ) ==> clean_name(name) == name,
{
    reveal_strlit("struct ");
    reveal_strlit("union ");
    reveal_strlit("enum ");
    lemma_starts(name, "struct "@);
    lemma_starts(name, "union "@);
    lemma_starts(name, "enum "@);
    lemma_prefix_gone("struct "@, name);
    lemma_prefix_gone("union "@, name);
    lemma_prefix_gone("enum "@, name);
    let u = "union "@ + name;
    let e = "enum "@ + name;
    assert(u[0] == 'u' && e[0] == 'e');
    if has_prefix(u, "struct "@) {
        assert(u.take("struct "@.len() as int)[0] == 's');
    }
    if has_prefix(e, "struct "@) {
        assert(e.take("struct "@.len() as int)[0] == 's');
    }
    if has_prefix(e, "union "@) {
        assert(e.take("union "@.len() as int)[0] == 'u');
    }
}

/// A query looks for the name without a leading `struct`, `union` or `enum`. Where types or a
/// typedef have it, they are all shown, the types first; before them it is said where there
/// are both, and how many types there are where there are several.
pub proof fn law_named_types(name: Seq<char>, git_sha: Seq<char>, answers: TypeAnswersView)
    ensures
        ({
            let steps = type_query_steps(name, git_sha, answers);
            let types = (answers.types_named)(clean_name(name));
            let typedef = (answers.typedef_named)(clean_name(name));
            &&& steps.0 matches TypeQueryStepView::Named(text, _) && text
                == "Searching for type or typedef: "@ + in_cyan(clean_name(name)) + " (git SHA: "@
                + in_yellow(git_sha) + ")\n"@
            &&& (types.len() > 0 || typedef is Some) ==> steps.1 == TypeQueryStepView::Done(
                seq![
                    PieceView::Text(
                        (if types.len() > 0 && typedef is Some {
                            "\n"@ + in_yellow("Note:"@)
                                + " Found both a type and a typedef with this name at git SHA "@
                                + in_yellow(git_sha) + "!\n"@
                        } else {
                            ""@
                        }) + (if types.len() > 1 {
                            "\n"@ + in_yellow("Note:"@) + " Found "@ + decimal(types.len())
                                + " type definitions:\n"@
                        } else {
                            ""@
                        }),
                    ),
                ] + show_types(types) + show_typedefs(
                    if typedef is Some {
                        seq![typedef->Some_0]
                    } else {
                        seq![]
                    },
                ),
            )
        }),
{
    let types = (answers.types_named)(clean_name(name));
    let typedef = (answers.typedef_named)(clean_name(name));
    assert(show_types(types) =~= types.map_values(|info: TypeInfoView| PieceView::Type(info)));
    match typedef {
        Some(typedef) => {
            assert(show_typedefs(seq![typedef]) =~= seq![PieceView::Typedef(typedef)]);
        },
        None => {
            assert(show_typedefs(seq![]) =~= seq![]);
        },
    }
}

/// The note before what a pattern finds.
pub open spec fn pattern_note(name: Seq<char>, git_sha: Seq<char>, what: Seq<char>) -> Seq<char> {
    "\n"@ + in_yellow("Info:"@) + " No exact match found for '"@ + name + "' at git SHA "@
        + in_yellow(git_sha) + ", but found "@ + what + " using it as a regex pattern:\n"@
}

/// Where nothing has the name, the types and typedefs that it finds as a pattern are shown,
/// each once and in their order, the types first; under a heading each where there are both.
pub proof fn law_types_by_pattern(name: Seq<char>, git_sha: Seq<char>, answers: TypeAnswersView)
    requires
        (answers.types_named)(clean_name(name)).len() == 0,
        (answers.typedef_named)(clean_name(name)) is None,
    ensures
        ({
            let steps = type_query_steps(name, git_sha, answers);
            let types = (answers.types_matching)(clean_name(name));
            let typedefs = (answers.typedefs_matching)(clean_name(name));
            &&& types.len() > 0 && typedefs.len() > 0 ==> steps.2 == TypeQueryStepView::Done(
                seq![
                    PieceView::Text(
                        pattern_note(clean_name(name), git_sha, "matches"@) + ("\n"@ + in_green(
                            in_bold("=== Types (regex matches) ==="@),
                        ) + "\n"@),
                    ),
                ] + show_types(types) + seq![
                    PieceView::Text(
                        "\n"@ + in_green(in_bold("=== Typedefs (regex matches) ==="@)) + "\n"@,
                    ),
                ] + show_typedefs(typedefs),
            )
            &&& types.len() > 0 && typedefs.len() == 0 ==> steps.2 == TypeQueryStepView::Done(
                seq![PieceView::Text(pattern_note(clean_name(name), git_sha, "types"@))]
                    + show_types(types),
            )
            &&& types.len() == 0 && typedefs.len() > 0 ==> steps.2 == TypeQueryStepView::Done(
                seq![PieceView::Text(pattern_note(clean_name(name), git_sha, "typedefs"@))]
                    + show_typedefs(typedefs),
            )
        }),
{
    let types = (answers.types_matching)(clean_name(name));
    let typedefs = (answers.typedefs_matching)(clean_name(name));
    assert(show_types(types) =~= types.map_values(|info: TypeInfoView| PieceView::Type(info)));
    assert(show_typedefs(typedefs) =~= typedefs.map_values(
        |info: TypedefInfoView| PieceView::Typedef(info),
    ));
}

/// Where the name finds nothing, not as a pattern either, it is said, and up to three types
/// and up to three typedefs with a name like it are suggested, the first ones.
pub proof fn law_types_suggested(name: Seq<char>, git_sha: Seq<char>, answers: TypeAnswersView)
    requires
        (answers.types_named)(clean_name(name)).len() == 0,
        (answers.typedef_named)(clean_name(name)) is None,
        (answers.types_matching)(clean_name(name)).len() == 0,
        (answers.typedefs_matching)(clean_name(name)).len() == 0,
    ensures
        ({
            let steps = type_query_steps(name, git_sha, answers);
            let types = (answers.types_like)(clean_name(name));
            let typedefs = (answers.typedefs_like)(clean_name(name));
            let i = if types.len() > 3 {
                3
            } else {
                types.len()
            };
            let j = if typedefs.len() > 3 {
                3
            } else {
                typedefs.len()
            };
            &&& steps.2 matches TypeQueryStepView::Like(text, _) && text == in_red("Error:"@)
                + " No type or typedef '"@ + clean_name(name) + "' found at git SHA "@
                + in_yellow(git_sha) + "\n"@
            &&& steps.3 == TypeQueryStepView::Done(
                if types.len() == 0 && typedefs.len() == 0 {
                    seq![]
                } else {
                    seq![
                        PieceView::Text(
                            "\nDid you mean:\n"@ + together(
                                Seq::new(
                                    i,
                                    |k: int|
                                        "  - "@ + in_yellow("type --git"@) + " "@ + types[k].kind
                                            + " "@ + types[k].name + " (at git SHA "@ + in_yellow(
                                            git_sha,
                                        ) + ")\n"@,
                                ),
                            ) + together(
                                Seq::new(
                                    j,
                                    |k: int|
                                        "  - "@ + in_yellow("typedef --git"@) + " "@
                                            + typedefs[k].name + " (at git SHA "@ + in_yellow(
                                            git_sha,
                                        ) + ")\n"@,
                                ),
                            ),
                        ),
                    ]
                },
            )
        }),
{
    let types = (answers.types_like)(clean_name(name));
    let typedefs = (answers.typedefs_like)(clean_name(name));
    assert(type_suggestions(types, git_sha) =~= Seq::new(
        first_few(types).len(),
        |k: int|
            "  - "@ + in_yellow("type --git"@) + " "@ + types[k].kind + " "@ + types[k].name
                + " (at git SHA "@ + in_yellow(git_sha) + ")\n"@,
    ));
    assert(typedef_suggestions(typedefs, git_sha) =~= Seq::new(
        first_few(typedefs).len(),
        |k: int|
            "  - "@ + in_yellow("typedef --git"@) + " "@ + typedefs[k].name + " (at git SHA "@
                + in_yellow(git_sha) + ")\n"@,
    ));
}

} // verus!
