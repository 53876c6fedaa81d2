//! What a query for a function shows, whatever is found.

use vstd::prelude::*;

use crate::database::index_laws::lemma_concatenated_contains;
use crate::lists::{
    are_firsts, concatenated, distinct, law_distinct, law_distinct_in_order,
};
use crate::queries::{
    after_callers, after_callers_of, after_calls, after_like, after_matching, after_named,
    function_query_start, FunctionQueryStepView, FunctionQueryView,
};
use crate::search::{definitions_of, is_definition, relations_text, DisplayCallOptions};
use crate::style::{in_blue, in_bold, in_bright_black, in_cyan, in_green, in_red, in_yellow};
use crate::text::{decimal, together, trimmed};
use crate::types::FunctionInfoView;

verus! {

/// What is answered to everything that a query for a function asks.
pub struct FunctionAnswersView {
    /// The functions of a name.
    pub named: spec_fn(Seq<char>) -> Seq<FunctionInfoView>,
    /// The functions whose name a pattern is found in.
    pub matching: spec_fn(Seq<char>) -> Seq<FunctionInfoView>,
    /// The functions with a name like one.
    pub like: spec_fn(Seq<char>) -> Seq<FunctionInfoView>,
    /// What a function calls.
    pub calls: spec_fn(FunctionInfoView) -> Seq<Seq<char>>,
    /// Who calls the functions of a name.
    pub callers: spec_fn(Seq<char>) -> Seq<Seq<char>>,
}

/// The step after a step was answered.
pub open spec fn query_answered(
    step: FunctionQueryStepView,
    answers: FunctionAnswersView,
) -> FunctionQueryStepView {
    match step {
        FunctionQueryStepView::Named(_, query) => after_named(query, (answers.named)(query.name)),
        FunctionQueryStepView::Calls(_, query) => after_calls(
            query,
            (answers.calls)(query.definitions[query.at as int]),
        ),
        FunctionQueryStepView::Callers(_, query) => after_callers(
            query,
            (answers.callers)(query.name),
        ),
        FunctionQueryStepView::CallersOf(_, query) => after_callers_of(
            query,
            (answers.callers)(query.definitions[query.at as int].name),
        ),
        FunctionQueryStepView::Matching(_, query) => after_matching(
            query,
            (answers.matching)(query.name),
        ),
        FunctionQueryStepView::Like(_, query) => after_like(query, (answers.like)(query.name)),
        FunctionQueryStepView::Done(_) => step,
    }
}

/// The step of a query after so many answers.
pub open spec fn query_step(
    step: FunctionQueryStepView,
    answers: FunctionAnswersView,
    count: nat,
) -> FunctionQueryStepView
    decreases count,
{
    if count == 0 {
        step
    } else {
        query_answered(query_step(step, answers, (count - 1) as nat), answers)
    }
}

/// How many names are shown where a list is cut short.
pub open spec fn shown_count(names: Seq<Seq<char>>, verbose: bool) -> nat {
    if !verbose && names.len() > 25 {
        25
    } else {
        names.len()
    }
}

/// Names under a heading with their number, each on a line behind an arrow, and how many more
/// there are where the list is cut short; nothing where there are none.
pub open spec fn name_section(
    heading: Seq<char>,
    arrow: Seq<char>,
    noun: Seq<char>,
    names: Seq<Seq<char>>,
    verbose: bool,
) -> Seq<char> {
    let shown = shown_count(names, verbose);
    if names.len() == 0 {
        ""@
    } else {
        "\n"@ + heading + ": "@ + decimal(names.len()) + "\n"@ + together(
            Seq::new(shown, |i: int| "  "@ + arrow + " "@ + in_cyan(names[i]) + "\n"@),
        ) + (if shown < names.len() {
            "  "@ + in_bright_black("..."@) + " ... ("@ + decimal((names.len() - shown) as nat)
                + " more "@ + noun + ", use -v to show all)\n"@
        } else {
            ""@
        })
    }
}

/// What is shown of what a function calls.
pub open spec fn call_lines(names: Seq<Seq<char>>, verbose: bool) -> Seq<char> {
    name_section("Calls"@, "→"@, "calls"@, names, verbose)
}

/// What is shown of who calls a function.
pub open spec fn caller_lines(names: Seq<Seq<char>>, verbose: bool) -> Seq<char> {
    name_section("Called By"@, "←"@, "callers"@, names, verbose)
}

/// Calls and callers are shown under their headings with their number, each name on a line;
/// a list of more than so many is cut short unless all is asked for, and then says how many
/// more there are.
pub proof fn law_relations_are_shown(names: Seq<Seq<char>>, verbose: bool)
    ensures
        relations_text(
            names,
            seq![],
            (DisplayCallOptions {
                truncate: true,
                verbose,
                show_calls: true,
                show_callers: false,
            }),
        ) == call_lines(names, verbose),
        relations_text(
            seq![],
            names,
            (DisplayCallOptions {
                truncate: true,
                verbose,
                show_calls: false,
                show_callers: true,
            }),
        ) == caller_lines(names, verbose),
{
    reveal_strlit("");
    let shown = shown_count(names, verbose);
    let kept = if shown < names.len() {
        names.take(25)
    } else {
        names
    };
    assert(kept.map_values(|name: Seq<char>| "  "@ + "→"@ + " "@ + in_cyan(name) + "\n"@)
        =~= Seq::new(shown, |i: int| "  "@ + "→"@ + " "@ + in_cyan(names[i]) + "\n"@));
    assert(kept.map_values(|name: Seq<char>| "  "@ + "←"@ + " "@ + in_cyan(name) + "\n"@)
        =~= Seq::new(shown, |i: int| "  "@ + "←"@ + " "@ + in_cyan(names[i]) + "\n"@));
    let calls = call_lines(names, verbose);
    let callers = caller_lines(names, verbose);
    assert(calls + ""@ =~= calls);
    assert(""@ + callers =~= callers);
}

/// What a definition is: a function without a body is none; a macro, which has no return
/// type, is one; so is what has both braces in its body; without them, what stands in a header
/// is none, and elsewhere what does not end with a semicolon is one.
pub proof fn law_definitions(function: FunctionInfoView)
    ensures
        function.body.len() == 0 ==> !is_definition(function),
        function.body.len() > 0 && function.return_type.len() == 0 ==> is_definition(function),
        function.body.len() > 0 && trimmed(function.body).contains('{') && trimmed(
            function.body,
        ).contains('}') ==> is_definition(function),
        function.body.len() > 0 && function.return_type.len() > 0 && !(trimmed(
            function.body,
        ).contains('{') && trimmed(function.body).contains('}')) ==> (is_definition(function)
            <==> !(exists|stem: Seq<char>|
            function.file_path == #[trigger] (stem + ".h"@) || function.file_path == stem
                + ".hpp"@) && !(exists|start: Seq<char>| trimmed(function.body)
            == #[trigger] start.push(';'))),
{
    let path = function.file_path;
    let body = trimmed(function.body);
    reveal_strlit(".h");
    reveal_strlit(".hpp");
    if crate::text::has_suffix(path, ".h"@) {
        let stem = path.take(path.len() - 2);
        assert(path =~= stem + ".h"@);
    }
    if crate::text::has_suffix(path, ".hpp"@) {
        let stem = path.take(path.len() - 4);
        assert(path =~= stem + ".hpp"@);
        assert((stem + ".h"@).len() > 0);
    }
    if exists|stem: Seq<char>| path == #[trigger] (stem + ".h"@) || path == stem + ".hpp"@ {
        let stem = choose|stem: Seq<char>|
            path == #[trigger] (stem + ".h"@) || path == stem + ".hpp"@;
        if path == stem + ".h"@ {
            assert(path.skip(path.len() - 2) =~= ".h"@);
        } else {
            assert(path.skip(path.len() - 4) =~= ".hpp"@);
        }
    }
    if body.len() > 0 && body.last() == ';' {
        assert(body =~= body.drop_last().push(';'));
    }
}

proof fn lemma_definitions_filter(functions: Seq<FunctionInfoView>)
    ensures
        definitions_of(functions) == functions.filter(|f: FunctionInfoView| is_definition(f)),
    decreases functions.len(),
{
    reveal(Seq::filter);
    if functions.len() > 0 {
        lemma_definitions_filter(functions.drop_last());
    }
}

/// The callers of the first functions of a list, one after the other.
pub open spec fn callers_before(
    definitions: Seq<FunctionInfoView>,
    answers: FunctionAnswersView,
    count: nat,
) -> Seq<Seq<char>> {
    concatenated(Seq::new(count, |i: int| (answers.callers)(definitions[i].name)))
}

proof fn lemma_one_more(definitions: Seq<FunctionInfoView>, answers: FunctionAnswersView, count: nat)
    ensures
        callers_before(definitions, answers, count + 1) == callers_before(
            definitions,
            answers,
            count,
        ) + (answers.callers)(definitions[count as int].name),
{
    let all = Seq::new((count + 1) as nat, |i: int| (answers.callers)(definitions[i].name));
    assert(all.drop_last() =~= Seq::new(count, |i: int| (answers.callers)(definitions[i].name)));
}

/// The functions of a list that are definitions, in the order of the list.
pub open spec fn defined(functions: Seq<FunctionInfoView>) -> Seq<FunctionInfoView> {
    functions.filter(|f: FunctionInfoView| is_definition(f))
}

/// Whether `names` are the callers of functions, each once and in the order in which they were
/// first answered: those that are answered for one of them.
pub open spec fn are_callers(
    names: Seq<Seq<char>>,
    definitions: Seq<FunctionInfoView>,
    answers: FunctionAnswersView,
) -> bool {
    &&& names.no_duplicates()
    &&& exists|firsts: Seq<int>| #[trigger]
        are_firsts(firsts, callers_before(definitions, answers, definitions.len())) && names
            == Seq::new(
            firsts.len(),
            |a: int| callers_before(definitions, answers, definitions.len())[firsts[a]],
        )
    &&& forall|name: Seq<char>| #[trigger]
        names.contains(name) <==> exists|i: int|
            0 <= i < definitions.len() && (answers.callers)(
                (#[trigger] definitions[i]).name,
            ).contains(name)
}

/// Whether a step shows a function, behind a text, and asks what it calls.
pub open spec fn shows_function(
    step: FunctionQueryStepView,
    text: Seq<char>,
    function: FunctionInfoView,
) -> bool {
    step matches FunctionQueryStepView::Calls(t, query) && t == text && query.at
        < query.definitions.len() && query.definitions[query.at as int] == function
}

/// Whether a step asks who calls a function, behind a text.
pub open spec fn asks_callers(
    step: FunctionQueryStepView,
    text: Seq<char>,
    function: FunctionInfoView,
) -> bool {
    step matches FunctionQueryStepView::CallersOf(t, query) && t == text && query.at
        < query.definitions.len() && query.definitions[query.at as int] == function
}

/// What is shown before the functions that a pattern finds.
pub open spec fn pattern_note(name: Seq<char>, git_sha: Seq<char>) -> Seq<char> {
    "\n"@ + in_yellow("Info:"@) + " No exact match found for '"@ + name + "' at git SHA "@
        + in_yellow(git_sha) + ", but found functions using it as a regex pattern:\n"@ + ("\n"@
        + in_green(in_bold("=== Functions (regex matches) ==="@)) + "\n"@)
}

/// The text before the function at `i` of those that a pattern finds.
pub open spec fn text_before(
    name: Seq<char>,
    git_sha: Seq<char>,
    verbose: bool,
    definitions: Seq<FunctionInfoView>,
    answers: FunctionAnswersView,
    i: int,
) -> Seq<char> {
    if i == 0 {
        pattern_note(name, git_sha)
    } else {
        call_lines((answers.calls)(definitions[i - 1]), verbose)
    }
}

/// The state of a query by pattern.
spec fn pattern_state(
    name: Seq<char>,
    git_sha: Seq<char>,
    verbose: bool,
    definitions: Seq<FunctionInfoView>,
    at: nat,
    callers: Seq<Seq<char>>,
) -> FunctionQueryView {
    FunctionQueryView { name, git_sha, verbose, exact: false, definitions, at, callers }
}

proof fn lemma_pattern_functions(
    name: Seq<char>,
    git_sha: Seq<char>,
    verbose: bool,
    answers: FunctionAnswersView,
    i: nat,
)
    requires
        (answers.named)(name).len() == 0,
        (answers.matching)(name).len() > 0,
        i < defined((answers.matching)(name)).len(),
    ensures
        ({
            let definitions = defined((answers.matching)(name));
            query_step(function_query_start(name, git_sha, verbose), answers, 2 + i)
                == FunctionQueryStepView::Calls(
                text_before(name, git_sha, verbose, definitions, answers, i as int),
                pattern_state(name, git_sha, verbose, definitions, i, seq![]),
            )
        }),
    decreases i,
{
    let start = function_query_start(name, git_sha, verbose);
    let definitions = defined((answers.matching)(name));
    lemma_definitions_filter((answers.matching)(name));
    reveal_strlit("");
    reveal_with_fuel(query_step, 3);
    if i == 0 {
        let text = pattern_note(name, git_sha);
        assert(query_step(start, answers, 0) == start);
        assert(query_step(start, answers, 1) is Matching);
        assert(query_step(start, answers, 2) == query_answered(
            query_step(start, answers, 1),
            answers,
        ));
        assert(text + ""@ =~= text);
    } else {
        lemma_pattern_functions(name, git_sha, verbose, answers, (i - 1) as nat);
        assert(query_step(start, answers, 2 + i) == query_answered(
            query_step(start, answers, (2 + i - 1) as nat),
            answers,
        ));
        let calls = (answers.calls)(definitions[i - 1]);
        law_relations_are_shown(calls, verbose);
        assert(call_lines(calls, verbose) + ""@ =~= call_lines(calls, verbose));
    }
}

/// The text before the callers of the function at `i` are asked for.
pub open spec fn text_before_callers(
    verbose: bool,
    definitions: Seq<FunctionInfoView>,
    answers: FunctionAnswersView,
    i: int,
) -> Seq<char> {
    if i == 0 {
        call_lines((answers.calls)(definitions.last()), verbose)
    } else {
        ""@
    }
}

proof fn lemma_pattern_callers(
    name: Seq<char>,
    git_sha: Seq<char>,
    verbose: bool,
    answers: FunctionAnswersView,
    i: nat,
)
    requires
        (answers.named)(name).len() == 0,
        (answers.matching)(name).len() > 0,
        i < defined((answers.matching)(name)).len(),
    ensures
        ({
            let definitions = defined((answers.matching)(name));
            query_step(
                function_query_start(name, git_sha, verbose),
                answers,
                2 + definitions.len() + i,
            ) == FunctionQueryStepView::CallersOf(
                text_before_callers(verbose, definitions, answers, i as int),
                pattern_state(
                    name,
                    git_sha,
                    verbose,
                    definitions,
                    i,
                    callers_before(definitions, answers, i),
                ),
            )
        }),
    decreases i,
{
    let start = function_query_start(name, git_sha, verbose);
    let definitions = defined((answers.matching)(name));
    let n = definitions.len();
    if i == 0 {
        lemma_pattern_functions(name, git_sha, verbose, answers, (n - 1) as nat);
        assert(query_step(start, answers, 2 + n) == query_answered(
            query_step(start, answers, (2 + n - 1) as nat),
            answers,
        ));
        law_relations_are_shown((answers.calls)(definitions.last()), verbose);
        assert(callers_before(definitions, answers, 0) =~= seq![]);
    } else {
        lemma_pattern_callers(name, git_sha, verbose, answers, (i - 1) as nat);
        assert(query_step(start, answers, 2 + n + i) == query_answered(
            query_step(start, answers, (2 + n + i - 1) as nat),
            answers,
        ));
        lemma_one_more(definitions, answers, (i - 1) as nat);
    }
}

/// A query for a name that no function has, but that finds functions as a pattern, shows the
/// definitions among them, each once and in their order, each followed by what it calls; then
/// it asks for the callers of each, and at its end shows, each once, exactly those that were
/// answered for one of them.
pub proof fn law_pattern_query(
    name: Seq<char>,
    git_sha: Seq<char>,
    verbose: bool,
    answers: FunctionAnswersView,
)
    requires
        (answers.named)(name).len() == 0,
        (answers.matching)(name).len() > 0,
    ensures
        ({
            let start = function_query_start(name, git_sha, verbose);
            let definitions = defined((answers.matching)(name));
            let n = definitions.len();
            &&& forall|i: nat|
                i < n ==> shows_function(
                    #[trigger] query_step(start, answers, 2 + i),
                    text_before(name, git_sha, verbose, definitions, answers, i as int),
                    definitions[i as int],
                )
            &&& forall|i: nat|
                i < n ==> asks_callers(
                    #[trigger] query_step(start, answers, 2 + n + i),
                    text_before_callers(verbose, definitions, answers, i as int),
                    definitions[i as int],
                )
            &&& exists|names: Seq<Seq<char>>| #[trigger]
                are_callers(names, definitions, answers) && query_step(
                    start,
                    answers,
                    2 + n + n,
                ) == FunctionQueryStepView::Done(
                    (if n == 0 {
                        pattern_note(name, git_sha)
                    } else {
                        ""@
                    }) + (if names.len() == 0 {
                        ""@
                    } else {
                        "\n"@ + in_blue(in_bold("==>"@))
                            + " Callers to all matched functions:\n"@ + caller_lines(
                            names,
                            verbose,
                        )
                    }),
                )
        }),
{
    let start = function_query_start(name, git_sha, verbose);
    let definitions = defined((answers.matching)(name));
    let n = definitions.len();
    assert forall|i: nat| i < n implies shows_function(
        #[trigger] query_step(start, answers, 2 + i),
        text_before(name, git_sha, verbose, definitions, answers, i as int),
        definitions[i as int],
    ) by {
        lemma_pattern_functions(name, git_sha, verbose, answers, i);
    }
    assert forall|i: nat| i < n implies asks_callers(
        #[trigger] query_step(start, answers, 2 + n + i),
        text_before_callers(verbose, definitions, answers, i as int),
        definitions[i as int],
    ) by {
        lemma_pattern_callers(name, git_sha, verbose, answers, i);
    }
    let all = callers_before(definitions, answers, n);
    let names = distinct(all);
    law_distinct(all);
    law_distinct_in_order(all);
    assert forall|name: Seq<char>| #[trigger] names.contains(name) <==> exists|i: int|
        0 <= i < definitions.len() && (answers.callers)(
            (#[trigger] definitions[i]).name,
        ).contains(name) by {
        let parts = Seq::new(n, |i: int| (answers.callers)(definitions[i].name));
        lemma_concatenated_contains(parts, name);
        if names.contains(name) {
            let k = choose|k: int| 0 <= k < parts.len() && (#[trigger] parts[k]).contains(name);
            assert((answers.callers)(definitions[k].name).contains(name));
        }
        if exists|i: int|
            0 <= i < definitions.len() && (answers.callers)(
                (#[trigger] definitions[i]).name,
            ).contains(name) {
            let i = choose|i: int|
                0 <= i < definitions.len() && (answers.callers)(
                    (#[trigger] definitions[i]).name,
                ).contains(name);
            assert(parts[i].contains(name));
        }
    }
    assert(are_callers(names, definitions, answers));
    reveal_strlit("");
    if all.len() > 0 {
        assert(all.contains(all[0]));
        assert(names.contains(all[0]));
    } else if names.len() > 0 {
        assert(names.contains(names[0]));
    }
    law_relations_are_shown(names, verbose);
    let shown = "\n"@ + in_blue(in_bold("==>"@)) + " Callers to all matched functions:\n"@
        + caller_lines(names, verbose);
    let note = pattern_note(name, git_sha);
    if n == 0 {
        lemma_definitions_filter((answers.matching)(name));
        reveal_with_fuel(query_step, 3);
        assert(query_step(start, answers, 0) == start);
        assert(query_step(start, answers, 1) is Matching);
        assert(query_step(start, answers, 2) == query_answered(
            query_step(start, answers, 1),
            answers,
        ));
        assert(all =~= seq![]);
        assert(note + ""@ =~= note);
    } else {
        lemma_pattern_callers(name, git_sha, verbose, answers, (n - 1) as nat);
        lemma_one_more(definitions, answers, (n - 1) as nat);
        assert(query_step(start, answers, 2 + n + n) == query_answered(
            query_step(start, answers, (2 + n + n - 1) as nat),
            answers,
        ));
        assert(""@ + shown =~= shown);
        assert(""@ + "\n"@ + in_blue(in_bold("==>"@)) =~= "\n"@ + in_blue(in_bold("==>"@)));
    }
}

/// The text before the function at `i` of those of a name: how many there are where there are
/// several, what the one before calls, and its number where there are several.
pub open spec fn text_before_named(
    name: Seq<char>,
    git_sha: Seq<char>,
    verbose: bool,
    definitions: Seq<FunctionInfoView>,
    answers: FunctionAnswersView,
    i: int,
) -> Seq<char> {
    let n = definitions.len();
    (if i > 0 {
        call_lines((answers.calls)(definitions[i - 1]), verbose)
    } else if n > 1 {
        "\n"@ + in_yellow("Note:"@) + " Found "@ + decimal(n)
            + " function definitions with name '"@ + name + "' at git SHA "@ + in_yellow(git_sha)
            + ":\n"@
    } else {
        ""@
    }) + (if n > 1 {
        "\n"@ + in_blue(in_bold("==>"@)) + " Function "@ + decimal((i + 1) as nat) + " of "@
            + decimal(n) + ":\n"@
    } else {
        ""@
    })
}

spec fn named_state(
    name: Seq<char>,
    git_sha: Seq<char>,
    verbose: bool,
    definitions: Seq<FunctionInfoView>,
    at: nat,
) -> FunctionQueryView {
    FunctionQueryView {
        name,
        git_sha,
        verbose,
        exact: true,
        definitions,
        at,
        callers: seq![],
    }
}

proof fn lemma_named_functions(
    name: Seq<char>,
    git_sha: Seq<char>,
    verbose: bool,
    answers: FunctionAnswersView,
    i: nat,
)
    requires
        i < defined((answers.named)(name)).len(),
    ensures
        ({
            let definitions = defined((answers.named)(name));
            query_step(function_query_start(name, git_sha, verbose), answers, 1 + i)
                == FunctionQueryStepView::Calls(
                text_before_named(name, git_sha, verbose, definitions, answers, i as int),
                named_state(name, git_sha, verbose, definitions, i),
            )
        }),
    decreases i,
{
    let start = function_query_start(name, git_sha, verbose);
    let functions = (answers.named)(name);
    let definitions = defined(functions);
    lemma_definitions_filter(functions);
    reveal(Seq::filter);
    reveal_strlit("");
    reveal_with_fuel(query_step, 2);
    if i == 0 {
        assert(query_step(start, answers, 0) == start);
        assert(query_step(start, answers, 1) == query_answered(start, answers));
    } else {
        lemma_named_functions(name, git_sha, verbose, answers, (i - 1) as nat);
        assert(query_step(start, answers, 1 + i) == query_answered(
            query_step(start, answers, (1 + i - 1) as nat),
            answers,
        ));
        law_relations_are_shown((answers.calls)(definitions[i - 1]), verbose);
    }
}

/// A query for a name that functions have shows the definitions among them, each once and in
/// their order, each followed by what it calls, and then who calls functions of the name.
/// Where none of them is a definition it says so.
pub proof fn law_named_query(
    name: Seq<char>,
    git_sha: Seq<char>,
    verbose: bool,
    answers: FunctionAnswersView,
)
    requires
        (answers.named)(name).len() > 0,
    ensures
        ({
            let start = function_query_start(name, git_sha, verbose);
            let definitions = defined((answers.named)(name));
            let n = definitions.len();
            let callers = (answers.callers)(name);
            &&& forall|i: nat|
                i < n ==> shows_function(
                    #[trigger] query_step(start, answers, 1 + i),
                    text_before_named(name, git_sha, verbose, definitions, answers, i as int),
                    definitions[i as int],
                )
            &&& n > 0 ==> (query_step(start, answers, 1 + n) matches FunctionQueryStepView::Callers(
                text,
                _,
            ) && text == call_lines((answers.calls)(definitions.last()), verbose))
            &&& n > 0 ==> query_step(start, answers, 2 + n) == FunctionQueryStepView::Done(
                if n > 1 && callers.len() > 0 {
                    "\n"@ + in_blue(in_bold("==>"@)) + " Callers to all '"@ + name
                        + "' functions:\n"@ + caller_lines(callers, verbose)
                } else {
                    caller_lines(callers, verbose)
                },
            )
            &&& n == 0 ==> query_step(start, answers, 1) == FunctionQueryStepView::Done(
                "\n"@ + in_yellow("Info:"@)
                    + " Found function declarations but no definitions for '"@ + name
                    + "' at git SHA "@ + in_yellow(git_sha) + "\n"@,
            )
        }),
{
    let start = function_query_start(name, git_sha, verbose);
    let functions = (answers.named)(name);
    let definitions = defined(functions);
    let n = definitions.len();
    lemma_definitions_filter(functions);
    assert forall|i: nat| i < n implies shows_function(
        #[trigger] query_step(start, answers, 1 + i),
        text_before_named(name, git_sha, verbose, definitions, answers, i as int),
        definitions[i as int],
    ) by {
        lemma_named_functions(name, git_sha, verbose, answers, i);
    }
    law_relations_are_shown((answers.callers)(name), verbose);
    if n > 0 {
        lemma_named_functions(name, git_sha, verbose, answers, (n - 1) as nat);
        law_relations_are_shown((answers.calls)(definitions.last()), verbose);
        assert(query_step(start, answers, 1 + n) == query_answered(
            query_step(start, answers, (1 + n - 1) as nat),
            answers,
        ));
        assert(query_step(start, answers, 2 + n) == query_answered(
            query_step(start, answers, 1 + n),
            answers,
        ));
    } else {
        reveal_with_fuel(query_step, 2);
        assert(query_step(start, answers, 1) == query_answered(start, answers));
    }
}

/// A query for a name that finds no function, not as a pattern either, says so, and suggests
/// up to three functions with a name like it, the first ones.
pub proof fn law_suggestions(
    name: Seq<char>,
    git_sha: Seq<char>,
    verbose: bool,
    answers: FunctionAnswersView,
)
    requires
        (answers.named)(name).len() == 0,
        (answers.matching)(name).len() == 0,
    ensures
        ({
            let start = function_query_start(name, git_sha, verbose);
            let like = (answers.like)(name);
            let count: nat = if like.len() > 3 {
                3
            } else {
                like.len()
            };
            &&& query_step(start, answers, 2) matches FunctionQueryStepView::Like(text, _) && text
                == in_red("Error:"@) + " No function '"@ + name + "' found at git SHA "@
                + in_yellow(git_sha) + "\n"@
            &&& query_step(start, answers, 3) == FunctionQueryStepView::Done(
                if like.len() == 0 {
                    ""@
                } else {
                    "\nDid you mean:\n"@ + together(
                        Seq::new(
                            count,
                            |i: int|
                                "  - "@ + in_yellow("func --git"@) + " "@ + like[i].name
                                    + " (function at git SHA "@ + in_yellow(git_sha) + ")\n"@,
                        ),
                    )
                },
            )
        }),
{
    let start = function_query_start(name, git_sha, verbose);
    let like = (answers.like)(name);
    let count: nat = if like.len() > 3 {
        3
    } else {
        like.len()
    };
    reveal_with_fuel(query_step, 4);
    assert(query_step(start, answers, 1) == query_answered(start, answers));
    assert(query_step(start, answers, 2) == query_answered(query_step(start, answers, 1), answers));
    assert(query_step(start, answers, 3) == query_answered(query_step(start, answers, 2), answers));
    assert(crate::queries::first_few(like).map_values(
        |function: FunctionInfoView| crate::queries::function_suggestion(function.name, git_sha),
    ) =~= Seq::new(
        count,
        |i: int|
            "  - "@ + in_yellow("func --git"@) + " "@ + like[i].name + " (function at git SHA "@
                + in_yellow(git_sha) + ")\n"@,
    ));
}

/// A query first says which function it looks for, and at which commit, and asks for the
/// functions of this name.
pub proof fn law_query_starts(name: Seq<char>, git_sha: Seq<char>, verbose: bool)
    ensures
        function_query_start(name, git_sha, verbose) matches FunctionQueryStepView::Named(
            text,
            query,
        ) && text == "Searching for function: "@ + in_cyan(name) + " (git SHA: "@ + in_yellow(
            git_sha,
        ) + ")\n"@ && query.name == name && query.git_sha == git_sha && query.verbose == verbose,
{
}

} // verus!
