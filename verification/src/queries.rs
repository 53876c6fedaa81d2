//! Queries for functions by name.
//!
//! A query is a chain of steps. Each step has a text to show and then asks something;
//! what comes back leads to the next step. A name that is not found is tried as a
//! pattern, and a pattern that finds nothing leads to suggestions.

use vstd::prelude::*;
use vstd::string::*;

use crate::lists::{distinct, distinct_texts};
use crate::search::{
    definitions_of, display_call_relationships_with_options, functions_view, heading_line,
    is_function_definition, relations_text, write_heading, DisplayCallOptions,
};
use crate::style::{
    blue, bold, cyan, in_blue, in_bold, in_cyan, in_red, in_yellow, red, yellow,
};
use crate::text::{decimal, number, put_together, texts, together};
use crate::types::{FunctionInfo, FunctionInfoView};

verus! {

/// How many suggestions are shown.
pub const SUGGESTIONS: usize = 3;

/// A query for a function by name.
struct FunctionQuery {
    name: String,
    git_sha: String,
    verbose: bool,
    exact: bool,
    definitions: Vec<FunctionInfo>,
    at: usize,
    callers: Vec<String>,
}

#[verifier::ext_equal]
pub struct FunctionQueryView {
    pub name: Seq<char>,
    pub git_sha: Seq<char>,
    pub verbose: bool,
    /// Whether the name was found, and not taken as a pattern.
    pub exact: bool,
    /// The functions that are shown.
    pub definitions: Seq<FunctionInfoView>,
    /// The function at hand.
    pub at: nat,
    /// The callers that were gathered.
    pub callers: Seq<Seq<char>>,
}

impl FunctionQuery {
    spec fn view(&self) -> FunctionQueryView {
        FunctionQueryView {
            name: self.name@,
            git_sha: self.git_sha@,
            verbose: self.verbose,
            exact: self.exact,
            definitions: functions_view(self.definitions@),
            at: self.at as nat,
            callers: texts(self.callers@),
        }
    }
}

/// A query that waits for the functions of the name.
pub struct AwaitFunctionsNamed {
    query: FunctionQuery,
}

/// A query that waits for what a function calls.
pub struct AwaitCalls {
    query: FunctionQuery,
}

/// A query that waits for who calls the functions of the name.
pub struct AwaitCallers {
    query: FunctionQuery,
}

/// A query that waits for who calls the function at hand.
pub struct AwaitCallersOf {
    query: FunctionQuery,
}

/// A query that waits for the functions that the name finds as a pattern.
pub struct AwaitFunctionsMatching {
    query: FunctionQuery,
}

/// A query that waits for suggestions.
pub struct AwaitFunctionsLike {
    query: FunctionQuery,
}

impl AwaitFunctionsNamed {
    pub closed spec fn state(&self) -> FunctionQueryView {
        self.query.view()
    }
}

impl AwaitCalls {
    pub closed spec fn state(&self) -> FunctionQueryView {
        self.query.view()
    }

    #[verifier::type_invariant]
    spec fn valid(self) -> bool {
        self.query.at < self.query.definitions@.len()
    }
}

impl AwaitCallers {
    pub closed spec fn state(&self) -> FunctionQueryView {
        self.query.view()
    }
}

impl AwaitCallersOf {
    pub closed spec fn state(&self) -> FunctionQueryView {
        self.query.view()
    }

    #[verifier::type_invariant]
    spec fn valid(self) -> bool {
        self.query.at < self.query.definitions@.len()
    }
}

impl AwaitFunctionsMatching {
    pub closed spec fn state(&self) -> FunctionQueryView {
        self.query.view()
    }
}

impl AwaitFunctionsLike {
    pub closed spec fn state(&self) -> FunctionQueryView {
        self.query.view()
    }
}

/// What is to be done next: show the text, then what the step says.
pub enum FunctionQueryStep {
    /// Nothing more.
    Done(String),
    /// Find the functions of the name at the commit; then
    /// [`AwaitFunctionsNamed::functions`].
    Named(String, AwaitFunctionsNamed),
    /// Show the function at hand and find what it calls at the commit; then
    /// [`AwaitCalls::calls`].
    Calls(String, AwaitCalls),
    /// Find who calls the functions of the name at the commit; then
    /// [`AwaitCallers::callers`].
    Callers(String, AwaitCallers),
    /// Find who calls the function at hand; then [`AwaitCallersOf::callers`].
    CallersOf(String, AwaitCallersOf),
    /// Find the functions that the name finds as a pattern at the commit; then
    /// [`AwaitFunctionsMatching::functions`].
    Matching(String, AwaitFunctionsMatching),
    /// Find functions with a name like it at the commit; then
    /// [`AwaitFunctionsLike::functions`].
    Like(String, AwaitFunctionsLike),
}

#[verifier::ext_equal]
pub enum FunctionQueryStepView {
    Done(Seq<char>),
    Named(Seq<char>, FunctionQueryView),
    Calls(Seq<char>, FunctionQueryView),
    Callers(Seq<char>, FunctionQueryView),
    CallersOf(Seq<char>, FunctionQueryView),
    Matching(Seq<char>, FunctionQueryView),
    Like(Seq<char>, FunctionQueryView),
}

impl View for FunctionQueryStep {
    type V = FunctionQueryStepView;

    open spec fn view(&self) -> FunctionQueryStepView {
        match *self {
            FunctionQueryStep::Done(text) => FunctionQueryStepView::Done(text@),
            FunctionQueryStep::Named(text, wait) => FunctionQueryStepView::Named(
                text@,
                wait.state(),
            ),
            FunctionQueryStep::Calls(text, wait) => FunctionQueryStepView::Calls(
                text@,
                wait.state(),
            ),
            FunctionQueryStep::Callers(text, wait) => FunctionQueryStepView::Callers(
                text@,
                wait.state(),
            ),
            FunctionQueryStep::CallersOf(text, wait) => FunctionQueryStepView::CallersOf(
                text@,
                wait.state(),
            ),
            FunctionQueryStep::Matching(text, wait) => FunctionQueryStepView::Matching(
                text@,
                wait.state(),
            ),
            FunctionQueryStep::Like(text, wait) => FunctionQueryStepView::Like(
                text@,
                wait.state(),
            ),
        }
    }
}

/// The options with which the calls of a function are shown.
pub open spec fn calls_options(verbose: bool) -> DisplayCallOptions {
    DisplayCallOptions { truncate: true, verbose, show_calls: true, show_callers: false }
}

/// The options with which the callers of a function are shown.
pub open spec fn callers_options(verbose: bool) -> DisplayCallOptions {
    DisplayCallOptions { truncate: true, verbose, show_calls: false, show_callers: true }
}

/// What is shown of calls.
pub open spec fn calls_text(calls: Seq<Seq<char>>, verbose: bool) -> Seq<char> {
    relations_text(calls, seq![], calls_options(verbose))
}

/// What is shown of callers.
pub open spec fn callers_text(callers: Seq<Seq<char>>, verbose: bool) -> Seq<char> {
    relations_text(seq![], callers, callers_options(verbose))
}

/// The arrow before a heading.
pub open spec fn arrow() -> Seq<char> {
    in_blue(in_bold("==>"@))
}

/// The note that there are several functions of the name.
pub open spec fn several_note(query: FunctionQueryView) -> Seq<char> {
    if query.definitions.len() > 1 {
        "\n"@ + in_yellow("Note:"@) + " Found "@ + decimal(query.definitions.len())
            + " function definitions with name '"@ + query.name + "' at git SHA "@ + in_yellow(
            query.git_sha,
        ) + ":\n"@
    } else {
        ""@
    }
}

/// The heading of the function at hand, where there are several of the name.
pub open spec fn function_heading(query: FunctionQueryView) -> Seq<char> {
    if query.exact && query.definitions.len() > 1 {
        "\n"@ + arrow() + " Function "@ + decimal((query.at + 1) as nat) + " of "@ + decimal(
            query.definitions.len(),
        ) + ":\n"@
    } else {
        ""@
    }
}

/// The step when the next function is to be shown, behind `text`. After the last one
/// the callers are due.
pub open spec fn next_function(query: FunctionQueryView, text: Seq<char>) -> FunctionQueryStepView {
    if query.at < query.definitions.len() {
        FunctionQueryStepView::Calls(text + function_heading(query), query)
    } else if query.exact {
        FunctionQueryStepView::Callers(text, query)
    } else {
        next_callers(FunctionQueryView { at: 0, ..query }, text)
    }
}

/// The step when the callers of the next function are due, behind `text`. After the
/// last one they are shown, each once.
pub open spec fn next_callers(query: FunctionQueryView, text: Seq<char>) -> FunctionQueryStepView {
    if query.at < query.definitions.len() {
        FunctionQueryStepView::CallersOf(text, query)
    } else if query.callers.len() == 0 {
        FunctionQueryStepView::Done(text)
    } else {
        FunctionQueryStepView::Done(
            text + "\n"@ + arrow() + " Callers to all matched functions:\n"@ + callers_text(
                distinct(query.callers),
                query.verbose,
            ),
        )
    }
}

/// The first step of a query.
pub open spec fn function_query_start(
    name: Seq<char>,
    git_sha: Seq<char>,
    verbose: bool,
) -> FunctionQueryStepView {
    FunctionQueryStepView::Named(
        "Searching for function: "@ + in_cyan(name) + " (git SHA: "@ + in_yellow(git_sha)
            + ")\n"@,
        FunctionQueryView {
            name,
            git_sha,
            verbose,
            exact: true,
            definitions: seq![],
            at: 0,
            callers: seq![],
        },
    )
}

/// The step after the functions of the name came.
pub open spec fn after_named(
    query: FunctionQueryView,
    functions: Seq<FunctionInfoView>,
) -> FunctionQueryStepView {
    let found = FunctionQueryView { definitions: definitions_of(functions), ..query };
    if functions.len() == 0 {
        FunctionQueryStepView::Matching(""@, query)
    } else if found.definitions.len() == 0 {
        FunctionQueryStepView::Done(
            "\n"@ + in_yellow("Info:"@)
                + " Found function declarations but no definitions for '"@ + query.name
                + "' at git SHA "@ + in_yellow(query.git_sha) + "\n"@,
        )
    } else {
        next_function(found, several_note(found))
    }
}

/// The step after what the function at hand calls came.
pub open spec fn after_calls(
    query: FunctionQueryView,
    calls: Seq<Seq<char>>,
) -> FunctionQueryStepView {
    next_function(
        FunctionQueryView { at: query.at + 1, ..query },
        calls_text(calls, query.verbose),
    )
}

/// The step after who calls the functions of the name came.
pub open spec fn after_callers(
    query: FunctionQueryView,
    callers: Seq<Seq<char>>,
) -> FunctionQueryStepView {
    FunctionQueryStepView::Done(
        if query.definitions.len() <= 1 {
            callers_text(callers, query.verbose)
        } else if callers.len() == 0 {
            ""@
        } else {
            "\n"@ + arrow() + " Callers to all '"@ + query.name + "' functions:\n"@
                + callers_text(callers, query.verbose)
        },
    )
}

/// The step after who calls the function at hand came.
pub open spec fn after_callers_of(
    query: FunctionQueryView,
    callers: Seq<Seq<char>>,
) -> FunctionQueryStepView {
    next_callers(
        FunctionQueryView { at: query.at + 1, callers: query.callers + callers, ..query },
        ""@,
    )
}

/// The step after the functions came that the name finds as a pattern.
pub open spec fn after_matching(
    query: FunctionQueryView,
    functions: Seq<FunctionInfoView>,
) -> FunctionQueryStepView {
    if functions.len() == 0 {
        FunctionQueryStepView::Like(
            in_red("Error:"@) + " No function '"@ + query.name + "' found at git SHA "@
                + in_yellow(query.git_sha) + "\n"@,
            query,
        )
    } else {
        next_function(
            FunctionQueryView {
                exact: false,
                definitions: definitions_of(functions),
                at: 0,
                ..query
            },
            "\n"@ + in_yellow("Info:"@) + " No exact match found for '"@ + query.name
                + "' at git SHA "@ + in_yellow(query.git_sha)
                + ", but found functions using it as a regex pattern:\n"@ + heading_line(
                "=== Functions (regex matches) ==="@,
            ),
        )
    }
}

/// The line of a suggestion.
pub open spec fn function_suggestion(name: Seq<char>, git_sha: Seq<char>) -> Seq<char> {
    "  - "@ + in_yellow("func --git"@) + " "@ + name + " (function at git SHA "@ + in_yellow(
        git_sha,
    ) + ")\n"@
}

/// The first entries of a list.
pub open spec fn first_few<V>(list: Seq<V>) -> Seq<V> {
    if list.len() > SUGGESTIONS {
        list.take(SUGGESTIONS as int)
    } else {
        list
    }
}

/// The step after functions with a name like it came.
pub open spec fn after_like(
    query: FunctionQueryView,
    functions: Seq<FunctionInfoView>,
) -> FunctionQueryStepView {
    FunctionQueryStepView::Done(
        if functions.len() == 0 {
            ""@
        } else {
            "\nDid you mean:\n"@ + together(
                first_few(functions).map_values(
                    |function: FunctionInfoView| function_suggestion(
                        function.name,
                        query.git_sha,
                    ),
                ),
            )
        },
    )
}

fn show_calls(calls: &Vec<String>, verbose: bool) -> (text: String)
    ensures
        text@ == calls_text(texts(calls@), verbose),
{
    let none: Vec<String> = Vec::new();
    assert(texts(none@) =~= seq![]);
    display_call_relationships_with_options(
        "",
        calls.as_slice(),
        none.as_slice(),
        &DisplayCallOptions { truncate: true, verbose, show_calls: true, show_callers: false },
    )
}

fn show_callers(callers: &Vec<String>, verbose: bool) -> (text: String)
    ensures
        text@ == callers_text(texts(callers@), verbose),
{
    let none: Vec<String> = Vec::new();
    assert(texts(none@) =~= seq![]);
    display_call_relationships_with_options(
        "",
        none.as_slice(),
        callers.as_slice(),
        &DisplayCallOptions { truncate: true, verbose, show_calls: false, show_callers: true },
    )
}

fn write_arrow() -> (text: String)
    ensures
        text@ == arrow(),
{
    blue(bold("==>").as_str())
}

/// The functions of a list that are definitions.
fn keep_definitions(functions: Vec<FunctionInfo>) -> (definitions: Vec<FunctionInfo>)
    ensures
        functions_view(definitions@) == definitions_of(functions_view(functions@)),
{
    let ghost all = functions_view(functions@);
    let mut rest = functions;
    let mut backwards: Vec<FunctionInfo> = Vec::new();
    assert(definitions_of(all) =~= definitions_of(functions_view(rest@)) + functions_view(
        backwards@,
    ).reverse());
    while rest.len() > 0
        invariant
            definitions_of(all) == definitions_of(functions_view(rest@)) + functions_view(
                backwards@,
            ).reverse(),
        decreases rest@.len(),
    {
        let ghost before = functions_view(rest@);
        let ghost old_back = functions_view(backwards@);
        match rest.pop() {
            Some(function) => {
                let ghost it = function@;
                assert(before.drop_last() =~= functions_view(rest@));
                assert(before.last() == it);
                if is_function_definition(&function) {
                    backwards.push(function);
                    assert(functions_view(backwards@) =~= old_back.push(it));
                    assert(old_back.push(it).reverse() =~= seq![it] + old_back.reverse());
                    assert(definitions_of(before) + old_back.reverse() =~= definitions_of(
                        functions_view(rest@),
                    ) + functions_view(backwards@).reverse());
                }
            },
            None => {},
        }
    }
    let mut definitions: Vec<FunctionInfo> = Vec::new();
    assert(definitions_of(all) =~= functions_view(definitions@) + functions_view(
        backwards@,
    ).reverse());
    while backwards.len() > 0
        invariant
            definitions_of(all) == functions_view(definitions@) + functions_view(
                backwards@,
            ).reverse(),
        decreases backwards@.len(),
    {
        let ghost old_back = functions_view(backwards@);
        let ghost before = functions_view(definitions@);
        match backwards.pop() {
            Some(function) => {
                let ghost it = function@;
                definitions.push(function);
                assert(functions_view(definitions@) =~= before.push(it));
                assert(old_back =~= functions_view(backwards@).push(it));
                assert(old_back.reverse() =~= seq![it] + functions_view(backwards@).reverse());
                assert(functions_view(definitions@) + functions_view(backwards@).reverse()
                    =~= before + old_back.reverse());
            },
            None => {},
        }
    }
    assert(functions_view(definitions@) + functions_view(backwards@).reverse()
        =~= functions_view(definitions@));
    definitions
}

/// The step when the callers of the next function are due.
fn go_to_callers(query: FunctionQuery, text: String) -> (step: FunctionQueryStep)
    ensures
        step@ == next_callers(query.view(), text@),
{
    assert(query.view().definitions.len() == query.definitions@.len());
    assert(query.view().callers.len() == query.callers@.len());
    if query.at < query.definitions.len() {
        FunctionQueryStep::CallersOf(text, AwaitCallersOf { query })
    } else if query.callers.len() == 0 {
        FunctionQueryStep::Done(text)
    } else {
        let callers = distinct_texts(&query.callers);
        FunctionQueryStep::Done(
            text.concat("\n").concat(write_arrow().as_str()).concat(
                " Callers to all matched functions:\n",
            ).concat(show_callers(&callers, query.verbose).as_str()),
        )
    }
}

/// The step when the next function is to be shown.
fn go_to_function(query: FunctionQuery, text: String) -> (step: FunctionQueryStep)
    ensures
        step@ == next_function(query.view(), text@),
{
    assert(query.view().definitions.len() == query.definitions@.len());
    if query.at < query.definitions.len() {
        let count: usize = query.definitions.len();
        let heading = if query.exact && query.definitions.len() > 1 {
            String::from_str("\n").concat(write_arrow().as_str()).concat(" Function ").concat(
                number(query.at + 1).as_str(),
            ).concat(" of ").concat(number(count).as_str()).concat(":\n")
        } else {
            String::from_str("")
        };
        FunctionQueryStep::Calls(text.concat(heading.as_str()), AwaitCalls { query })
    } else if query.exact {
        FunctionQueryStep::Callers(text, AwaitCallers { query })
    } else {
        let FunctionQuery { name, git_sha, verbose, exact, definitions, at, callers } = query;
        let again = FunctionQuery {
            name,
            git_sha,
            verbose,
            exact,
            definitions,
            at: 0,
            callers,
        };
        go_to_callers(again, text)
    }
}

/// Starts a query for a function by name.
pub fn query_function_or_macro_to_writer_with_options(
    name: &str,
    git_sha: &str,
    verbose: bool,
) -> (step: FunctionQueryStep)
    ensures
        step@ == function_query_start(name@, git_sha@, verbose),
{
    let text = String::from_str("Searching for function: ").concat(cyan(name).as_str()).concat(
        " (git SHA: ",
    ).concat(yellow(git_sha).as_str()).concat(")\n");
    let query = FunctionQuery {
        name: name.to_string(),
        git_sha: git_sha.to_string(),
        verbose,
        exact: true,
        definitions: Vec::new(),
        at: 0,
        callers: Vec::new(),
    };
    assert(query.view() =~= FunctionQueryView {
        name: name@,
        git_sha: git_sha@,
        verbose,
        exact: true,
        definitions: seq![],
        at: 0,
        callers: seq![],
    });
    FunctionQueryStep::Named(text, AwaitFunctionsNamed { query })
}

/// Starts a query for a function by name that shows lists whole where `verbose` says so.
pub fn query_function_or_macro_to_writer_verbose(name: &str, git_sha: &str, verbose: bool) -> (step:
    FunctionQueryStep)
    ensures
        step@ == function_query_start(name@, git_sha@, verbose),
{
    query_function_or_macro_to_writer_with_options(name, git_sha, verbose)
}

/// Starts a query for a function by name that cuts long lists short.
pub fn query_function_or_macro_to_writer(name: &str, git_sha: &str) -> (step: FunctionQueryStep)
    ensures
        step@ == function_query_start(name@, git_sha@, false),
{
    query_function_or_macro_to_writer_with_options(name, git_sha, false)
}

/// Starts a query for a function by name whose text goes to the terminal.
pub fn query_function_or_macro_verbose(name: &str, git_sha: &str, verbose: bool) -> (step:
    FunctionQueryStep)
    ensures
        step@ == function_query_start(name@, git_sha@, verbose),
{
    query_function_or_macro_to_writer_verbose(name, git_sha, verbose)
}

/// Starts a query for a function by name whose text goes to the terminal and that cuts
/// long lists short.
pub fn query_function_or_macro(name: &str, git_sha: &str) -> (step: FunctionQueryStep)
    ensures
        step@ == function_query_start(name@, git_sha@, false),
{
    query_function_or_macro_to_writer(name, git_sha)
}

/// What a function calls; nothing where that could not be read.
pub fn get_function_calls_git_aware(calls: Option<Vec<String>>) -> (list: Vec<String>)
    ensures
        texts(list@) == (match calls {
            Some(calls) => texts(calls@),
            None => seq![],
        }),
{
    match calls {
        Some(calls) => calls,
        None => {
            let none: Vec<String> = Vec::new();
            assert(texts(none@) =~= seq![]);
            none
        },
    }
}

impl AwaitFunctionsNamed {
    /// The functions of the name.
    pub fn functions(self, functions: Vec<FunctionInfo>) -> (step: FunctionQueryStep)
        ensures
            step@ == after_named(self.state(), functions_view(functions@)),
    {
        assert(functions_view(functions@).len() == functions@.len());
        let FunctionQuery { name, git_sha, verbose, exact, definitions, at, callers } = self.query;
        if functions.len() == 0 {
            let query = FunctionQuery {
                name,
                git_sha,
                verbose,
                exact,
                definitions,
                at,
                callers,
            };
            return FunctionQueryStep::Matching(
                String::from_str(""),
                AwaitFunctionsMatching { query },
            );
        }
        let kept = keep_definitions(functions);
        assert(functions_view(kept@).len() == kept@.len());
        if kept.len() == 0 {
            return FunctionQueryStep::Done(
                String::from_str("\n").concat(yellow("Info:").as_str()).concat(
                    " Found function declarations but no definitions for '",
                ).concat(name.as_str()).concat("' at git SHA ").concat(
                    yellow(git_sha.as_str()).as_str(),
                ).concat("\n"),
            );
        }
        let note = if kept.len() > 1 {
            String::from_str("\n").concat(yellow("Note:").as_str()).concat(" Found ").concat(
                number(kept.len()).as_str(),
            ).concat(" function definitions with name '").concat(name.as_str()).concat(
                "' at git SHA ",
            ).concat(yellow(git_sha.as_str()).as_str()).concat(":\n")
        } else {
            String::from_str("")
        };
        let query = FunctionQuery {
            name,
            git_sha,
            verbose,
            exact,
            definitions: kept,
            at,
            callers,
        };
        go_to_function(query, note)
    }
}

impl AwaitCalls {
    /// The function at hand.
    pub fn function(&self) -> (function: &FunctionInfo)
        ensures
            function@ == self.state().definitions[self.state().at as int],
    {
        proof {
            use_type_invariant(self);
        }
        &self.query.definitions[self.query.at]
    }

    /// Whether the name was found, and not taken as a pattern. Then calls that cannot
    /// be read end the query; of a function that a pattern found they are left out.
    pub fn is_exact(&self) -> (yes: bool)
        ensures
            yes == self.state().exact,
    {
        self.query.exact
    }

    /// What the function at hand calls.
    pub fn calls(self, calls: Vec<String>) -> (step: FunctionQueryStep)
        ensures
            step@ == after_calls(self.state(), texts(calls@)),
    {
        proof {
            use_type_invariant(&self);
        }
        let FunctionQuery { name, git_sha, verbose, exact, definitions, at, callers } = self.query;
        let count: usize = definitions.len();
        assert(at < count);
        let text = show_calls(&calls, verbose);
        go_to_function(
            FunctionQuery { name, git_sha, verbose, exact, definitions, at: at + 1, callers },
            text,
        )
    }
}

impl AwaitCallers {
    /// Who calls the functions of the name.
    pub fn callers(self, callers: Vec<String>) -> (step: FunctionQueryStep)
        ensures
            step@ == after_callers(self.state(), texts(callers@)),
    {
        assert(self.state().definitions.len() == self.query.definitions@.len());
        assert(texts(callers@).len() == callers@.len());
        let text = show_callers(&callers, self.query.verbose);
        if self.query.definitions.len() <= 1 {
            FunctionQueryStep::Done(text)
        } else if callers.len() == 0 {
            FunctionQueryStep::Done(String::from_str(""))
        } else {
            FunctionQueryStep::Done(
                String::from_str("\n").concat(write_arrow().as_str()).concat(
                    " Callers to all '",
                ).concat(self.query.name.as_str()).concat("' functions:\n").concat(
                    text.as_str(),
                ),
            )
        }
    }
}

impl AwaitCallersOf {
    /// The function at hand.
    pub fn function(&self) -> (function: &FunctionInfo)
        ensures
            function@ == self.state().definitions[self.state().at as int],
    {
        proof {
            use_type_invariant(self);
        }
        &self.query.definitions[self.query.at]
    }

    /// Who calls the function at hand.
    pub fn callers(self, callers: Vec<String>) -> (step: FunctionQueryStep)
        ensures
            step@ == after_callers_of(self.state(), texts(callers@)),
    {
        proof {
            use_type_invariant(&self);
        }
        let ghost state = self.state();
        let ghost came = texts(callers@);
        let FunctionQuery { name, git_sha, verbose, exact, definitions, at, callers: gathered } =
            self.query;
        let count: usize = definitions.len();
        assert(at < count);
        let mut all = gathered;
        let mut more = callers;
        all.append(&mut more);
        assert(texts(all@) =~= state.callers + came);
        go_to_callers(
            FunctionQuery { name, git_sha, verbose, exact, definitions, at: at + 1, callers: all },
            String::from_str(""),
        )
    }
}

impl AwaitFunctionsMatching {
    /// The functions that the name finds as a pattern.
    pub fn functions(self, functions: Vec<FunctionInfo>) -> (step: FunctionQueryStep)
        ensures
            step@ == after_matching(self.state(), functions_view(functions@)),
    {
        assert(functions_view(functions@).len() == functions@.len());
        let query = self.query;
        if functions.len() == 0 {
            let text = red("Error:").concat(" No function '").concat(
                query.name.as_str(),
            ).concat("' found at git SHA ").concat(yellow(query.git_sha.as_str()).as_str()).concat(
                "\n",
            );
            return FunctionQueryStep::Like(text, AwaitFunctionsLike { query });
        }
        let FunctionQuery { name, git_sha, verbose, exact, definitions, at, callers } = query;
        let kept = keep_definitions(functions);
        let heading = write_heading("=== Functions (regex matches) ===");
        let text = String::from_str("\n").concat(yellow("Info:").as_str()).concat(
            " No exact match found for '",
        ).concat(name.as_str()).concat("' at git SHA ").concat(
            yellow(git_sha.as_str()).as_str(),
        ).concat(", but found functions using it as a regex pattern:\n").concat(heading.as_str());
        go_to_function(
            FunctionQuery {
                name,
                git_sha,
                verbose,
                exact: false,
                definitions: kept,
                at: 0,
                callers,
            },
            text,
        )
    }
}

impl AwaitFunctionsLike {
    /// Functions with a name like it.
    pub fn functions(self, functions: Vec<FunctionInfo>) -> (step: FunctionQueryStep)
        ensures
            step@ == after_like(self.state(), functions_view(functions@)),
    {
        let ghost all = functions_view(functions@);
        let ghost git_sha = self.query.git_sha@;
        if functions.len() == 0 {
            return FunctionQueryStep::Done(String::from_str(""));
        }
        let ghost shown = first_few(all);
        let ghost expected = shown.map_values(
            |function: FunctionInfoView| function_suggestion(function.name, git_sha),
        );
        let mut rows: Vec<String> = Vec::new();
        let mut i: usize = 0;
        while i < functions.len() && i < SUGGESTIONS
            invariant
                i <= functions@.len(),
                i <= SUGGESTIONS,
                all == functions_view(functions@),
                shown == first_few(all),
                git_sha == self.query.git_sha@,
                expected == shown.map_values(
                    |function: FunctionInfoView| function_suggestion(function.name, git_sha),
                ),
                texts(rows@) == expected.take(i as int),
            decreases functions@.len() - i,
        {
            let ghost before = texts(rows@);
            let row = String::from_str("  - ").concat(yellow("func --git").as_str()).concat(
                " ",
            ).concat(functions[i].name.as_str()).concat(" (function at git SHA ").concat(
                yellow(self.query.git_sha.as_str()).as_str(),
            ).concat(")\n");
            assert(row@ == expected[i as int]);
            rows.push(row);
            assert(texts(rows@) =~= before.push(expected[i as int]));
            assert(expected.take(i + 1) =~= before.push(expected[i as int]));
            i = i + 1;
        }
        assert(expected.take(i as int) =~= expected);
        FunctionQueryStep::Done(
            String::from_str("\nDid you mean:\n").concat(put_together(&rows).as_str()),
        )
    }
}

/// The functions that a query shows, up to `fuel` of them, where `calls` tells what a
/// function calls.
pub open spec fn shown_functions(
    step: FunctionQueryStepView,
    calls: spec_fn(Seq<char>) -> Seq<Seq<char>>,
    fuel: nat,
) -> Seq<FunctionInfoView>
    decreases fuel,
{
    if fuel == 0 {
        seq![]
    } else {
        match step {
            FunctionQueryStepView::Calls(_, query) => {
                let function = query.definitions[query.at as int];
                seq![function] + shown_functions(
                    after_calls(query, calls(function.name)),
                    calls,
                    (fuel - 1) as nat,
                )
            },
            _ => seq![],
        }
    }
}

proof fn lemma_shown(
    query: FunctionQueryView,
    text: Seq<char>,
    calls: spec_fn(Seq<char>) -> Seq<Seq<char>>,
    fuel: nat,
)
    requires
        query.at <= query.definitions.len(),
        query.definitions.len() <= query.at + fuel,
    ensures
        shown_functions(next_function(query, text), calls, fuel) == query.definitions.skip(
            query.at as int,
        ),
    decreases fuel,
{
    if query.at < query.definitions.len() {
        let function = query.definitions[query.at as int];
        let next = FunctionQueryView { at: query.at + 1, ..query };
        lemma_shown(
            next,
            calls_text(calls(function.name), query.verbose),
            calls,
            (fuel - 1) as nat,
        );
        assert(seq![function] + query.definitions.skip((query.at + 1) as int) =~= query.definitions.skip(
            query.at as int,
        ));
    } else {
        assert(query.definitions.skip(query.at as int) =~= seq![]);
    }
}

proof fn lemma_fewer_definitions(functions: Seq<FunctionInfoView>)
    ensures
        definitions_of(functions).len() <= functions.len(),
    decreases functions.len(),
{
    if functions.len() > 0 {
        lemma_fewer_definitions(functions.drop_last());
    }
}

/// A query shows the definitions among the functions that came, and nothing else, each
/// where it stands in the list: those of the name, or those that the name finds as a
/// pattern.
pub proof fn law_definitions_are_shown(
    query: FunctionQueryView,
    functions: Seq<FunctionInfoView>,
    calls: spec_fn(Seq<char>) -> Seq<Seq<char>>,
)
    requires
        query.at == 0,
    ensures
        shown_functions(after_named(query, functions), calls, functions.len()) == definitions_of(
            functions,
        ),
        shown_functions(after_matching(query, functions), calls, functions.len())
            == definitions_of(functions),
{
    lemma_fewer_definitions(functions);
    let definitions = definitions_of(functions);
    assert(definitions.skip(0) =~= definitions);
    if functions.len() > 0 {
        let found = FunctionQueryView { definitions, ..query };
        lemma_shown(found, several_note(found), calls, functions.len());
        let matched = FunctionQueryView { exact: false, definitions, at: 0, ..query };
        lemma_shown(
            matched,
            "\n"@ + in_yellow("Info:"@) + " No exact match found for '"@ + query.name
                + "' at git SHA "@ + in_yellow(query.git_sha)
                + ", but found functions using it as a regex pattern:\n"@ + heading_line(
                "=== Functions (regex matches) ==="@,
            ),
            calls,
            functions.len(),
        );
    }
}

} // verus!
