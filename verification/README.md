# semcode

A library for searching a code base and its mailing list archive, written in Verus. It
answers who calls a function, what a name stands for at a commit, which functions,
commits and mails are like a given one, and how a mail thread reads.

The library itself does no I/O. A search is a chain of steps: each step says what to ask
of the database, the repository or a language server, or what to show, and takes the
answer. What each step asks and what it makes of the answer is stated in the contract of
the function that makes it.

- `src/text.rs`, `src/lists.rs`, `src/order.rs`, `src/scores.rs`: texts, lists, stable
  sorting.
- `src/pattern.rs`, `src/json.rs`, `src/style.rs`: regular expressions, dates, JSON and
  colours, each behind small functions with stated results.
- `src/database/`: the table of call edges and its sorted rewrite, searches by name,
  pattern and similarity, vectors for what has none yet, lists of texts in columns.
- `src/search.rs`, `src/queries.rs`, `src/type_queries.rs`, `src/dumps.rs`: what is shown
  of functions, types and tables.
- `src/dates.rs`, `src/threads.rs`, `src/lore.rs`, `src/lore_threads.rs`: the order of dates,
  mail threads and what is shown of mails.
- `src/rust_analyzer.rs`: messages to a rust-analyzer process and the way back of their
  replies.
- files named `*_laws.rs`: what holds of the functions together.
- `app/`: the database, the terminal and the process around the library.
- `tests/`: tests.
