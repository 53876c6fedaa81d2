//! Lookup, ranking and presentation logic of a code and mail search database.

use vstd::prelude::*;

pub mod analyzer_laws;
pub mod database;
pub mod dates;
pub mod dumps;
pub mod json;
pub mod listing_laws;
pub mod lists;
pub mod lore;
pub mod lore_laws;
pub mod lore_show_laws;
pub mod lore_threads;
pub mod order;
pub mod pattern;
pub mod queries;
pub mod query_laws;
pub mod rust_analyzer;
pub mod scores;
pub mod search;
pub mod sign_laws;
pub mod style;
pub mod text;
pub mod text_laws;
pub mod thread_laws;
pub mod thread_order_laws;
pub mod thread_shape_laws;
pub mod threads;
pub mod type_queries;
pub mod type_query_laws;
pub mod types;
pub mod view_laws;

verus! {

} // verus!
