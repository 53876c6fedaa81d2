//! What the database stores, what it is asked, and what becomes of the answers.

pub mod conditions;
pub mod edge_laws;
pub mod edge_rewrite;
pub mod edge_sort;
pub mod edges;
pub mod email_match_laws;
pub mod email_round_laws;
pub mod field_laws;
pub mod field_match_laws;
pub mod found_laws;
pub mod index_laws;
pub mod lore_fields;
pub mod match_laws;
pub mod match_record_laws;
pub mod rewrite_laws;
pub mod scan_laws;
pub mod search;
pub mod search_laws;
pub mod similar;
pub mod similar_emails;
pub mod similar_field_laws;
pub mod similar_laws;
pub mod sort_laws;
pub mod staging_laws;
pub mod string_lists;
pub mod symbols;
pub mod vector_laws;
pub mod vectors;
