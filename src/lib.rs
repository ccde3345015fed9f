//! Indexing of tokenized text against items kept in a relational store.
//!
//! The library decides what to ask of the store and in which order; the
//! caller runs each command against its connection and hands back the reply.

pub mod indexing;
pub mod reconcile;
pub mod sql;
pub mod store;

pub use indexing::{Command, ErrorKind, IndexBuild, IndexError, Phase, Reply};
pub use reconcile::{link_ids, missing_words, Word};
pub use sql::{
    create_statement, escape_char, link_rows, link_statement, lookup_statement, push_decimal,
    push_quoted, text_list, text_rows,
};
