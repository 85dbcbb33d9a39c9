//! A small relational store: a tokenizer and recursive-descent parser for a
//! subset of SQL, an append-only in-memory table engine, and the executor that
//! applies parsed statements to a database and renders textual responses.
pub mod text;
pub mod lexer;
pub mod storage;
pub mod parser;
pub mod executor;
pub mod session;
