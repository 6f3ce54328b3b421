//! Turns CSV, JSON and JSON-lines text into one table of strings, and back.
//!
//! The heart of the crate is the JSON side: a document of any shape is
//! reduced to a list of row values, every row is flattened into pairs of a
//! dotted key and a text, and the rows are aligned under the union of their
//! keys.
//!
//! The crate reads and writes no file. It takes the text of one and gives
//! the table, or takes the table and gives the text.

pub mod error;
pub mod text;
pub mod value;

pub mod csv_text;
pub mod json;
pub mod lines;
pub mod valid;

pub mod extract;
pub mod flatten;
pub mod table;

pub mod csv_table;
pub mod export;
pub mod ingest;
pub mod jsonl;

pub mod laws;
