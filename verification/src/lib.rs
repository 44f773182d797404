//! Transposition of comma-separated tables: splitting text into trimmed
//! cells, checking that the rows have one length, exchanging rows and
//! columns, and writing the result back as text.

pub mod cli;
pub mod csv;
pub mod error;
pub mod roundtrip;
pub mod split;
pub mod table;
pub mod text;
pub mod whitespace;
