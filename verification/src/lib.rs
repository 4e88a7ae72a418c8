//! A verified parser and balance checker for plain-text, double-entry
//! ledger files.
//!
//! The library parses dated transactions (a header line followed by
//! indented postings) and standalone price records into a structured
//! model, and validates each transaction with an exact-decimal balance
//! engine that can infer at most one missing posting amount.

pub mod amount;
pub mod ast;
pub mod date;
pub mod decimal;
pub mod header;
pub mod lex;
pub mod parse;
pub mod posting;
pub mod price;
pub mod symbol;
pub mod text;
