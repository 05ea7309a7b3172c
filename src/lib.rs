//! A parser-combinator engine with verified contracts, and a JSON grammar built on it.
pub mod parser;
pub mod combinator;
pub mod json;
pub mod mappings;
pub mod lexical;
pub mod grammar;
