//! A line-oriented command-chain interpreter core.
//!
//! A line of input is cut into `;`-separated segments, each segment into
//! whitespace-delimited words, and each word sequence into a [`element::Chain`]
//! of commands joined by `&&`, `||` and `|`.  The executor decides, element by
//! element, what has to run next; the caller performs the work and reports
//! how it ended.
pub mod tokenizer;
pub mod element;
pub mod parser;
pub mod scanner;
pub mod builtins;
pub mod state;
pub mod executor;
