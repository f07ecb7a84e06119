//! A small query language for JSON documents.
//!
//! A query string is compiled into an ordered plan of typed steps —
//! key selections, array indexes, embedded-expression evaluations and
//! object builders — and the plan is run by threading one JSON value
//! through the steps.  Embedded snippets are handed to an external
//! expression evaluator; where one ends is decided by first-fit trial
//! parsing against that evaluator's own syntax check.
//!
//! The grammar, the evaluator and the JSON codec are stated as
//! mathematical functions over sequences, and the executable code is
//! proved to compute exactly what those functions describe.

pub mod bridge;
pub mod errors;
pub mod eval;
pub mod json;
pub mod laws;
pub mod parse;
pub mod pipeline;
pub mod step;
pub mod text;
pub mod value;
pub mod window;
