//! Automatic top-N-by-score pushdown for searches that Postgres runs through
//! an Elasticsearch-backed index.

pub mod answers;
pub mod catalog;
pub mod executions;
pub mod gucs;
pub mod laws;
pub mod lazy;
pub mod limit;
pub mod meanings;
pub mod pushdown;
pub mod scan;
pub mod semantics;
pub mod seqs;
pub mod tree;
