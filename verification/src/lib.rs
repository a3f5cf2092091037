//! A verified core for a workflow engine that runs directed acyclic graphs of
//! data-transformation nodes over tabular artifacts.
//!
//! The library holds the data model (column headers, typed cells, wiki page
//! references), the transform operators (inner join, merge-unique, filter,
//! sort), the run state machine (readiness, resume reconciliation, waves) and
//! the renderer. File, database and network access live outside the library;
//! callers hand in plain values and take plain values back.
pub mod adapter;
pub mod data_cell;
pub mod data_header;
pub mod decimal;
pub mod filter;
pub mod generator;
pub mod join;
pub mod mapping;
pub mod node;
pub mod regexes;
pub mod renderer;
pub mod run;
pub mod seqs;
pub mod site;
pub mod table;
pub mod text;
pub mod wiki_page;
pub mod workflow;
