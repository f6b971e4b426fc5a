//! A configuration-driven test-matrix runner.
//!
//! A configuration file declares tests: a name, a command and an
//! environment, all of them templates, and variables with lists of values. A
//! declared test stands for one instance for every combination of the values
//! of its variables. A run expands the declarations of a file, leaves out
//! the instances that a filter does not select, runs the others, goes on
//! with the files that the configuration includes, and adds up what passed,
//! what failed and what was ignored.
//!
//! - [`document`] reads a configuration text into a tree of plain values.
//! - [`config`] reads the declared tests and the includes off that tree.
//! - [`markup`] says which texts are templates: text with names in `{{ }}`.
//! - [`engine`] holds what the template engine is asked for.
//! - [`matrix`] compiles a declared test and renders its instances.
//! - [`filter`] selects instances by name.
//! - [`runner`] decides, step by step, what a run does next.
//! - [`history`] states what holds of a run as a whole.
//! - [`test`] is one instance, and what the end of its command means.
//! - [`outcome`] adds up the outcomes of a run.
//! - [`error`] names what can go wrong.
//!
//! The library computes and decides. Reading files, changing directories,
//! matching patterns and running commands is left to the program around it.

pub mod config;
pub mod document;
pub mod engine;
pub mod error;
pub mod filter;
pub mod history;
pub mod markup;
pub mod matrix;
pub mod outcome;
pub mod runner;
