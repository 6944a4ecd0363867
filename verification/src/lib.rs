//! The parsing, expansion, completion and bookkeeping of an interactive shell.
use vstd::prelude::*;

pub mod candidates;
pub mod chain;
pub mod command;
pub mod completion;
pub mod dispatch;
pub mod editor;
pub mod expand;
pub mod grammar;
pub mod history;
pub mod jobs;
pub mod lines;
pub mod lookup;
pub mod nesting;
pub mod numbers;
pub mod order;
pub mod output;
pub mod parse;
pub mod pipe;
pub mod shell;
pub mod store;
pub mod text;
pub mod tokens;

verus! {

} // verus!
