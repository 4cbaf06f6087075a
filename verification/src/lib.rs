//! An interactive markup explorer: a line tokenizer and a command interpreter
//! that drive navigation through a fetched document's markup tree.
//!
//! The tokenizer splits a raw input line into shell-like tokens, honoring
//! double-quote grouping and backslash escaping.  The interpreter dispatches
//! on the first token, mutating a [`session::SessionState`] and producing the
//! lines to print; fetching over the network is left to the surrounding
//! program, which hands the outcome back to [`interpreter::apply_fetch`].

pub mod interpreter;
pub mod markup;
pub mod session;
pub mod text;
pub mod tokenizer;
