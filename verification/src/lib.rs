//! Interpreter for a line-oriented, sigil-prefixed branching-story script
//! format: labels, gotos, conditionals, variable state, blocking prompts and
//! multiple-choice menus.
//!
//! Script text is handled as bytes (`Vec<u8>`); each line's first byte (the
//! sigil) selects its directive kind. The execution engine is a verified
//! state machine: `engine::Engine::step` interprets one directive, and
//! `engine::Engine::provide_line` feeds it one line of user input while it
//! waits at a menu or input prompt. Console and file I/O stay outside the
//! library; callers hand in lines and print the returned output.

pub mod text;
pub mod store;
pub mod subst;
pub mod eval;
pub mod engine;
pub mod laws;
