//! The verified core of a small interactive shell: the argument lexer, the
//! pipeline and redirection parser, the builtin command rules, the wiring of
//! a pipeline's stages, the history store and the completion candidates.

pub mod text;
pub mod args;
pub mod command;
pub mod history;
pub mod context;
pub mod pipeline;
pub mod editor;
