//! An interactive command shell's engine: lexer, parser, job builder, job
//! executor and job manager, with the line editor's data structures.

pub mod completion;
pub mod history;
pub mod readline;
pub mod shell;
pub mod state;
pub mod syntax;
pub mod sys;
pub mod text;
