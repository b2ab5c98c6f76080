//! A minimal front end for a toy declarative language with statements of the
//! form `let <name> be <value>` and `<name> = <value>`: a lexer that turns raw
//! text into classified tokens, and a parser that folds the token stream into
//! a last-write-wins mapping from variable name to value.

pub mod bindings;
pub mod classify;
pub mod lexer;
pub mod parser;
pub mod strutil;
pub mod token;
