//! A small Lisp-family interpreter: tokenizer, parser, scoped environment and
//! tree-walking evaluator, each with a mathematical model and a verified contract.

pub mod text;
pub mod lexer;
pub mod syscall;
pub mod parser;
pub mod env;
pub mod stdlib;
pub mod semantics;
pub mod evaluator;
pub mod shell;
pub mod evaluation_laws;
pub mod syntax_laws;

pub use env::Env;
pub use evaluator::Evaluator;
pub use lexer::{Content, Token};
pub use parser::{Object, ParserError};
pub use syscall::{Native, SysCallWrapper};
