//! Front end of the Eta compiler: source positions and the source map,
//! diagnostics and their reports, the lexer and its `--lex` log, syntax
//! errors, path resolution, the syntax tree, types and typing contexts, and
//! the driver that runs the front end over the files of a command line.

pub mod span;
pub mod text;
pub mod diagnostic;
pub mod token;
pub mod lexer;
pub mod lexlog;
pub mod source_map;
pub mod cache;
pub mod resolve;
pub mod ast;
pub mod typecheck;
pub mod context;
pub mod driver;
pub mod syntax;
pub mod session;
pub mod emitter;
pub mod testgen;
pub mod printer;
pub mod testing;
