//! A small Lisp-syntax command shell core: text is lexed into tokens,
//! parsed into s-expressions, lowered into an executable command model,
//! and resolved into a program name and argument list ready to spawn.
pub mod command;
pub mod interpret;
pub mod lexer;
pub mod parser;
pub mod text;
