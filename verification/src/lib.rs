//! A front-end for a small expression language: a scanner that turns source
//! text into a token stream, a recursive-descent parser that builds an
//! abstract syntax tree from that stream, and a visitor mechanism that lets
//! independent consumers (such as the pretty-printer) traverse the tree.

pub mod ast;
pub mod diag;
pub mod parser;
pub mod pp;
pub mod scanner;
pub mod token;

pub use scanner::Scanner;

pub use diag::Diagnostic;
pub use diag::Lox;
pub use token::Token;
pub use token::TokenType;
pub use token::Value;
