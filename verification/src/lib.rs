pub mod builder;
pub mod cst;
pub mod lexer;
pub mod parser;
pub mod syntax;
pub mod text;
pub mod ast;
pub mod validation;
pub mod ir;
pub mod paths;
pub mod workspace;
pub mod dedent;
pub mod merge;
pub mod lower;
pub mod gitlab;
pub mod build;
pub mod check;
pub mod formatter;
pub mod format;
pub mod lsp;
