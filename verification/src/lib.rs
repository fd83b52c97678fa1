//! Core of a declarative UI toolkit: the intermediate representation of
//! widget documents, the binding-expression parser, the document parser,
//! handler dependency analysis and code-generation helpers.

pub mod codegen;
pub mod expr;
pub mod handler;
pub mod ir;
pub mod parser;
pub mod schema;
pub mod state;
pub mod text;
