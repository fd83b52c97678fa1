//! Binding expressions: syntax trees and the parser.

pub mod ast;
pub mod tokenizer;

pub use ast::{
    BinaryOp, BinaryOpExpr, BindingExpr, ConditionalExpr, Expr, FieldAccessExpr, LiteralExpr,
    MethodCallExpr, SharedFieldAccessExpr, UnaryOp, UnaryOpExpr,
};
