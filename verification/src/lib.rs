//! A lexer, parser, type checker and interpreter for a small C-like language.

pub mod text;
pub mod lexer;
pub mod ast;
pub mod parser;
pub mod names;
pub mod type_check;
pub mod interp;

pub use lexer::{tokenize, SpannedToken, Token};
pub use ast::{BinOp, Expr, Item, PrimType, Stmt, Type, UnaryOp};
pub use parser::Parser;
pub use type_check::{TypeChecker, TypeError};
pub use interp::{eval_expr, eval_expr_with_depth, eval_item, eval_stmt, Env, EvalResult, FloatOp, Value};
