// A tree-walking interpreter for a small Lisp-family language: an
// incremental reader over a two-mode lexer, a symbol interner, a lexically
// scoped environment, an evaluator with special forms, lambdas, macros and
// native primitives, and an error-localization mechanism that maps an
// evaluation failure back to the exact sub-expression that caused it.

pub mod env;
pub mod err;
pub mod exc;
pub mod interpreter;
pub mod laws;
pub mod lexer;
pub mod lisp_object;
pub mod lisp_object_util;
pub mod native;
pub mod reader;
