//! An infix arithmetic evaluator: a tokenizer, an operator-precedence
//! compiler to a postfix program, and a runner generic over the number
//! domain.
pub mod ops;
pub mod lexer;
pub mod compile;
pub mod eval;
pub mod laws;
