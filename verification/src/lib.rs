pub mod ast;
pub mod parse;
pub mod ttype;
