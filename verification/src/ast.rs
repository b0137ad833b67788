pub mod expr;
