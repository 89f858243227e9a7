pub mod constants;
pub mod text;
pub mod error;
pub mod cell;
pub mod code;
pub mod dict;
pub mod lexer;
pub mod reader;
pub mod random;
pub mod vm;
pub mod expr;
pub mod exec;
pub mod words;
pub mod primitives;
pub mod interpreter;

pub use crate::words::init_vm;
