pub mod ast;
pub mod entries;
pub mod env;
pub mod error;
pub mod interpreter;
pub mod parse;
pub mod runtime;
pub mod text;
