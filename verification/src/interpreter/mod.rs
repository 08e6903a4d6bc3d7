pub mod ast;
pub mod compiler;
