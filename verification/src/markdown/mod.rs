pub mod ast;
pub mod events;
pub mod parser;
