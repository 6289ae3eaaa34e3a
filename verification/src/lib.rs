pub mod bindings;
pub mod class;
pub mod environment;
pub mod expr;
pub mod expression_laws;
pub mod grammar;
pub mod instance;
pub mod parser;
pub mod pipeline;
pub mod program_laws;
pub mod resolution;
pub mod resolver;
pub mod runtime;
pub mod scanner;
pub mod statement_laws;
pub mod stmt;
pub mod text;
pub mod token;
pub mod token_type;
