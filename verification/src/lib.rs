pub mod assignment;
pub mod ast;
pub mod config;
pub mod dump;
pub mod executor;
pub mod job_manager;
pub mod lexer;
pub mod parser;
pub mod path;
pub mod scheduler;
pub mod shell;
pub mod text;
pub mod theme;
pub mod variable;
pub mod wait;
