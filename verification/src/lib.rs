//! A small interactive shell: lexer, parser, line editor and the pure parts
//! of its built-in commands, with their behaviour stated and proved.

pub mod text;
pub mod lexer;
pub mod parser;
pub mod editor;
pub mod columns;
pub mod builtins;
pub mod order;
pub mod executor;
