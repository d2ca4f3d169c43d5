//! A lazy tokenizer, parser and tape interpreter for the eight-symbol
//! brainfuck language. Loop bodies are never stored: a loop is a cursor
//! snapshot that is parsed afresh each time the body runs.
pub mod interp;
pub mod lexer;
pub mod parser;
pub mod tape;
