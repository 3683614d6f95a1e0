pub mod ast;
pub mod ast_parser;
pub mod lookahead_iterator;
pub mod token;
pub mod tokenizer;
