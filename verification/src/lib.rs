// A front end for sums: a scanner that cuts a text into token kinds, and a
// parser that reads the same text into an expression tree and resolves the
// names in it. The two do not depend on each other.
//
// `lexer`     the scanner and what it computes
// `grammar`   the expression grammar, as functions on sequences of characters
// `parser`    the functions that read a text by that grammar
// `terminals` the recognizers of the grammar's terminals, which are nom's
// `eval`      the resolution of identifiers
// `laws`      what holds of all of these together

pub mod ast;
pub mod cursor;
pub mod error;
pub mod eval;
pub mod grammar;
pub mod laws;
pub mod lexer;
pub mod parser;
pub mod runs;
pub mod terminals;
