//! The front end: lexing and parsing.

use vstd::prelude::*;

pub mod ast_generator;
pub mod lexer;
pub mod node_types;
pub mod token_types;

verus! {

/// Parses a program string into a syntax tree: the text is lexed,
/// and the token stream's first expression — always the implicit
/// sequence form wrapped around the program — is read.
pub fn parse(program: &str) -> (r: Result<
    node_types::ExpressionAST,
    crate::errors::SyntaxError,
>)
    ensures
        ast_generator::gen_matches(lexer::lex_spec(program@), r),
{
    let tokens = lexer::lex(program);
    ast_generator::ast_generate(&tokens)
}

} // verus!
