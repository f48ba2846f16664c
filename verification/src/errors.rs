//! The error taxonomy.  Every error is fail-fast: it aborts the
//! current compile unit, and nothing is retried.

use vstd::prelude::*;
use crate::parser::token_types::{Token, TokenV};

verus! {

/// A malformed or truncated token stream, carrying the offending
/// token and its position.  `token` is `None` when the stream ended
/// where another token was still required.
#[derive(Debug)]
pub struct SyntaxError {
    pub token: Option<Token>,
    pub position: usize,
}

/// The mathematical shape of a syntax error.
pub struct SyntaxErrorV {
    pub token: Option<TokenV>,
    pub position: int,
}

impl View for SyntaxError {
    type V = SyntaxErrorV;

    open spec fn view(&self) -> SyntaxErrorV {
        SyntaxErrorV {
            token: match &self.token {
                Some(t) => Some(t@),
                None => None,
            },
            position: self.position as int,
        }
    }
}

/// A fatal error met while generating code.
#[derive(Debug)]
pub enum CompileError {
    /// A name that no scope in the current chain binds.
    UnboundVariable(String),
    /// A special form of the wrong arity or shape.
    MalformedForm,
    /// A form that the code generator intentionally does not lower.
    UnsupportedConstruct,
}

/// The mathematical shape of a code-generation error.
pub enum CompileErrorV {
    UnboundVariable(Seq<char>),
    MalformedForm,
    UnsupportedConstruct,
}

impl View for CompileError {
    type V = CompileErrorV;

    open spec fn view(&self) -> CompileErrorV {
        match self {
            CompileError::UnboundVariable(s) => CompileErrorV::UnboundVariable(s@),
            CompileError::MalformedForm => CompileErrorV::MalformedForm,
            CompileError::UnsupportedConstruct => CompileErrorV::UnsupportedConstruct,
        }
    }
}

} // verus!
