//! Token types for the language.

use vstd::prelude::*;

verus! {

/// The different kinds of tokens that the lexer can produce.
#[derive(Clone, Debug, PartialEq)]
pub enum Token {
    /// A base-10 integer literal fitting in a signed 32-bit value.
    Integer(i32),
    /// The keyword that opens a function form.
    Function,
    /// Scope brackets.
    LeftPar,
    RightPar,
    /// Pair syntax.
    LeftBkt,
    RightBkt,
    Dot,
    /// Quote syntax.
    Grave,
    Quote,
    At,
    /// The keyword that opens a sequence form.
    SeqKw,
    /// The keyword that opens a definition form.
    Define,
    /// Any other whitespace-delimited word.
    Identifier(String),
    /// The keyword that opens a conditional form.
    If,
    /// Match-case syntax.
    Match,
    Pipe,
    Arrow,
    /// The continuation keyword.
    Cont,
    /// The foreign-function keyword.
    Extern,
    /// An atomic operator such as `$+`.
    AtomicOp(AtomBinary),
    /// End of the token stream.
    EOF,
}

/// The different atomic operators.
#[derive(Clone, Copy, Debug, PartialEq, Eq, Structural)]
pub enum AtomBinary {
    Add,
    Sub,
    Mul,
    Div,
    And,
    Or,
    Not,
    Eq,
    Lt,
}

/// The mathematical shape of a token: identifier text is a sequence
/// of characters rather than a heap value.
pub enum TokenV {
    Integer(i32),
    Function,
    LeftPar,
    RightPar,
    LeftBkt,
    RightBkt,
    Dot,
    Grave,
    Quote,
    At,
    SeqKw,
    Define,
    Identifier(Seq<char>),
    If,
    Match,
    Pipe,
    Arrow,
    Cont,
    Extern,
    AtomicOp(AtomBinary),
    EOF,
}

impl View for Token {
    type V = TokenV;

    open spec fn view(&self) -> TokenV {
        match self {
            Token::Integer(i) => TokenV::Integer(*i),
            Token::Function => TokenV::Function,
            Token::LeftPar => TokenV::LeftPar,
            Token::RightPar => TokenV::RightPar,
            Token::LeftBkt => TokenV::LeftBkt,
            Token::RightBkt => TokenV::RightBkt,
            Token::Dot => TokenV::Dot,
            Token::Grave => TokenV::Grave,
            Token::Quote => TokenV::Quote,
            Token::At => TokenV::At,
            Token::SeqKw => TokenV::SeqKw,
            Token::Define => TokenV::Define,
            Token::Identifier(s) => TokenV::Identifier(s@),
            Token::If => TokenV::If,
            Token::Match => TokenV::Match,
            Token::Pipe => TokenV::Pipe,
            Token::Arrow => TokenV::Arrow,
            Token::Cont => TokenV::Cont,
            Token::Extern => TokenV::Extern,
            Token::AtomicOp(op) => TokenV::AtomicOp(*op),
            Token::EOF => TokenV::EOF,
        }
    }
}

/// The mathematical shape of a token sequence.
pub open spec fn toks_view(ts: Seq<Token>) -> Seq<TokenV> {
    ts.map_values(|t: Token| t@)
}

/// Appending a token to a sequence appends its shape.
pub broadcast proof fn lemma_toks_view_push(ts: Seq<Token>, t: Token)
    ensures
        #[trigger] toks_view(ts.push(t)) =~= toks_view(ts) + seq![t@],
{
}

} // verus!
