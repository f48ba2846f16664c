//! The parser.  It reads the token sequence with a cursor and one
//! token of lookahead, dispatching on the next token, and builds the
//! abstract syntax tree by recursive descent.
//!
//! A token that turns out to belong to the next nested expression
//! rather than to the current form is not consumed: the cursor stays
//! on it and the form is reinterpreted, which is how a leading
//! identifier or inner grouping becomes a call.

use vstd::prelude::*;
use crate::errors::SyntaxError;
use crate::parser::node_types::{expr_view, exprs_view, ExprV, ExpressionAST};
use crate::parser::token_types::{toks_view, AtomBinary, Token, TokenV};

verus! {

/// The outcome of parsing one expression: the node read and the
/// cursor after it, or the position of the offending token.
#[verifier::ext_equal]
pub enum ParseStep {
    Good { node: ExprV, next: int },
    Bad { pos: int },
}

/// The outcome of parsing a list of expressions up to and including
/// its closing token.
#[verifier::ext_equal]
pub enum ListStep {
    Good { nodes: Seq<ExprV>, next: int },
    Bad { pos: int },
}

/// One expression, read at cursor `i`.
pub open spec fn sp_parse(t: Seq<TokenV>, i: int) -> ParseStep
    decreases t.len() - i, 0int,
{
    if i < 0 || i >= t.len() {
        ParseStep::Bad { pos: i }
    } else {
        match t[i] {
            TokenV::EOF => ParseStep::Good { node: ExprV::NoneExpr, next: i + 1 },
            TokenV::LeftPar => sp_grouping(t, i + 1),
            TokenV::LeftBkt => sp_pair(t, i + 1),
            TokenV::Integer(v) => ParseStep::Good { node: ExprV::IntegerExpr(v), next: i + 1 },
            TokenV::Identifier(s) => ParseStep::Good {
                node: ExprV::VariableExpr(s),
                next: i + 1,
            },
            _ => ParseStep::Bad { pos: i },
        }
    }
}

/// A parenthesized form, read after its opening parenthesis.
pub open spec fn sp_grouping(t: Seq<TokenV>, i: int) -> ParseStep
    decreases t.len() - i, 2int,
{
    if i < 0 || i >= t.len() {
        ParseStep::Bad { pos: i }
    } else {
        match t[i] {
            TokenV::RightPar => ParseStep::Good { node: ExprV::NoneExpr, next: i + 1 },
            TokenV::Function => sp_function(t, i + 1),
            TokenV::SeqKw => match sp_items(t, i + 1) {
                ListStep::Good { nodes, next } => ParseStep::Good {
                    node: ExprV::SeqExpr(nodes),
                    next,
                },
                ListStep::Bad { pos } => ParseStep::Bad { pos },
            },
            TokenV::Define => sp_definition(t, i + 1),
            TokenV::If => sp_conditional(t, i + 1),
            TokenV::Match => sp_match(t, i + 1),
            TokenV::AtomicOp(op) => sp_atomic(t, op, i + 1),
            // the token belongs to the callee: it is not consumed,
            // and the form is reinterpreted as a call
            TokenV::Identifier(_) => sp_call(t, i),
            TokenV::LeftPar => sp_call(t, i),
            _ => ParseStep::Bad { pos: i },
        }
    }
}

/// A call: the leading expression is the callee, and everything up
/// to the matching closing parenthesis is its arguments.
pub open spec fn sp_call(t: Seq<TokenV>, i: int) -> ParseStep
    decreases t.len() - i, 1int,
{
    match sp_parse(t, i) {
        ParseStep::Good { node: f, next: j } => if j <= i || j > t.len() {
            ParseStep::Bad { pos: i }
        } else {
            match sp_items(t, j) {
                ListStep::Good { nodes, next } => ParseStep::Good {
                    node: ExprV::CallExpr(Box::new(f), nodes),
                    next,
                },
                ListStep::Bad { pos } => ParseStep::Bad { pos },
            }
        },
        ParseStep::Bad { pos } => ParseStep::Bad { pos },
    }
}

/// Expressions up to and including a closing parenthesis.
pub open spec fn sp_items(t: Seq<TokenV>, i: int) -> ListStep
    decreases t.len() - i, 2int,
{
    if i < 0 || i >= t.len() {
        ListStep::Bad { pos: i }
    } else if t[i] is RightPar {
        ListStep::Good { nodes: Seq::empty(), next: i + 1 }
    } else {
        match sp_parse(t, i) {
            ParseStep::Good { node, next: j } => if j <= i || j > t.len() {
                ListStep::Bad { pos: i }
            } else {
                match sp_items(t, j) {
                    ListStep::Good { nodes, next } => ListStep::Good {
                        nodes: seq![node] + nodes,
                        next,
                    },
                    ListStep::Bad { pos } => ListStep::Bad { pos },
                }
            },
            ParseStep::Bad { pos } => ListStep::Bad { pos },
        }
    }
}

/// Parameter names up to and including a closing parenthesis.
pub open spec fn sp_params(t: Seq<TokenV>, i: int) -> ListStep
    decreases t.len() - i, 2int,
{
    if i < 0 || i >= t.len() {
        ListStep::Bad { pos: i }
    } else {
        match t[i] {
            TokenV::RightPar => ListStep::Good { nodes: Seq::empty(), next: i + 1 },
            TokenV::Identifier(s) => match sp_params(t, i + 1) {
                ListStep::Good { nodes, next } => ListStep::Good {
                    nodes: seq![ExprV::VariableExpr(s)] + nodes,
                    next,
                },
                ListStep::Bad { pos } => ListStep::Bad { pos },
            },
            _ => ListStep::Bad { pos: i },
        }
    }
}

/// The closing parenthesis of a form whose node is already built.
pub open spec fn sp_close(t: Seq<TokenV>, i: int, node: ExprV) -> ParseStep {
    if i < 0 || i >= t.len() {
        ParseStep::Bad { pos: i }
    } else if t[i] is RightPar {
        ParseStep::Good { node, next: i + 1 }
    } else {
        ParseStep::Bad { pos: i }
    }
}

/// A function form: a parenthesized parameter list, then the body.
pub open spec fn sp_function(t: Seq<TokenV>, i: int) -> ParseStep
    decreases t.len() - i, 2int,
{
    if i < 0 || i >= t.len() {
        ParseStep::Bad { pos: i }
    } else if !(t[i] is LeftPar) {
        ParseStep::Bad { pos: i }
    } else {
        match sp_params(t, i + 1) {
            ListStep::Good { nodes: ps, next: j } => if j <= i + 1 || j > t.len() {
                ParseStep::Bad { pos: j }
            } else {
                match sp_parse(t, j) {
                    ParseStep::Good { node: body, next: k } => sp_close(
                        t,
                        k,
                        ExprV::FunctionExpr(ps, Box::new(body)),
                    ),
                    ParseStep::Bad { pos } => ParseStep::Bad { pos },
                }
            },
            ListStep::Bad { pos } => ParseStep::Bad { pos },
        }
    }
}

/// A definition form: a name, then its value expression.
pub open spec fn sp_definition(t: Seq<TokenV>, i: int) -> ParseStep
    decreases t.len() - i, 2int,
{
    if i < 0 || i >= t.len() {
        ParseStep::Bad { pos: i }
    } else {
        match t[i] {
            TokenV::Identifier(s) => match sp_parse(t, i + 1) {
                ParseStep::Good { node: v, next: j } => sp_close(
                    t,
                    j,
                    ExprV::DefineExpr(Box::new(ExprV::VariableExpr(s)), Box::new(v)),
                ),
                ParseStep::Bad { pos } => ParseStep::Bad { pos },
            },
            _ => ParseStep::Bad { pos: i },
        }
    }
}

/// A conditional form: predicate, consequent, alternate — exactly
/// three expressions.
pub open spec fn sp_conditional(t: Seq<TokenV>, i: int) -> ParseStep
    decreases t.len() - i, 2int,
{
    match sp_parse(t, i) {
        ParseStep::Good { node: p, next: j } => if j <= i || j > t.len() {
            ParseStep::Bad { pos: i }
        } else {
            match sp_parse(t, j) {
                ParseStep::Good { node: c, next: k } => if k <= j || k > t.len() {
                    ParseStep::Bad { pos: j }
                } else {
                    match sp_parse(t, k) {
                        ParseStep::Good { node: a, next: m } => sp_close(
                            t,
                            m,
                            ExprV::IfExpr(Box::new(p), Box::new(c), Box::new(a)),
                        ),
                        ParseStep::Bad { pos } => ParseStep::Bad { pos },
                    }
                },
                ParseStep::Bad { pos } => ParseStep::Bad { pos },
            }
        },
        ParseStep::Bad { pos } => ParseStep::Bad { pos },
    }
}

/// The patterns of one match arm, up to and including the arrow.
/// Integer literals and identifiers are allowed; matching on
/// non-atomic data is not.
pub open spec fn sp_patterns(t: Seq<TokenV>, i: int) -> ListStep
    decreases t.len() - i, 2int,
{
    if i < 0 || i >= t.len() {
        ListStep::Bad { pos: i }
    } else {
        match t[i] {
            TokenV::Arrow => ListStep::Good { nodes: Seq::empty(), next: i + 1 },
            TokenV::Integer(v) => match sp_patterns(t, i + 1) {
                ListStep::Good { nodes, next } => ListStep::Good {
                    nodes: seq![ExprV::IntegerExpr(v)] + nodes,
                    next,
                },
                ListStep::Bad { pos } => ListStep::Bad { pos },
            },
            TokenV::Identifier(s) => match sp_patterns(t, i + 1) {
                ListStep::Good { nodes, next } => ListStep::Good {
                    nodes: seq![ExprV::VariableExpr(s)] + nodes,
                    next,
                },
                ListStep::Bad { pos } => ListStep::Bad { pos },
            },
            _ => ListStep::Bad { pos: i },
        }
    }
}

/// Match arms up to and including the closing parenthesis.  Each arm
/// is a pipe, its patterns, and its body expression.
pub open spec fn sp_arms(t: Seq<TokenV>, i: int) -> ListStep
    decreases t.len() - i, 2int,
{
    if i < 0 || i >= t.len() {
        ListStep::Bad { pos: i }
    } else {
        match t[i] {
            TokenV::RightPar => ListStep::Good { nodes: Seq::empty(), next: i + 1 },
            TokenV::Pipe => match sp_patterns(t, i + 1) {
                ListStep::Good { nodes: ps, next: j } => if j <= i + 1 || j > t.len() {
                    ListStep::Bad { pos: j }
                } else {
                    match sp_parse(t, j) {
                        ParseStep::Good { node: b, next: k } => if k <= j || k > t.len() {
                            ListStep::Bad { pos: j }
                        } else {
                            match sp_arms(t, k) {
                                ListStep::Good { nodes, next } => ListStep::Good {
                                    nodes: seq![ExprV::MatchArmExpr(ps, Box::new(b))] + nodes,
                                    next,
                                },
                                ListStep::Bad { pos } => ListStep::Bad { pos },
                            }
                        },
                        ParseStep::Bad { pos } => ListStep::Bad { pos },
                    }
                },
                ListStep::Bad { pos } => ListStep::Bad { pos },
            },
            _ => ListStep::Bad { pos: i },
        }
    }
}

/// A match form: the scrutinee, then the arm list.
pub open spec fn sp_match(t: Seq<TokenV>, i: int) -> ParseStep
    decreases t.len() - i, 2int,
{
    match sp_parse(t, i) {
        ParseStep::Good { node: scrut, next: j } => if j <= i || j > t.len() {
            ParseStep::Bad { pos: i }
        } else {
            match sp_arms(t, j) {
                ListStep::Good { nodes, next } => ParseStep::Good {
                    node: ExprV::MatchExpr(Box::new(scrut), nodes),
                    next,
                },
                ListStep::Bad { pos } => ParseStep::Bad { pos },
            }
        },
        ParseStep::Bad { pos } => ParseStep::Bad { pos },
    }
}

/// A pair literal, read after its opening bracket: a head
/// expression, a dot, and a tail expression.
pub open spec fn sp_pair(t: Seq<TokenV>, i: int) -> ParseStep
    decreases t.len() - i, 2int,
{
    match sp_parse(t, i) {
        ParseStep::Good { node: h, next: j } => if j <= i {
            ParseStep::Bad { pos: i }
        } else if j >= t.len() || !(t[j] is Dot) {
            ParseStep::Bad { pos: j }
        } else {
            match sp_parse(t, j + 1) {
                ParseStep::Good { node: tl, next: k } => ParseStep::Good {
                    node: ExprV::PairExpr(Box::new(h), Box::new(tl)),
                    next: k,
                },
                ParseStep::Bad { pos } => ParseStep::Bad { pos },
            }
        },
        ParseStep::Bad { pos } => ParseStep::Bad { pos },
    }
}

/// An atomic-operator form: one operand for logical negation, two
/// for every other operator, then the closing parenthesis.
pub open spec fn sp_atomic(t: Seq<TokenV>, op: AtomBinary, i: int) -> ParseStep
    decreases t.len() - i, 2int,
{
    if op is Not {
        match sp_parse(t, i) {
            ParseStep::Good { node: e, next: j } => sp_close(t, j, ExprV::AtomUnExpr(Box::new(e))),
            ParseStep::Bad { pos } => ParseStep::Bad { pos },
        }
    } else {
        match sp_parse(t, i) {
            ParseStep::Good { node: l, next: j } => if j <= i || j > t.len() {
                ParseStep::Bad { pos: i }
            } else {
                match sp_parse(t, j) {
                    ParseStep::Good { node: r0, next: k } => sp_close(
                        t,
                        k,
                        ExprV::AtomBinExpr(op, Box::new(l), Box::new(r0)),
                    ),
                    ParseStep::Bad { pos } => ParseStep::Bad { pos },
                }
            },
            ParseStep::Bad { pos } => ParseStep::Bad { pos },
        }
    }
}

/// The exec outcome `r` is exactly what the parsing function said at
/// cursor `lo`: the same node and cursor on success, and on failure
/// an error carrying the offending position and the token there.
pub open spec fn res_matches(
    t: Seq<TokenV>,
    s: ParseStep,
    r: Result<(ExpressionAST, usize), SyntaxError>,
    lo: int,
) -> bool {
    match r {
        Ok((n, j)) => s == (ParseStep::Good { node: expr_view(n), next: j as int }) && lo < j
            <= t.len(),
        Err(e) => match s {
            ParseStep::Bad { pos } => e@.position == pos && 0 <= pos <= t.len() && e@.token == (
            if pos < t.len() {
                Some(t[pos])
            } else {
                None
            }),
            ParseStep::Good { .. } => false,
        },
    }
}

/// As `res_matches`, for list-reading functions.
pub open spec fn list_matches(
    t: Seq<TokenV>,
    s: ListStep,
    r: Result<(Vec<ExpressionAST>, usize), SyntaxError>,
    lo: int,
) -> bool {
    match r {
        Ok((ns, j)) => s == (ListStep::Good { nodes: exprs_view(ns@), next: j as int }) && lo < j
            <= t.len(),
        Err(e) => match s {
            ListStep::Bad { pos } => e@.position == pos && 0 <= pos <= t.len() && e@.token == (
            if pos < t.len() {
                Some(t[pos])
            } else {
                None
            }),
            ListStep::Good { .. } => false,
        },
    }
}

/// A list outcome with more nodes in front of it.
pub open spec fn list_prepend(pre: Seq<ExprV>, s: ListStep) -> ListStep {
    match s {
        ListStep::Good { nodes, next } => ListStep::Good { nodes: pre + nodes, next },
        ListStep::Bad { pos } => ListStep::Bad { pos },
    }
}

/// Prepending nodes one list at a time is prepending them together.
proof fn lemma_prepend_assoc(pre: Seq<ExprV>, x: ExprV, s: ListStep)
    ensures
        list_prepend(pre, list_prepend(seq![x], s)) == list_prepend(pre + seq![x], s),
{
    match s {
        ListStep::Good { nodes, next } => {
            assert(pre + (seq![x] + nodes) =~= (pre + seq![x]) + nodes);
        },
        ListStep::Bad { pos } => {},
    }
}

/// A copy of a token that keeps its shape.
fn token_copy(t: &Token) -> (r: Token)
    ensures
        r@ == t@,
{
    match t {
        Token::Integer(i) => Token::Integer(*i),
        Token::Function => Token::Function,
        Token::LeftPar => Token::LeftPar,
        Token::RightPar => Token::RightPar,
        Token::LeftBkt => Token::LeftBkt,
        Token::RightBkt => Token::RightBkt,
        Token::Dot => Token::Dot,
        Token::Grave => Token::Grave,
        Token::Quote => Token::Quote,
        Token::At => Token::At,
        Token::SeqKw => Token::SeqKw,
        Token::Define => Token::Define,
        Token::Identifier(s) => Token::Identifier(s.clone()),
        Token::If => Token::If,
        Token::Match => Token::Match,
        Token::Pipe => Token::Pipe,
        Token::Arrow => Token::Arrow,
        Token::Cont => Token::Cont,
        Token::Extern => Token::Extern,
        Token::AtomicOp(op) => Token::AtomicOp(*op),
        Token::EOF => Token::EOF,
    }
}

/// The syntax error for the token at `pos`, or for a truncated
/// stream when `pos` is past the end.
fn err_at(tokens: &Vec<Token>, pos: usize) -> (e: SyntaxError)
    requires
        pos <= tokens@.len(),
    ensures
        e@.position == pos,
        e@.token == (if pos < toks_view(tokens@).len() {
            Some(toks_view(tokens@)[pos as int])
        } else {
            None
        }),
{
    if pos < tokens.len() {
        SyntaxError { token: Some(token_copy(&tokens[pos])), position: pos }
    } else {
        SyntaxError { token: None, position: pos }
    }
}

/// Parses one expression at cursor `i`.
fn parse(tokens: &Vec<Token>, i: usize) -> (r: Result<(ExpressionAST, usize), SyntaxError>)
    requires
        i <= tokens@.len(),
    ensures
        res_matches(toks_view(tokens@), sp_parse(toks_view(tokens@), i as int), r, i as int),
    decreases tokens@.len() - i, 0int,
{
    let ghost t = toks_view(tokens@);
    if i >= tokens.len() {
        return Err(err_at(tokens, i));
    }
    assert(t[i as int] == tokens@[i as int]@);
    match &tokens[i] {
        Token::EOF => Ok((ExpressionAST::NoneExpr, i + 1)),
        Token::LeftPar => parse_grouping(tokens, i + 1),
        Token::LeftBkt => parse_pair(tokens, i + 1),
        Token::Integer(v) => Ok((ExpressionAST::IntegerExpr(*v), i + 1)),
        Token::Identifier(s) => Ok((ExpressionAST::VariableExpr(s.clone()), i + 1)),
        _ => Err(err_at(tokens, i)),
    }
}

/// Parses a parenthesized form after its opening parenthesis.
fn parse_grouping(tokens: &Vec<Token>, i: usize) -> (r: Result<
    (ExpressionAST, usize),
    SyntaxError,
>)
    requires
        i <= tokens@.len(),
    ensures
        res_matches(toks_view(tokens@), sp_grouping(toks_view(tokens@), i as int), r, i as int),
    decreases tokens@.len() - i, 2int,
{
    let ghost t = toks_view(tokens@);
    if i >= tokens.len() {
        return Err(err_at(tokens, i));
    }
    assert(t[i as int] == tokens@[i as int]@);
    match &tokens[i] {
        Token::RightPar => Ok((ExpressionAST::NoneExpr, i + 1)),
        Token::Function => parse_function(tokens, i + 1),
        Token::SeqKw => parse_sequence(tokens, i + 1),
        Token::Define => parse_definition(tokens, i + 1),
        Token::If => parse_conditional(tokens, i + 1),
        Token::Match => parse_match(tokens, i + 1),
        Token::AtomicOp(op) => parse_atomic(tokens, *op, i + 1),
        // the token belongs to the callee, so it stays unconsumed
        Token::Identifier(_) => parse_call(tokens, i),
        Token::LeftPar => parse_call(tokens, i),
        _ => Err(err_at(tokens, i)),
    }
}

/// Parses a call: the callee expression, then its arguments.
fn parse_call(tokens: &Vec<Token>, i: usize) -> (r: Result<(ExpressionAST, usize), SyntaxError>)
    requires
        i <= tokens@.len(),
    ensures
        res_matches(toks_view(tokens@), sp_call(toks_view(tokens@), i as int), r, i as int),
    decreases tokens@.len() - i, 1int,
{
    let (f, j) = match parse(tokens, i) {
        Ok(p) => p,
        Err(e) => {
            return Err(e);
        },
    };
    let (args, k) = match parse_items(tokens, j) {
        Ok(p) => p,
        Err(e) => {
            return Err(e);
        },
    };
    Ok((ExpressionAST::CallExpr(Box::new(f), args), k))
}

/// Parses expressions up to and including a closing parenthesis.
fn parse_items(tokens: &Vec<Token>, i: usize) -> (r: Result<
    (Vec<ExpressionAST>, usize),
    SyntaxError,
>)
    requires
        i <= tokens@.len(),
    ensures
        list_matches(toks_view(tokens@), sp_items(toks_view(tokens@), i as int), r, i as int),
    decreases tokens@.len() - i, 2int,
{
    broadcast use crate::parser::node_types::lemma_exprs_view_push;

    let ghost t = toks_view(tokens@);
    let mut acc: Vec<ExpressionAST> = Vec::new();
    let mut j: usize = i;
    assert(exprs_view(acc@) =~= Seq::<ExprV>::empty());
    assert(sp_items(t, i as int) == list_prepend(exprs_view(acc@), sp_items(t, j as int)));
    loop
        invariant
            i <= j <= tokens@.len(),
            t == toks_view(tokens@),
            sp_items(t, i as int) == list_prepend(exprs_view(acc@), sp_items(t, j as int)),
        decreases tokens@.len() - j,
    {
        if j >= tokens.len() {
            return Err(err_at(tokens, j));
        }
        assert(t[j as int] == tokens@[j as int]@);
        if let Token::RightPar = &tokens[j] {
            assert(exprs_view(acc@) + Seq::<ExprV>::empty() =~= exprs_view(acc@));
            return Ok((acc, j + 1));
        }
        let (n, j2) = match parse(tokens, j) {
            Ok(p) => p,
            Err(e) => {
                return Err(e);
            },
        };
        proof {
            assert(sp_items(t, j as int) == list_prepend(
                seq![expr_view(n)],
                sp_items(t, j2 as int),
            ));
        }
        let ghost acc0 = acc@;
        let ghost nn = n;
        acc.push(n);
        proof {
            crate::parser::node_types::lemma_exprs_view_push(acc0, nn);
            lemma_prepend_assoc(exprs_view(acc0), expr_view(nn), sp_items(t, j2 as int));
        }
        j = j2;
    }
}

/// Parses a sequence form: its expressions, then the close.
fn parse_sequence(tokens: &Vec<Token>, i: usize) -> (r: Result<
    (ExpressionAST, usize),
    SyntaxError,
>)
    requires
        i <= tokens@.len(),
    ensures
        res_matches(
            toks_view(tokens@),
            match sp_items(toks_view(tokens@), i as int) {
                ListStep::Good { nodes, next } => ParseStep::Good {
                    node: ExprV::SeqExpr(nodes),
                    next,
                },
                ListStep::Bad { pos } => ParseStep::Bad { pos },
            },
            r,
            i as int,
        ),
    decreases tokens@.len() - i, 3int,
{
    let (es, j) = match parse_items(tokens, i) {
        Ok(p) => p,
        Err(e) => {
            return Err(e);
        },
    };
    Ok((ExpressionAST::SeqExpr(es), j))
}

/// Parses a function form: the parameter bracket, the parameters,
/// the body, and the close.
fn parse_function(tokens: &Vec<Token>, i: usize) -> (r: Result<
    (ExpressionAST, usize),
    SyntaxError,
>)
    requires
        i <= tokens@.len(),
    ensures
        res_matches(toks_view(tokens@), sp_function(toks_view(tokens@), i as int), r, i as int),
    decreases tokens@.len() - i, 2int,
{
    broadcast use crate::parser::node_types::lemma_exprs_view_push;

    let ghost t = toks_view(tokens@);
    if i >= tokens.len() {
        return Err(err_at(tokens, i));
    }
    assert(t[i as int] == tokens@[i as int]@);
    match &tokens[i] {
        Token::LeftPar => {},
        _ => {
            return Err(err_at(tokens, i));
        },
    }
    // the parameters, up to the bracket's close
    let mut params: Vec<ExpressionAST> = Vec::new();
    let mut j: usize = i + 1;
    assert(exprs_view(params@) =~= Seq::<ExprV>::empty());
    assert(sp_params(t, i + 1) == list_prepend(exprs_view(params@), sp_params(t, j as int)));
    loop
        invariant
            i + 1 <= j <= tokens@.len(),
            t == toks_view(tokens@),
            i < tokens@.len(),
            sp_params(t, i + 1) == list_prepend(exprs_view(params@), sp_params(t, j as int)),
            t[i as int] is LeftPar,
        decreases tokens@.len() - j,
    {
        if j >= tokens.len() {
            return Err(err_at(tokens, j));
        }
        assert(t[j as int] == tokens@[j as int]@);
        match &tokens[j] {
            Token::RightPar => {
                proof {
                    assert(exprs_view(params@) + Seq::<ExprV>::empty() =~= exprs_view(params@));
                    assert(sp_params(t, i + 1) == (ListStep::Good {
                        nodes: exprs_view(params@),
                        next: j + 1,
                    }));
                }
                // the body expression
                let (body, k) = match parse(tokens, j + 1) {
                    Ok(p) => p,
                    Err(e) => {
                        return Err(e);
                    },
                };
                let node = ExpressionAST::FunctionExpr(params, Box::new(body));
                return close_grouping(tokens, k, node);
            },
            Token::Identifier(s) => {
                let ghost params0 = params@;
                let x = ExpressionAST::VariableExpr(s.clone());
                let ghost xn = x;
                params.push(x);
                proof {
                    crate::parser::node_types::lemma_exprs_view_push(params0, xn);
                    lemma_prepend_assoc(exprs_view(params0), expr_view(xn), sp_params(t, j + 1));
                }
                j += 1;
            },
            _ => {
                return Err(err_at(tokens, j));
            },
        }
    }
}

/// Consumes the closing parenthesis of a finished form.
fn close_grouping(tokens: &Vec<Token>, i: usize, node: ExpressionAST) -> (r: Result<
    (ExpressionAST, usize),
    SyntaxError,
>)
    requires
        i <= tokens@.len(),
    ensures
        res_matches(
            toks_view(tokens@),
            sp_close(toks_view(tokens@), i as int, expr_view(node)),
            r,
            i as int,
        ),
{
    let ghost t = toks_view(tokens@);
    if i >= tokens.len() {
        return Err(err_at(tokens, i));
    }
    assert(t[i as int] == tokens@[i as int]@);
    match &tokens[i] {
        Token::RightPar => Ok((node, i + 1)),
        _ => Err(err_at(tokens, i)),
    }
}

/// Parses a definition form: the name, its value, and the close.
fn parse_definition(tokens: &Vec<Token>, i: usize) -> (r: Result<
    (ExpressionAST, usize),
    SyntaxError,
>)
    requires
        i <= tokens@.len(),
    ensures
        res_matches(toks_view(tokens@), sp_definition(toks_view(tokens@), i as int), r, i as int),
    decreases tokens@.len() - i, 2int,
{
    let ghost t = toks_view(tokens@);
    if i >= tokens.len() {
        return Err(err_at(tokens, i));
    }
    assert(t[i as int] == tokens@[i as int]@);
    let name = match &tokens[i] {
        Token::Identifier(s) => s.clone(),
        _ => {
            return Err(err_at(tokens, i));
        },
    };
    let ghost namev = name@;
    let (v, j) = match parse(tokens, i + 1) {
        Ok(p) => p,
        Err(e) => {
            return Err(e);
        },
    };
    let ghost vv = expr_view(v);
    let name_node = ExpressionAST::VariableExpr(name);
    assert(expr_view(name_node) == ExprV::VariableExpr(namev));
    let node = ExpressionAST::DefineExpr(Box::new(name_node), Box::new(v));
    proof {
        assert(expr_view(node) == ExprV::DefineExpr(
            Box::new(ExprV::VariableExpr(namev)),
            Box::new(vv),
        ));
        assert(sp_definition(t, i as int) == sp_close(t, j as int, expr_view(node)));
    }
    close_grouping(tokens, j, node)
}

/// Parses a conditional form: its three expressions and the close.
fn parse_conditional(tokens: &Vec<Token>, i: usize) -> (r: Result<
    (ExpressionAST, usize),
    SyntaxError,
>)
    requires
        i <= tokens@.len(),
    ensures
        res_matches(toks_view(tokens@), sp_conditional(toks_view(tokens@), i as int), r, i as int),
    decreases tokens@.len() - i, 2int,
{
    let (p, j) = match parse(tokens, i) {
        Ok(x) => x,
        Err(e) => {
            return Err(e);
        },
    };
    let (c, k) = match parse(tokens, j) {
        Ok(x) => x,
        Err(e) => {
            return Err(e);
        },
    };
    let (a, m) = match parse(tokens, k) {
        Ok(x) => x,
        Err(e) => {
            return Err(e);
        },
    };
    let node = ExpressionAST::IfExpr(Box::new(p), Box::new(c), Box::new(a));
    close_grouping(tokens, m, node)
}

/// Parses a match form: the scrutinee, then the arms.
fn parse_match(tokens: &Vec<Token>, i: usize) -> (r: Result<(ExpressionAST, usize), SyntaxError>)
    requires
        i <= tokens@.len(),
    ensures
        res_matches(toks_view(tokens@), sp_match(toks_view(tokens@), i as int), r, i as int),
    decreases tokens@.len() - i, 2int,
{
    broadcast use crate::parser::node_types::lemma_exprs_view_push;

    let ghost t = toks_view(tokens@);
    let (scrut, j0) = match parse(tokens, i) {
        Ok(x) => x,
        Err(e) => {
            return Err(e);
        },
    };
    let ghost scrutv = expr_view(scrut);
    let mut arms: Vec<ExpressionAST> = Vec::new();
    let mut j: usize = j0;
    assert(exprs_view(arms@) =~= Seq::<ExprV>::empty());
    assert(sp_arms(t, j0 as int) == list_prepend(exprs_view(arms@), sp_arms(t, j as int)));
    loop
        invariant
            i <= tokens@.len(),
            0 <= i < j0 <= j <= tokens@.len(),
            t == toks_view(tokens@),
            scrutv == expr_view(scrut),
            sp_parse(t, i as int) == (ParseStep::Good { node: scrutv, next: j0 as int }),
            sp_arms(t, j0 as int) == list_prepend(exprs_view(arms@), sp_arms(t, j as int)),
        decreases tokens@.len() - j,
    {
        if j >= tokens.len() {
            return Err(err_at(tokens, j));
        }
        assert(t[j as int] == tokens@[j as int]@);
        match &tokens[j] {
            Token::RightPar => {
                assert(exprs_view(arms@) + Seq::<ExprV>::empty() =~= exprs_view(arms@));
                return Ok((ExpressionAST::MatchExpr(Box::new(scrut), arms), j + 1));
            },
            Token::Pipe => {
                let (arm, j2) = match parse_arm(tokens, j + 1) {
                    Ok(p) => p,
                    Err(e) => {
                        return Err(e);
                    },
                };
                let ghost arms0 = arms@;
                let ghost armn = arm;
                arms.push(arm);
                proof {
                    crate::parser::node_types::lemma_exprs_view_push(arms0, armn);
                    lemma_prepend_assoc(exprs_view(arms0), expr_view(armn), sp_arms(t, j2 as int));
                }
                j = j2;
            },
            _ => {
                return Err(err_at(tokens, j));
            },
        }
    }
}

/// Parses one match arm after its pipe: the patterns, the arrow, and
/// the arm's body.
fn parse_arm(tokens: &Vec<Token>, i: usize) -> (r: Result<(ExpressionAST, usize), SyntaxError>)
    requires
        i <= tokens@.len(),
    ensures
        match r {
            Ok((n, j)) => {
                &&& i < j <= tokens@.len()
                &&& match sp_patterns(toks_view(tokens@), i as int) {
                    ListStep::Good { nodes: ps, next: jp } => {
                        &&& i < jp <= tokens@.len()
                        &&& match sp_parse(toks_view(tokens@), jp) {
                            ParseStep::Good { node: b, next: k } => n@ == ExprV::MatchArmExpr(
                                ps,
                                Box::new(b),
                            ) && k == j as int && jp < k,
                            ParseStep::Bad { .. } => false,
                        }
                    },
                    ListStep::Bad { .. } => false,
                }
            },
            Err(e) => {
                let s = match sp_patterns(toks_view(tokens@), i as int) {
                    ListStep::Good { nodes: ps, next: jp } => match sp_parse(
                        toks_view(tokens@),
                        jp,
                    ) {
                        ParseStep::Good { .. } => ListStep::Bad { pos: -1 },
                        ParseStep::Bad { pos } => ListStep::Bad { pos },
                    },
                    ListStep::Bad { pos } => ListStep::Bad { pos },
                };
                &&& match s {
                    ListStep::Bad { pos } => pos == e@.position && 0 <= pos <= tokens@.len()
                        && e@.token == (if pos < toks_view(tokens@).len() {
                        Some(toks_view(tokens@)[pos])
                    } else {
                        None
                    }),
                    ListStep::Good { .. } => false,
                }
                &&& match sp_patterns(toks_view(tokens@), i as int) {
                    ListStep::Good { nodes: ps, next: jp } => i < jp <= tokens@.len(),
                    ListStep::Bad { .. } => true,
                }
            },
        },
    decreases tokens@.len() - i, 2int,
{
    broadcast use crate::parser::node_types::lemma_exprs_view_push;

    let ghost t = toks_view(tokens@);
    let mut pats: Vec<ExpressionAST> = Vec::new();
    let mut j: usize = i;
    assert(exprs_view(pats@) =~= Seq::<ExprV>::empty());
    assert(sp_patterns(t, i as int) == list_prepend(exprs_view(pats@), sp_patterns(t, j as int)));
    loop
        invariant
            i <= j <= tokens@.len(),
            t == toks_view(tokens@),
            sp_patterns(t, i as int) == list_prepend(exprs_view(pats@), sp_patterns(t, j as int)),
        decreases tokens@.len() - j,
    {
        if j >= tokens.len() {
            return Err(err_at(tokens, j));
        }
        assert(t[j as int] == tokens@[j as int]@);
        match &tokens[j] {
            Token::Arrow => {
                proof {
                    assert(exprs_view(pats@) + Seq::<ExprV>::empty() =~= exprs_view(pats@));
                    assert(sp_patterns(t, i as int) == (ListStep::Good {
                        nodes: exprs_view(pats@),
                        next: j + 1,
                    }));
                }
                let (body, k) = match parse(tokens, j + 1) {
                    Ok(x) => x,
                    Err(e) => {
                        return Err(e);
                    },
                };
                return Ok((ExpressionAST::MatchArmExpr(pats, Box::new(body)), k));
            },
            Token::Integer(v) => {
                let ghost pats0 = pats@;
                let x = ExpressionAST::IntegerExpr(*v);
                let ghost xn = x;
                pats.push(x);
                proof {
                    crate::parser::node_types::lemma_exprs_view_push(pats0, xn);
                    lemma_prepend_assoc(exprs_view(pats0), expr_view(xn), sp_patterns(t, j + 1));
                }
                j += 1;
            },
            // allowed for the catch-all case
            Token::Identifier(s) => {
                let ghost pats0 = pats@;
                let x = ExpressionAST::VariableExpr(s.clone());
                let ghost xn = x;
                pats.push(x);
                proof {
                    crate::parser::node_types::lemma_exprs_view_push(pats0, xn);
                    lemma_prepend_assoc(exprs_view(pats0), expr_view(xn), sp_patterns(t, j + 1));
                }
                j += 1;
            },
            // matching on non-atomic data is not allowed
            _ => {
                return Err(err_at(tokens, j));
            },
        }
    }
}

/// Parses a pair literal after its opening bracket.
fn parse_pair(tokens: &Vec<Token>, i: usize) -> (r: Result<(ExpressionAST, usize), SyntaxError>)
    requires
        i <= tokens@.len(),
    ensures
        res_matches(toks_view(tokens@), sp_pair(toks_view(tokens@), i as int), r, i as int),
    decreases tokens@.len() - i, 2int,
{
    let ghost t = toks_view(tokens@);
    let (h, j) = match parse(tokens, i) {
        Ok(x) => x,
        Err(e) => {
            return Err(e);
        },
    };
    if j >= tokens.len() {
        return Err(err_at(tokens, j));
    }
    assert(t[j as int] == tokens@[j as int]@);
    match &tokens[j] {
        Token::Dot => {},
        _ => {
            return Err(err_at(tokens, j));
        },
    }
    let (tl, k) = match parse(tokens, j + 1) {
        Ok(x) => x,
        Err(e) => {
            return Err(e);
        },
    };
    Ok((ExpressionAST::PairExpr(Box::new(h), Box::new(tl)), k))
}

/// Parses an atomic-operator form.
fn parse_atomic(tokens: &Vec<Token>, op: AtomBinary, i: usize) -> (r: Result<
    (ExpressionAST, usize),
    SyntaxError,
>)
    requires
        i <= tokens@.len(),
    ensures
        res_matches(toks_view(tokens@), sp_atomic(toks_view(tokens@), op, i as int), r, i as int),
    decreases tokens@.len() - i, 2int,
{
    if let AtomBinary::Not = op {
        let (e1, j) = match parse(tokens, i) {
            Ok(x) => x,
            Err(e) => {
                return Err(e);
            },
        };
        let node = ExpressionAST::AtomUnExpr(Box::new(e1));
        close_grouping(tokens, j, node)
    } else {
        let (l, j) = match parse(tokens, i) {
            Ok(x) => x,
            Err(e) => {
                return Err(e);
            },
        };
        let (r0, k) = match parse(tokens, j) {
            Ok(x) => x,
            Err(e) => {
                return Err(e);
            },
        };
        let node = ExpressionAST::AtomBinExpr(op, Box::new(l), Box::new(r0));
        close_grouping(tokens, k, node)
    }
}

/// The exec result of reading the whole stream's first expression is
/// what the parsing function says at cursor zero.
pub open spec fn gen_matches(t: Seq<TokenV>, r: Result<ExpressionAST, SyntaxError>) -> bool {
    match r {
        Ok(n) => sp_parse(t, 0) matches ParseStep::Good { node, .. } && node == expr_view(n),
        Err(e) => match sp_parse(t, 0) {
            ParseStep::Bad { pos } => e@.position == pos && 0 <= pos <= t.len() && e@.token == (
            if pos < t.len() {
                Some(t[pos])
            } else {
                None
            }),
            ParseStep::Good { .. } => false,
        },
    }
}

/// Generates the syntax tree from a token stream: the stream's first
/// expression.  Tokens after it are not read.
pub fn ast_generate(tokens: &Vec<Token>) -> (r: Result<ExpressionAST, SyntaxError>)
    ensures
        gen_matches(toks_view(tokens@), r),
{
    match parse(tokens, 0) {
        Ok((node, _)) => Ok(node),
        Err(e) => Err(e),
    }
}

} // verus!
