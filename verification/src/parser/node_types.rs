//! Node types for the parser.

use vstd::prelude::*;
use crate::parser::token_types::AtomBinary;

verus! {

/// A node of the abstract syntax tree.  Built exclusively by the
/// parser, immutable thereafter, and always a tree: no cycles and no
/// shared subtrees.
#[derive(Debug)]
pub enum ExpressionAST {
    /// A variable reference.
    VariableExpr(String),
    /// An integer literal.
    IntegerExpr(i32),
    /// The unit-valued form `()`, also produced for an empty program.
    NoneExpr,
    /// A pair literal `[head . tail]`.
    PairExpr(Box<ExpressionAST>, Box<ExpressionAST>),
    /// A function object: parameters and body.
    FunctionExpr(Vec<ExpressionAST>, Box<ExpressionAST>),
    /// A definition: identifier and value expression.
    DefineExpr(Box<ExpressionAST>, Box<ExpressionAST>),
    /// A call: callee and arguments.
    CallExpr(Box<ExpressionAST>, Vec<ExpressionAST>),
    /// A conditional: predicate, consequent, alternate.
    IfExpr(Box<ExpressionAST>, Box<ExpressionAST>, Box<ExpressionAST>),
    /// A match form: scrutinee and ordered arm list.
    MatchExpr(Box<ExpressionAST>, Vec<ExpressionAST>),
    /// One match arm: patterns and arm body.
    MatchArmExpr(Vec<ExpressionAST>, Box<ExpressionAST>),
    /// A sequence of expressions; its value is the last one's value.
    SeqExpr(Vec<ExpressionAST>),
    /// An atomic binary operation.
    AtomBinExpr(AtomBinary, Box<ExpressionAST>, Box<ExpressionAST>),
    /// The atomic unary operation: logical negation.
    AtomUnExpr(Box<ExpressionAST>),
}

/// The mathematical shape of a syntax tree node: identifier text is a
/// sequence of characters and child lists are sequences.
#[verifier::ext_equal]
pub enum ExprV {
    VariableExpr(Seq<char>),
    IntegerExpr(i32),
    NoneExpr,
    PairExpr(Box<ExprV>, Box<ExprV>),
    FunctionExpr(Seq<ExprV>, Box<ExprV>),
    DefineExpr(Box<ExprV>, Box<ExprV>),
    CallExpr(Box<ExprV>, Seq<ExprV>),
    IfExpr(Box<ExprV>, Box<ExprV>, Box<ExprV>),
    MatchExpr(Box<ExprV>, Seq<ExprV>),
    MatchArmExpr(Seq<ExprV>, Box<ExprV>),
    SeqExpr(Seq<ExprV>),
    AtomBinExpr(AtomBinary, Box<ExprV>, Box<ExprV>),
    AtomUnExpr(Box<ExprV>),
}

/// The mathematical shape of a node.
pub open spec fn expr_view(e: ExpressionAST) -> ExprV
    decreases e,
{
    match e {
        ExpressionAST::VariableExpr(s) => ExprV::VariableExpr(s@),
        ExpressionAST::IntegerExpr(i) => ExprV::IntegerExpr(i),
        ExpressionAST::NoneExpr => ExprV::NoneExpr,
        ExpressionAST::PairExpr(h, t) => ExprV::PairExpr(
            Box::new(expr_view(*h)),
            Box::new(expr_view(*t)),
        ),
        ExpressionAST::FunctionExpr(ps, b) => ExprV::FunctionExpr(
            exprs_view(ps@),
            Box::new(expr_view(*b)),
        ),
        ExpressionAST::DefineExpr(n, v) => ExprV::DefineExpr(
            Box::new(expr_view(*n)),
            Box::new(expr_view(*v)),
        ),
        ExpressionAST::CallExpr(f, args) => ExprV::CallExpr(
            Box::new(expr_view(*f)),
            exprs_view(args@),
        ),
        ExpressionAST::IfExpr(p, c, a) => ExprV::IfExpr(
            Box::new(expr_view(*p)),
            Box::new(expr_view(*c)),
            Box::new(expr_view(*a)),
        ),
        ExpressionAST::MatchExpr(s, arms) => ExprV::MatchExpr(
            Box::new(expr_view(*s)),
            exprs_view(arms@),
        ),
        ExpressionAST::MatchArmExpr(pats, b) => ExprV::MatchArmExpr(
            exprs_view(pats@),
            Box::new(expr_view(*b)),
        ),
        ExpressionAST::SeqExpr(es) => ExprV::SeqExpr(exprs_view(es@)),
        ExpressionAST::AtomBinExpr(op, l, r) => ExprV::AtomBinExpr(
            op,
            Box::new(expr_view(*l)),
            Box::new(expr_view(*r)),
        ),
        ExpressionAST::AtomUnExpr(e1) => ExprV::AtomUnExpr(Box::new(expr_view(*e1))),
    }
}

/// The mathematical shape of a list of nodes.
pub open spec fn exprs_view(es: Seq<ExpressionAST>) -> Seq<ExprV>
    decreases es,
{
    if es.len() == 0 {
        Seq::empty()
    } else {
        seq![expr_view(es[0])] + exprs_view(es.drop_first())
    }
}

/// Appending a node to a list appends its shape.
pub broadcast proof fn lemma_exprs_view_push(es: Seq<ExpressionAST>, e: ExpressionAST)
    ensures
        #[trigger] exprs_view(es.push(e)) =~= exprs_view(es) + seq![expr_view(e)],
{
    lemma_exprs_view(es.push(e));
    lemma_exprs_view(es);
    assert forall|i: int| 0 <= i < es.len() + 1 implies exprs_view(es.push(e))[i] == (exprs_view(
        es,
    ) + seq![expr_view(e)])[i] by {
        if i < es.len() {
            assert(es.push(e)[i] == es[i]);
            assert(exprs_view(es.push(e))[i] == expr_view(es.push(e)[i]));
            assert(exprs_view(es)[i] == expr_view(es[i]));
        } else {
            assert(es.push(e)[i] == e);
            assert(exprs_view(es.push(e))[i] == expr_view(es.push(e)[i]));
        }
    }
}

impl View for ExpressionAST {
    type V = ExprV;

    open spec fn view(&self) -> ExprV {
        expr_view(*self)
    }
}

/// Lists of nodes keep their length and order under `exprs_view`.
pub proof fn lemma_exprs_view(es: Seq<ExpressionAST>)
    ensures
        exprs_view(es).len() == es.len(),
        forall|i: int| 0 <= i < es.len() ==> exprs_view(es)[i] == #[trigger] expr_view(es[i]),
    decreases es.len(),
{
    if es.len() > 0 {
        lemma_exprs_view(es.drop_first());
        assert forall|i: int| 0 <= i < es.len() implies exprs_view(es)[i] == #[trigger] expr_view(
            es[i],
        ) by {
            if i > 0 {
                assert(es.drop_first()[i - 1] == es[i]);
            }
        }
    }
}

} // verus!
