//! The meaning of the language: a big-step evaluator over syntax
//! trees.
//!
//! An environment is the chain of lexical frames, outermost first;
//! each frame is the list of bindings made in it, later bindings
//! shadowing earlier ones.  Sequence bodies, branch bodies and
//! function bodies evaluate in a fresh child frame, so inner
//! definitions never leak outward; a definition extends the frame it
//! is made in, and it alone.

use vstd::prelude::*;
use crate::compiler::ir::BinOp;
use crate::parser::node_types::ExprV;
use crate::parser::token_types::AtomBinary;
use crate::semantics::machine::bin_eval;

verus! {

/// The chain of lexical frames, outermost first.  Each binding is a
/// name and its current value.
pub type Env = Seq<Seq<(Seq<char>, i32)>>;

/// What evaluating an expression yields: its value and the
/// environment after it, a division-by-zero fault, or `Wrong` for
/// the constructs that compilation rejects (unbound names, malformed
/// definitions, forms the code generator does not lower).
#[verifier::ext_equal]
pub enum EvalOut {
    Val { v: i32, env: Env },
    DivFault,
    Wrong,
}

/// The value of a name in one frame, the latest binding winning.
pub open spec fn frame_lookup(f: Seq<(Seq<char>, i32)>, name: Seq<char>) -> Option<i32>
    decreases f.len(),
{
    if f.len() == 0 {
        None
    } else if f.last().0 == name {
        Some(f.last().1)
    } else {
        frame_lookup(f.drop_last(), name)
    }
}

/// The value of a name: the innermost frame that binds it wins.
pub open spec fn env_lookup(env: Env, name: Seq<char>) -> Option<i32>
    decreases env.len(),
{
    if env.len() == 0 {
        None
    } else {
        match frame_lookup(env.last(), name) {
            Some(v) => Some(v),
            None => env_lookup(env.drop_last(), name),
        }
    }
}

/// The machine operation that an atomic operator denotes.  Logical
/// negation is not among them: it is the one unary operator.
pub open spec fn binop_of(op: AtomBinary) -> BinOp {
    match op {
        AtomBinary::Add => BinOp::Add,
        AtomBinary::Sub => BinOp::Sub,
        AtomBinary::Mul => BinOp::Mul,
        AtomBinary::Div => BinOp::Div,
        AtomBinary::And => BinOp::And,
        AtomBinary::Or => BinOp::Or,
        AtomBinary::Eq => BinOp::Eq,
        AtomBinary::Lt => BinOp::Lt,
        AtomBinary::Not => BinOp::Ne,
    }
}

/// Evaluates one expression in an environment.
pub open spec fn eval(e: ExprV, env: Env) -> EvalOut
    decreases e,
{
    match e {
        ExprV::VariableExpr(s) => match env_lookup(env, s) {
            Some(v) => EvalOut::Val { v, env },
            None => EvalOut::Wrong,
        },
        ExprV::IntegerExpr(i) => EvalOut::Val { v: i, env },
        ExprV::NoneExpr => EvalOut::Val { v: 0, env },
        ExprV::DefineExpr(n, v) => match *n {
            ExprV::VariableExpr(s) => match eval(*v, env) {
                EvalOut::Val { v: val, env: env1 } => if env1.len() == 0 {
                    EvalOut::Wrong
                } else {
                    EvalOut::Val {
                        v: val,
                        env: env1.update(env1.len() - 1, env1.last().push((s, val))),
                    }
                },
                o => o,
            },
            _ => EvalOut::Wrong,
        },
        ExprV::SeqExpr(es) => {
            if es.len() == 0 {
                EvalOut::Val { v: 0, env }
            } else {
                match eval_seq(es, env.push(Seq::empty())) {
                    EvalOut::Val { v, env: env1 } => if env1.len() == 0 {
                        EvalOut::Wrong
                    } else {
                        EvalOut::Val { v, env: env1.drop_last() }
                    },
                    o => o,
                }
            }
        },
        ExprV::IfExpr(p, c, a) => match eval(*p, env) {
            EvalOut::Val { v: pv, env: env1 } => {
                let branch = if pv != 0 {
                    *c
                } else {
                    *a
                };
                match eval(branch, env1.push(Seq::empty())) {
                    EvalOut::Val { v: bv, env: env2 } => if env2.len() == 0 {
                        EvalOut::Wrong
                    } else {
                        EvalOut::Val { v: bv, env: env2.drop_last() }
                    },
                    o => o,
                }
            },
            o => o,
        },
        ExprV::AtomBinExpr(op, l, r) => {
            if op is Not {
                EvalOut::Wrong
            } else {
                match eval(*l, env) {
                    EvalOut::Val { v: lv, env: env1 } => match eval(*r, env1) {
                        EvalOut::Val { v: rv, env: env2 } => match bin_eval(binop_of(op), lv, rv) {
                            Some(v) => EvalOut::Val { v, env: env2 },
                            None => EvalOut::DivFault,
                        },
                        o => o,
                    },
                    o => o,
                }
            }
        },
        ExprV::AtomUnExpr(e1) => match eval(*e1, env) {
            EvalOut::Val { v, env: env1 } => EvalOut::Val {
                v: if v == 0 {
                    1
                } else {
                    0
                },
                env: env1,
            },
            o => o,
        },
        _ => EvalOut::Wrong,
    }
}

/// Evaluates expressions left to right, threading the environment;
/// the value is the last one's.
pub open spec fn eval_seq(es: Seq<ExprV>, env: Env) -> EvalOut
    decreases es,
{
    if es.len() == 0 {
        EvalOut::Val { v: 0, env }
    } else {
        match eval(es[0], env) {
            EvalOut::Val { v, env: env1 } => if es.len() == 1 {
                EvalOut::Val { v, env: env1 }
            } else {
                eval_seq(es.drop_first(), env1)
            },
            o => o,
        }
    }
}

/// Evaluation never touches a frame below the current one: every
/// outer frame comes through unchanged, and the current frame only
/// gains bindings at its end.
pub proof fn lemma_eval_frames(e: ExprV, env: Env)
    ensures
        eval(e, env) matches EvalOut::Val { env: env1, .. } ==> {
            &&& env1.len() == env.len()
            &&& forall|i: int| 0 <= i < env.len() - 1 ==> env1[i] == #[trigger] env[i]
            &&& env.len() > 0 ==> env1.last().len() >= env.last().len() && env1.last().subrange(
                0,
                env.last().len() as int,
            ) == env.last()
        },
    decreases e,
{
    broadcast use vstd::seq_lib::group_seq_properties;

    match e {
        ExprV::DefineExpr(n, v) => {
            lemma_eval_frames(*v, env);
            match *n {
                ExprV::VariableExpr(s) => {
                    match eval(*v, env) {
                        EvalOut::Val { v: val, env: env1 } => {
                            if env1.len() > 0 && env.len() > 0 {
                                let env2 = env1.update(
                                    env1.len() - 1,
                                    env1.last().push((s, val)),
                                );
                                assert(env2.last() == env1.last().push((s, val)));
                                assert(env2.last().subrange(0, env.last().len() as int)
                                    =~= env.last());
                            }
                        },
                        _ => {},
                    }
                },
                _ => {},
            }
        },
        ExprV::SeqExpr(es) => {
            if es.len() > 0 {
                lemma_eval_seq_frames(es, env.push(Seq::empty()));
                match eval_seq(es, env.push(Seq::empty())) {
                    EvalOut::Val { env: env1, .. } => {
                        if env1.len() > 0 {
                            assert forall|i: int| 0 <= i < env.len() implies env1.drop_last()[i]
                                == #[trigger] env[i] by {
                                assert(env.push(Seq::empty())[i] == env[i]);
                            }
                            assert(env1.drop_last() =~= env);
                            if env.len() > 0 {
                                assert(env1.drop_last().last().subrange(
                                    0,
                                    env.last().len() as int,
                                ) =~= env.last());
                            }
                        }
                    },
                    _ => {},
                }
            }
        },
        ExprV::IfExpr(p, c, a) => {
            lemma_eval_frames(*p, env);
            match eval(*p, env) {
                EvalOut::Val { v: pv, env: env1 } => {
                    let branch = if pv != 0 {
                        *c
                    } else {
                        *a
                    };
                    lemma_eval_frames(branch, env1.push(Seq::empty()));
                    match eval(branch, env1.push(Seq::empty())) {
                        EvalOut::Val { env: env2, .. } => {
                            if env2.len() > 0 {
                                // dropping the scratch frame gives back
                                // exactly what the predicate left
                                assert forall|i: int|
                                    0 <= i < env1.len() implies env2.drop_last()[i]
                                    == #[trigger] env1[i] by {
                                    assert(env2[i] == env1.push(Seq::empty())[i]);
                                    assert(env1.push(Seq::empty())[i] == env1[i]);
                                }
                                assert(env2.drop_last() =~= env1);
                            }
                        },
                        _ => {},
                    }
                },
                _ => {},
            }
        },
        ExprV::AtomBinExpr(op, l, r) => {
            lemma_eval_frames(*l, env);
            match eval(*l, env) {
                EvalOut::Val { env: env1, .. } => {
                    lemma_eval_frames(*r, env1);
                    match eval(*r, env1) {
                        EvalOut::Val { env: env2, .. } => {
                            if env.len() > 0 {
                                assert(env2.last().subrange(0, env.last().len() as int)
                                    =~= env.last()) by {
                                    assert forall|k: int|
                                        0 <= k < env.last().len() implies env2.last()[k]
                                        == env.last()[k] by {
                                        assert(env1.last()[k] == env1.last().subrange(
                                            0,
                                            env1.last().len() as int,
                                        )[k]);
                                        assert(env1.last()[k] == env.last().subrange(
                                            0,
                                            env.last().len() as int,
                                        )[k]);
                                        assert(env2.last()[k] == env1.last().subrange(
                                            0,
                                            env1.last().len() as int,
                                        )[k]);
                                    }
                                }
                            }
                        },
                        _ => {},
                    }
                },
                _ => {},
            }
        },
        ExprV::AtomUnExpr(e1) => {
            lemma_eval_frames(*e1, env);
        },
        _ => {},
    }
}

/// As `lemma_eval_frames`, for expression lists.
pub proof fn lemma_eval_seq_frames(es: Seq<ExprV>, env: Env)
    ensures
        eval_seq(es, env) matches EvalOut::Val { env: env1, .. } ==> {
            &&& env1.len() == env.len()
            &&& forall|i: int| 0 <= i < env.len() - 1 ==> env1[i] == #[trigger] env[i]
            &&& env.len() > 0 ==> env1.last().len() >= env.last().len() && env1.last().subrange(
                0,
                env.last().len() as int,
            ) == env.last()
        },
    decreases es,
{
    broadcast use vstd::seq_lib::group_seq_properties;

    if es.len() > 0 {
        lemma_eval_frames(es[0], env);
        match eval(es[0], env) {
            EvalOut::Val { env: env1, .. } => {
                if es.len() > 1 {
                    lemma_eval_seq_frames(es.drop_first(), env1);
                    match eval_seq(es.drop_first(), env1) {
                        EvalOut::Val { env: env2, .. } => {
                            if env.len() > 0 {
                                assert(env2.last().subrange(0, env.last().len() as int)
                                    =~= env.last()) by {
                                    assert forall|k: int|
                                        0 <= k < env.last().len() implies env2.last()[k]
                                        == env.last()[k] by {
                                        assert(env1.last()[k] == env1.last().subrange(
                                            0,
                                            env1.last().len() as int,
                                        )[k]);
                                        assert(env1.last()[k] == env.last().subrange(
                                            0,
                                            env.last().len() as int,
                                        )[k]);
                                        assert(env2.last()[k] == env1.last().subrange(
                                            0,
                                            env1.last().len() as int,
                                        )[k]);
                                    }
                                }
                            }
                        },
                        _ => {},
                    }
                }
            },
            _ => {},
        }
    }
}

} // verus!
