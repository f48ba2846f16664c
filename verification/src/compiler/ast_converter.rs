//! The code generator: it lowers syntax tree nodes into basic-block
//! instructions through the emitter, resolving names through the
//! scope chain.
//!
//! Generating a conditional builds three fresh blocks: the two
//! branches, each closed by a jump to the merge block, and the merge
//! block itself, whose join takes the consequent's value when control
//! arrived through the then-branch's exit and the alternate's value
//! when it arrived through the else-branch's exit.  Both branches are
//! emitted whatever the predicate, but the join resolves by the edge
//! actually taken at run time.

use vstd::prelude::*;
use crate::compiler::emitter::{
    em_alloc, em_bin, em_const, em_load, em_new_block, em_new_block_phi, em_not, em_position,
    em_set_term, em_store, Emitter, EmitterV,
};
use crate::compiler::ir::{BinOp, Terminator};
use crate::compiler::scope::{arena_wf, sp_lookup, ScopeArena, ScopeV};
use crate::errors::{CompileError, CompileErrorV};
use crate::parser::node_types::{expr_view, exprs_view, ExprV, ExpressionAST};
use crate::semantics::eval::binop_of;

verus! {

/// What generating one node yields: the value holding the node's
/// result or the error that aborted the compile, with the emitter
/// and the scope arena as the node left them.
#[verifier::ext_equal]
pub struct GenOut {
    pub res: Result<int, CompileErrorV>,
    pub em: EmitterV,
    pub ar: Seq<ScopeV>,
}

/// A name bound in one scope of the arena.
pub open spec fn ar_bind(ar: Seq<ScopeV>, sid: int, name: Seq<char>, slot: int) -> Seq<ScopeV> {
    ar.update(
        sid,
        ScopeV { parent: ar[sid].parent, bindings: ar[sid].bindings.push((name, slot)) },
    )
}

/// A fresh child scope of `sid`.
pub open spec fn ar_child(ar: Seq<ScopeV>, sid: int) -> Seq<ScopeV> {
    ar.push(ScopeV { parent: Some(sid), bindings: Seq::empty() })
}

/// What the code generator does with one node, as a mathematical
/// function of the node, the emitter, the arena and the current
/// scope.
pub open spec fn sp_generate(e: ExprV, em: EmitterV, ar: Seq<ScopeV>, sid: int) -> GenOut
    decreases e,
{
    match e {
        ExprV::VariableExpr(s) => match sp_lookup(ar, sid, s) {
            Some(slot) => GenOut { res: Ok(em.n_values), em: em_load(em, slot), ar },
            None => GenOut { res: Err(CompileErrorV::UnboundVariable(s)), em, ar },
        },
        ExprV::IntegerExpr(i) => GenOut { res: Ok(em.n_values), em: em_const(em, i), ar },
        ExprV::NoneExpr => GenOut { res: Ok(em.n_values), em: em_const(em, 0), ar },
        ExprV::DefineExpr(n, v) => match *n {
            ExprV::VariableExpr(s) => {
                let g = sp_generate(*v, em, ar, sid);
                match g.res {
                    Ok(val) => {
                        let slot = g.em.slot_names.len() as int;
                        let em1 = em_alloc(g.em, s);
                        let em2 = em_store(em1, slot, val);
                        GenOut { res: Ok(val), em: em2, ar: ar_bind(g.ar, sid, s, slot) }
                    },
                    Err(_) => g,
                }
            },
            _ => GenOut { res: Err(CompileErrorV::MalformedForm), em, ar },
        },
        ExprV::SeqExpr(es) => {
            if es.len() == 0 {
                GenOut { res: Ok(em.n_values), em: em_const(em, 0), ar }
            } else {
                sp_gen_seq(es, em, ar_child(ar, sid), ar.len() as int)
            }
        },
        ExprV::IfExpr(p, c, a) => {
            let gp = sp_generate(*p, em, ar, sid);
            match gp.res {
                Ok(pv) => {
                    // compare the predicate against zero
                    let c0 = gp.em.n_values;
                    let em1 = em_const(gp.em, 0);
                    let cmp = em1.n_values;
                    let em2 = em_bin(em1, BinOp::Ne, pv, c0);
                    let tb = em2.blocks.len() as int;
                    let em3 = em_new_block(em2);
                    let eb = em3.blocks.len() as int;
                    let em4 = em_new_block(em3);
                    let em5 = em_set_term(
                        em4,
                        em4.cur,
                        Terminator::Branch {
                            cond: cmp as usize,
                            then_target: tb as usize,
                            else_target: eb as usize,
                        },
                    );
                    let em6 = em_position(em5, tb);
                    let gc = sp_generate(*c, em6, ar_child(gp.ar, sid), gp.ar.len() as int);
                    match gc.res {
                        Ok(cv) => {
                            let t_exit = gc.em.cur;
                            let em7 = em_position(gc.em, eb);
                            let ga = sp_generate(
                                *a,
                                em7,
                                ar_child(gc.ar, sid),
                                gc.ar.len() as int,
                            );
                            match ga.res {
                                Ok(av) => {
                                    let e_exit = ga.em.cur;
                                    let mb = ga.em.blocks.len() as int;
                                    let join = ga.em.n_values;
                                    let em8 = em_new_block_phi(ga.em, t_exit, cv, e_exit, av);
                                    let em9 = em_set_term(
                                        em8,
                                        t_exit,
                                        Terminator::Jump { target: mb as usize },
                                    );
                                    let em10 = em_set_term(
                                        em9,
                                        e_exit,
                                        Terminator::Jump { target: mb as usize },
                                    );
                                    GenOut {
                                        res: Ok(join),
                                        em: em_position(em10, mb),
                                        ar: ga.ar,
                                    }
                                },
                                Err(_) => ga,
                            }
                        },
                        Err(_) => gc,
                    }
                },
                Err(_) => gp,
            }
        },
        ExprV::AtomBinExpr(op, l, r) => {
            if op is Not {
                GenOut { res: Err(CompileErrorV::MalformedForm), em, ar }
            } else {
                let gl = sp_generate(*l, em, ar, sid);
                match gl.res {
                    Ok(lv) => {
                        let gr = sp_generate(*r, gl.em, gl.ar, sid);
                        match gr.res {
                            Ok(rv) => GenOut {
                                res: Ok(gr.em.n_values),
                                em: em_bin(gr.em, binop_of(op), lv, rv),
                                ar: gr.ar,
                            },
                            Err(_) => gr,
                        }
                    },
                    Err(_) => gl,
                }
            }
        },
        ExprV::AtomUnExpr(e1) => {
            let g = sp_generate(*e1, em, ar, sid);
            match g.res {
                Ok(v) => GenOut { res: Ok(g.em.n_values), em: em_not(g.em, v), ar: g.ar },
                Err(_) => g,
            }
        },
        _ => GenOut { res: Err(CompileErrorV::UnsupportedConstruct), em, ar },
    }
}

/// Generates expressions left to right; the result is the last one's
/// value.
pub open spec fn sp_gen_seq(es: Seq<ExprV>, em: EmitterV, ar: Seq<ScopeV>, sid: int) -> GenOut
    decreases es,
{
    if es.len() == 0 {
        GenOut { res: Err(CompileErrorV::MalformedForm), em, ar }
    } else {
        let g = sp_generate(es[0], em, ar, sid);
        match g.res {
            Ok(_) => if es.len() == 1 {
                g
            } else {
                sp_gen_seq(es.drop_first(), g.em, g.ar, sid)
            },
            Err(_) => g,
        }
    }
}

impl ExpressionAST {
    /// Lowers this node into instructions, resolving and binding
    /// names in scope `sid`; yields the value holding the node's
    /// result.  The emitter and the arena end exactly as the
    /// mathematical account of code generation says.
    #[verifier::rlimit(100)]
    pub fn codegen(&self, em: &mut Emitter, scopes: &mut ScopeArena, sid: usize) -> (r: Result<
        usize,
        CompileError,
    >)
        requires
            sid < old(scopes)@.len(),
            arena_wf(old(scopes)@),
            old(em)@.cur < old(em)@.blocks.len(),
        ensures
            ({
                let g = sp_generate(expr_view(*self), old(em)@, old(scopes)@, sid as int);
                &&& final(em)@ == g.em
                &&& final(scopes)@ == g.ar
                &&& match r {
                    Ok(v) => g.res == Ok::<int, CompileErrorV>(v as int),
                    Err(e) => g.res == Err::<int, CompileErrorV>(e@),
                }
            }),
            final(em)@.cur < final(em)@.blocks.len(),
            old(em)@.blocks.len() <= final(em)@.blocks.len(),
            old(em)@.n_values <= final(em)@.n_values,
            old(scopes)@.len() <= final(scopes)@.len(),
            arena_wf(final(scopes)@),
        decreases *self,
    {
        match self {
            ExpressionAST::VariableExpr(s) => {
                match scopes.get_variable(sid, s) {
                    Some(slot) => {
                        let dst = em.emit_load(slot);
                        Ok(dst)
                    },
                    None => Err(CompileError::UnboundVariable(s.clone())),
                }
            },
            ExpressionAST::IntegerExpr(i) => {
                let dst = em.emit_const(*i);
                Ok(dst)
            },
            ExpressionAST::NoneExpr => {
                let dst = em.emit_const(0);
                Ok(dst)
            },
            ExpressionAST::DefineExpr(n, v) => {
                let name = match &**n {
                    ExpressionAST::VariableExpr(s) => s,
                    _ => {
                        proof {
                            assert(!(expr_view(**n) is VariableExpr));
                        }
                        return Err(CompileError::MalformedForm);
                    },
                };
                proof {
                    assert(expr_view(**n) == ExprV::VariableExpr(name@));
                }
                let val = match (&**v).codegen(em, scopes, sid) {
                    Ok(val) => val,
                    Err(e) => {
                        return Err(e);
                    },
                };
                let slot = em.alloc_slot(name.clone());
                em.emit_store(slot, val);
                scopes.add_variable(sid, name.clone(), slot);
                Ok(val)
            },
            ExpressionAST::SeqExpr(es) => {
                proof {
                    crate::parser::node_types::lemma_exprs_view(es@);
                    assert(expr_view(*self) == ExprV::SeqExpr(exprs_view(es@)));
                }
                if es.len() == 0 {
                    let dst = em.emit_const(0);
                    Ok(dst)
                } else {
                    let ghost vs = exprs_view(es@);
                    proof {
                        crate::parser::node_types::lemma_exprs_view(es@);
                    }
                    let sid2 = scopes.new_scope(Some(sid));
                    let ghost goal = sp_gen_seq(vs, em@, scopes@, sid2 as int);
                    proof {
                        assert(expr_view(*self) == ExprV::SeqExpr(vs));
                        assert(scopes@ =~~= ar_child(old(scopes)@, sid as int));
                        assert(sp_generate(expr_view(*self), old(em)@, old(scopes)@, sid as int)
                            == goal);
                        assert(vs.skip(0) =~= vs);
                    }
                    let mut k: usize = 0;
                    loop
                        invariant
                            *self is SeqExpr,
                            (*self)->SeqExpr_0 == *es,
                            0 <= k < es@.len(),
                            goal == sp_generate(
                                expr_view(*self),
                                old(em)@,
                                old(scopes)@,
                                sid as int,
                            ),
                            old(em)@.blocks.len() <= em@.blocks.len(),
                            old(em)@.n_values <= em@.n_values,
                            old(scopes)@.len() <= scopes@.len(),
                            es@.len() <= usize::MAX,
                            vs == exprs_view(es@),
                            vs.len() == es@.len(),
                            forall|i: int|
                                0 <= i < es@.len() ==> vs[i] == #[trigger] expr_view(es@[i]),
                            sid2 < scopes@.len(),
                            arena_wf(scopes@),
                            em@.cur < em@.blocks.len(),
                            goal == sp_gen_seq(vs.skip(k as int), em@, scopes@, sid2 as int),
                        decreases es@.len() - k,
                    {
                        proof {
                            assert(vs.skip(k as int)[0] == vs[k as int]);
                            assert(decreases_to!(*self => (*self)->SeqExpr_0));
                            assert((*self)->SeqExpr_0 == *es);
                            assert(decreases_to!(*es => es@));
                            assert(decreases_to!(es@ => es@[k as int]));
                        }
                        let v = match es[k].codegen(em, scopes, sid2) {
                            Ok(v) => v,
                            Err(e) => {
                                return Err(e);
                            },
                        };
                        if k + 1 == es.len() {
                            return Ok(v);
                        }
                        proof {
                            assert(vs.skip(k as int).drop_first() =~= vs.skip(k + 1));
                        }
                        k += 1;
                    }
                }
            },
            ExpressionAST::IfExpr(p, c, a) => {
                let pv = match (&**p).codegen(em, scopes, sid) {
                    Ok(v) => v,
                    Err(e) => {
                        return Err(e);
                    },
                };
                // compare the predicate against zero
                let c0 = em.emit_const(0);
                let cmp = em.emit_bin(BinOp::Ne, pv, c0);
                let tb = em.new_block();
                let eb = em.new_block();
                em.set_term(
                    em.cur,
                    Terminator::Branch { cond: cmp, then_target: tb, else_target: eb },
                );
                em.position_at(tb);
                let sid_t = scopes.new_scope(Some(sid));
                let cv = match (&**c).codegen(em, scopes, sid_t) {
                    Ok(v) => v,
                    Err(e) => {
                        return Err(e);
                    },
                };
                let t_exit = em.cur;
                em.position_at(eb);
                let sid_e = scopes.new_scope(Some(sid));
                let av = match (&**a).codegen(em, scopes, sid_e) {
                    Ok(v) => v,
                    Err(e) => {
                        return Err(e);
                    },
                };
                let e_exit = em.cur;
                let (mb, join) = em.new_block_phi(t_exit, cv, e_exit, av);
                em.set_term(t_exit, Terminator::Jump { target: mb });
                em.set_term(e_exit, Terminator::Jump { target: mb });
                em.position_at(mb);
                Ok(join)
            },
            ExpressionAST::AtomBinExpr(op, l, r) => {
                if let crate::parser::token_types::AtomBinary::Not = op {
                    return Err(CompileError::MalformedForm);
                }
                let lv = match (&**l).codegen(em, scopes, sid) {
                    Ok(v) => v,
                    Err(e) => {
                        return Err(e);
                    },
                };
                let rv = match (&**r).codegen(em, scopes, sid) {
                    Ok(v) => v,
                    Err(e) => {
                        return Err(e);
                    },
                };
                let dst = em.emit_bin(binop_exec(op), lv, rv);
                Ok(dst)
            },
            ExpressionAST::AtomUnExpr(e1) => {
                let v = match (&**e1).codegen(em, scopes, sid) {
                    Ok(v) => v,
                    Err(e) => {
                        return Err(e);
                    },
                };
                let dst = em.emit_not(v);
                Ok(dst)
            },
            ExpressionAST::PairExpr(..) => {
                proof {
                    assert(expr_view(*self) is PairExpr);
                }
                Err(CompileError::UnsupportedConstruct)
            },
            ExpressionAST::FunctionExpr(..) => {
                proof {
                    assert(expr_view(*self) is FunctionExpr);
                }
                Err(CompileError::UnsupportedConstruct)
            },
            ExpressionAST::CallExpr(..) => {
                proof {
                    assert(expr_view(*self) is CallExpr);
                }
                Err(CompileError::UnsupportedConstruct)
            },
            ExpressionAST::MatchExpr(..) => {
                proof {
                    assert(expr_view(*self) is MatchExpr);
                }
                Err(CompileError::UnsupportedConstruct)
            },
            ExpressionAST::MatchArmExpr(..) => {
                proof {
                    assert(expr_view(*self) is MatchArmExpr);
                }
                Err(CompileError::UnsupportedConstruct)
            },
        }
    }
}

/// The machine operation of an atomic operator, for the emitter.
fn binop_exec(op: &crate::parser::token_types::AtomBinary) -> (r: BinOp)
    ensures
        r == binop_of(*op),
{
    match op {
        crate::parser::token_types::AtomBinary::Add => BinOp::Add,
        crate::parser::token_types::AtomBinary::Sub => BinOp::Sub,
        crate::parser::token_types::AtomBinary::Mul => BinOp::Mul,
        crate::parser::token_types::AtomBinary::Div => BinOp::Div,
        crate::parser::token_types::AtomBinary::And => BinOp::And,
        crate::parser::token_types::AtomBinary::Or => BinOp::Or,
        crate::parser::token_types::AtomBinary::Eq => BinOp::Eq,
        crate::parser::token_types::AtomBinary::Lt => BinOp::Lt,
        crate::parser::token_types::AtomBinary::Not => BinOp::Ne,
    }
}

} // verus!
