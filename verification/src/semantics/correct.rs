//! The central correctness argument: running the basic-block code
//! that the generator emits yields exactly the value that the
//! language's evaluator gives the source tree — the branch taken at
//! a conditional's join is decided by the run-time control-flow
//! edge, never by which branch happened to be emitted last.

use vstd::prelude::*;
use crate::compiler::ast_converter::{ar_bind, ar_child, sp_gen_seq, sp_generate, GenOut};
use crate::compiler::emitter::EmitterV;
use crate::compiler::ir::BlockV;
use crate::compiler::scope::{arena_wf, ScopeV};
use crate::parser::node_types::ExprV;

verus! {

/// How many nodes a tree has; emission per node is bounded by a
/// small multiple of it.
pub open spec fn size_of(e: ExprV) -> nat
    decreases e,
{
    match e {
        ExprV::PairExpr(h, t) => 1 + size_of(*h) + size_of(*t),
        ExprV::FunctionExpr(ps, b) => 1 + sizes_of(ps) + size_of(*b),
        ExprV::DefineExpr(n, v) => 1 + size_of(*n) + size_of(*v),
        ExprV::CallExpr(f, args) => 1 + size_of(*f) + sizes_of(args),
        ExprV::IfExpr(p, c, a) => 1 + size_of(*p) + size_of(*c) + size_of(*a),
        ExprV::MatchExpr(s, arms) => 1 + size_of(*s) + sizes_of(arms),
        ExprV::MatchArmExpr(ps, b) => 1 + sizes_of(ps) + size_of(*b),
        ExprV::SeqExpr(es) => 1 + sizes_of(es),
        ExprV::AtomBinExpr(_, l, r) => 1 + size_of(*l) + size_of(*r),
        ExprV::AtomUnExpr(e1) => 1 + size_of(*e1),
        _ => 1,
    }
}

/// The total size of a list of trees.
pub open spec fn sizes_of(es: Seq<ExprV>) -> nat
    decreases es,
{
    if es.len() == 0 {
        0
    } else {
        size_of(es[0]) + sizes_of(es.drop_first())
    }
}

/// A block of the finished program holds at least what the emitter
/// held: the same joins, the same instructions (a closed block
/// exactly, an open one as a prefix), and the same terminator once
/// one was placed.
pub open spec fn block_extends(ib: BlockV, eb: BlockV) -> bool {
    &&& ib.phis == eb.phis
    &&& match eb.term {
        Some(t) => ib.instrs == eb.instrs && ib.term == Some(t),
        None => eb.instrs.len() <= ib.instrs.len() && ib.instrs.subrange(
            0,
            eb.instrs.len() as int,
        ) == eb.instrs,
    }
}

/// The finished program holds everything an intermediate emitter
/// state held.
pub open spec fn em_extends(ir: Seq<BlockV>, em: EmitterV) -> bool {
    &&& em.blocks.len() <= ir.len()
    &&& forall|b: int|
        0 <= b < em.blocks.len() ==> block_extends(#[trigger] ir[b], em.blocks[b])
}

/// Code generation only ever appends: old blocks other than the
/// insertion point are untouched; the insertion point keeps its
/// joins and its instructions as a prefix; counters and the slot
/// table only grow, and the insertion point either stays or moves
/// into fresh blocks.
pub open spec fn em_grows(em0: EmitterV, em1: EmitterV) -> bool {
    &&& em0.blocks.len() <= em1.blocks.len()
    &&& em0.n_values <= em1.n_values
    &&& em0.slot_names.len() <= em1.slot_names.len()
    &&& em1.slot_names.subrange(0, em0.slot_names.len() as int) == em0.slot_names
    &&& forall|b: int|
        0 <= b < em0.blocks.len() && b != em0.cur ==> em1.blocks[b] == #[trigger] em0.blocks[b]
    &&& block_extends(em1.blocks[em0.cur], em0.blocks[em0.cur])
    &&& (em1.cur == em0.cur || em1.cur >= em0.blocks.len())
}

/// Code generation binds names only in the scope it was given and in
/// scopes it creates; the given scope keeps its parent and its old
/// bindings in place.
pub open spec fn ar_grows(ar0: Seq<ScopeV>, ar1: Seq<ScopeV>, sid: int) -> bool {
    &&& ar0.len() <= ar1.len()
    &&& forall|i: int| 0 <= i < ar0.len() && i != sid ==> ar1[i] == #[trigger] ar0[i]
    &&& ar1[sid].parent == ar0[sid].parent
    &&& ar0[sid].bindings.len() <= ar1[sid].bindings.len()
    &&& ar1[sid].bindings.subrange(0, ar0[sid].bindings.len() as int) == ar0[sid].bindings
}

/// Every slot bound anywhere in the arena is a real slot of the
/// frame.
pub open spec fn ar_slots_ok(ar: Seq<ScopeV>, nslots: int) -> bool {
    forall|i: int, j: int|
        0 <= i < ar.len() && 0 <= j < ar[i].bindings.len() ==> 0 <= (#[trigger] ar[i].bindings[j]).1
            < nslots
}

/// The state code generation starts a node in: a valid open
/// insertion point, a valid current scope in a well-formed arena,
/// and room in the machine's index types for what the node emits.
pub open spec fn gen_wf(e: ExprV, em: EmitterV, ar: Seq<ScopeV>, sid: int) -> bool {
    &&& 0 <= em.cur < em.blocks.len()
    &&& em.blocks[em.cur].term is None
    &&& 0 <= em.n_values
    &&& 0 <= sid < ar.len()
    &&& arena_wf(ar)
    &&& ar_slots_ok(ar, em.slot_names.len() as int)
    &&& em.n_values + 3 * size_of(e) <= usize::MAX
    &&& em.blocks.len() + 3 * size_of(e) <= usize::MAX
    &&& em.slot_names.len() + size_of(e) <= usize::MAX
}

/// As `gen_wf`, for a list of nodes.
pub open spec fn gen_seq_wf(es: Seq<ExprV>, em: EmitterV, ar: Seq<ScopeV>, sid: int) -> bool {
    &&& 0 <= em.cur < em.blocks.len()
    &&& em.blocks[em.cur].term is None
    &&& 0 <= em.n_values
    &&& 0 <= sid < ar.len()
    &&& arena_wf(ar)
    &&& ar_slots_ok(ar, em.slot_names.len() as int)
    &&& em.n_values + 3 * sizes_of(es) <= usize::MAX
    &&& em.blocks.len() + 3 * sizes_of(es) <= usize::MAX
    &&& em.slot_names.len() + sizes_of(es) <= usize::MAX
}

/// Everything structural that one node's code generation guarantees.
pub open spec fn frame_post(e: ExprV, em: EmitterV, ar: Seq<ScopeV>, sid: int) -> bool {
    let g = sp_generate(e, em, ar, sid);
    &&& em_grows(em, g.em)
    &&& ar_grows(ar, g.ar, sid)
    &&& arena_wf(g.ar)
    &&& ar_slots_ok(g.ar, g.em.slot_names.len() as int)
    &&& g.em.n_values <= em.n_values + 3 * size_of(e)
    &&& g.em.blocks.len() <= em.blocks.len() + 3 * size_of(e)
    &&& g.em.slot_names.len() <= em.slot_names.len() + size_of(e)
    &&& (g.res is Ok ==> {
        &&& em.n_values <= g.res->Ok_0 < g.em.n_values
        &&& 0 <= g.em.cur < g.em.blocks.len()
        &&& g.em.blocks[g.em.cur].term is None
    })
}

/// As `frame_post`, for a list of nodes.
pub open spec fn frame_seq_post(es: Seq<ExprV>, em: EmitterV, ar: Seq<ScopeV>, sid: int) -> bool {
    let g = sp_gen_seq(es, em, ar, sid);
    &&& em_grows(em, g.em)
    &&& ar_grows(ar, g.ar, sid)
    &&& arena_wf(g.ar)
    &&& ar_slots_ok(g.ar, g.em.slot_names.len() as int)
    &&& g.em.n_values <= em.n_values + 3 * sizes_of(es)
    &&& g.em.blocks.len() <= em.blocks.len() + 3 * sizes_of(es)
    &&& g.em.slot_names.len() <= em.slot_names.len() + sizes_of(es)
    &&& (g.res is Ok ==> {
        &&& em.n_values <= g.res->Ok_0 < g.em.n_values
        &&& 0 <= g.em.cur < g.em.blocks.len()
        &&& g.em.blocks[g.em.cur].term is None
    })
}

/// Open-prefix extension composes.
pub proof fn lemma_block_extends_trans(b2: BlockV, b1: BlockV, b0: BlockV)
    requires
        block_extends(b2, b1),
        block_extends(b1, b0),
    ensures
        block_extends(b2, b0),
{
    match b0.term {
        Some(_) => {},
        None => {
            match b1.term {
                Some(_) => {
                    assert(b2.instrs.subrange(0, b0.instrs.len() as int) =~= b0.instrs);
                },
                None => {
                    assert(b2.instrs.subrange(0, b0.instrs.len() as int) =~= b0.instrs) by {
                        assert forall|k: int| 0 <= k < b0.instrs.len() implies b2.instrs[k]
                            == b0.instrs[k] by {
                            assert(b1.instrs[k] == b1.instrs.subrange(
                                0,
                                b0.instrs.len() as int,
                            )[k]);
                            assert(b2.instrs[k] == b2.instrs.subrange(
                                0,
                                b1.instrs.len() as int,
                            )[k]);
                        }
                    }
                },
            }
        },
    }
}

/// Growing composes.
pub proof fn lemma_em_grows_trans(em0: EmitterV, em1: EmitterV, em2: EmitterV)
    requires
        em_grows(em0, em1),
        em_grows(em1, em2),
        0 <= em0.cur < em0.blocks.len(),
    ensures
        em_grows(em0, em2),
{
    assert(em2.slot_names.subrange(0, em0.slot_names.len() as int) =~= em0.slot_names) by {
        assert forall|k: int| 0 <= k < em0.slot_names.len() implies em2.slot_names[k]
            == em0.slot_names[k] by {
            assert(em1.slot_names[k] == em1.slot_names.subrange(
                0,
                em0.slot_names.len() as int,
            )[k]);
            assert(em2.slot_names[k] == em2.slot_names.subrange(
                0,
                em1.slot_names.len() as int,
            )[k]);
        }
    }
    assert forall|b: int| 0 <= b < em0.blocks.len() && b != em0.cur implies em2.blocks[b]
        == #[trigger] em0.blocks[b] by {
        if em1.cur == em0.cur {
            assert(em1.blocks[b] == em0.blocks[b]);
        } else {
            assert(em1.blocks[b] == em0.blocks[b]);
            assert(b != em1.cur);
        }
    }
    if em1.cur == em0.cur {
        lemma_block_extends_trans(
            em2.blocks[em0.cur],
            em1.blocks[em0.cur],
            em0.blocks[em0.cur],
        );
    } else {
        assert(em1.cur >= em0.blocks.len());
        assert(em2.blocks[em0.cur] == em1.blocks[em0.cur]);
        assert(block_extends(em2.blocks[em0.cur], em0.blocks[em0.cur]));
    }
}

/// Arena growth composes.
pub proof fn lemma_ar_grows_trans(ar0: Seq<ScopeV>, ar1: Seq<ScopeV>, ar2: Seq<ScopeV>, sid: int)
    requires
        ar_grows(ar0, ar1, sid),
        ar_grows(ar1, ar2, sid),
        0 <= sid < ar0.len(),
    ensures
        ar_grows(ar0, ar2, sid),
{
    assert(ar2[sid].bindings.subrange(0, ar0[sid].bindings.len() as int) =~= ar0[sid].bindings)
        by {
        assert forall|k: int| 0 <= k < ar0[sid].bindings.len() implies ar2[sid].bindings[k]
            == ar0[sid].bindings[k] by {
            assert(ar1[sid].bindings[k] == ar1[sid].bindings.subrange(
                0,
                ar0[sid].bindings.len() as int,
            )[k]);
            assert(ar2[sid].bindings[k] == ar2[sid].bindings.subrange(
                0,
                ar1[sid].bindings.len() as int,
            )[k]);
        }
    }
}



} // verus!

verus! {

use crate::compiler::emitter::{
    em_alloc, em_append, em_bin, em_const, em_load, em_new_block, em_new_block_phi, em_not,
    em_position, em_set_term, em_store,
};
use crate::compiler::ir::Instr;
use crate::errors::CompileErrorV;

/// Appending one instruction to the insertion point is growth.
proof fn lemma_grows_emit(em: EmitterV, em1: EmitterV, ins: Instr)
    requires
        0 <= em.cur < em.blocks.len(),
        em.blocks[em.cur].term is None,
        em1.cur == em.cur,
        em1.slot_names == em.slot_names,
        em.n_values <= em1.n_values,
        em1.blocks == em_append(em, ins).blocks,
    ensures
        em_grows(em, em1),
{
    assert(em1.slot_names.subrange(0, em.slot_names.len() as int) =~= em.slot_names);
    assert(em1.blocks[em.cur].instrs.subrange(0, em.blocks[em.cur].instrs.len() as int)
        =~= em.blocks[em.cur].instrs);
}

/// Nothing at all is growth.
proof fn lemma_grows_refl(em: EmitterV)
    requires
        0 <= em.cur < em.blocks.len(),
    ensures
        em_grows(em, em),
{
    assert(em.slot_names.subrange(0, em.slot_names.len() as int) =~= em.slot_names);
    lemma_block_extends_refl(em.blocks[em.cur]);
}

pub proof fn lemma_block_extends_refl(b: BlockV)
    ensures
        block_extends(b, b),
{
    match b.term {
        Some(_) => {},
        None => {
            assert(b.instrs.subrange(0, b.instrs.len() as int) =~= b.instrs);
        },
    }
}

/// Nothing at all is arena growth.
proof fn lemma_ar_grows_refl(ar: Seq<ScopeV>, sid: int)
    requires
        0 <= sid < ar.len(),
    ensures
        ar_grows(ar, ar, sid),
{
    assert(ar[sid].bindings.subrange(0, ar[sid].bindings.len() as int) =~= ar[sid].bindings);
}

/// Binding a name in the current scope is arena growth.
proof fn lemma_ar_grows_bind(ar: Seq<ScopeV>, sid: int, name: Seq<char>, slot: int)
    requires
        0 <= sid < ar.len(),
    ensures
        ar_grows(ar, ar_bind(ar, sid, name, slot), sid),
{
    let ar1 = ar_bind(ar, sid, name, slot);
    assert(ar1[sid].bindings.subrange(0, ar[sid].bindings.len() as int) =~= ar[sid].bindings);
}

/// A fresh child scope is arena growth.
proof fn lemma_ar_grows_child(ar: Seq<ScopeV>, sid: int)
    requires
        0 <= sid < ar.len(),
    ensures
        ar_grows(ar, ar_child(ar, sid), sid),
        arena_wf(ar) ==> arena_wf(ar_child(ar, sid)),
{
    let ar1 = ar_child(ar, sid);
    assert(ar1[sid].bindings.subrange(0, ar[sid].bindings.len() as int) =~= ar[sid].bindings);
    if arena_wf(ar) {
        assert forall|i: int| 0 <= i < ar1.len() implies match #[trigger] ar1[i].parent {
            Some(p) => 0 <= p < i,
            None => true,
        } by {
            if i < ar.len() {
                assert(ar1[i] == ar[i]);
            }
        }
    }
}


/// Growth, then growth from a repositioned insertion point in a
/// fresh block, is growth.
proof fn lemma_grows_through_position(em: EmitterV, em_a: EmitterV, b: int, em_b: EmitterV)
    requires
        em_grows(em, em_a),
        em_grows(em_position(em_a, b), em_b),
        0 <= em.cur < em.blocks.len(),
        0 <= em_a.cur < em_a.blocks.len(),
        b >= em.blocks.len(),
        0 <= b < em_a.blocks.len(),
    ensures
        em_grows(em, em_b),
{
    let em_p = em_position(em_a, b);
    assert forall|x: int| 0 <= x < em.blocks.len() && x != em.cur implies em_b.blocks[x]
        == #[trigger] em.blocks[x] by {
        assert(em_a.blocks[x] == em.blocks[x]);
        assert(x != b);
        assert(em_b.blocks[x] == em_p.blocks[x]);
    }
    assert(em_b.blocks[em.cur] == em_p.blocks[em.cur]);
    assert(em_p.blocks[em.cur] == em_a.blocks[em.cur]);
    assert(block_extends(em_b.blocks[em.cur], em.blocks[em.cur]));
    assert(em_b.slot_names.subrange(0, em.slot_names.len() as int) =~= em.slot_names) by {
        assert forall|k: int| 0 <= k < em.slot_names.len() implies em_b.slot_names[k]
            == em.slot_names[k] by {
            assert(em_a.slot_names[k] == em_a.slot_names.subrange(
                0,
                em.slot_names.len() as int,
            )[k]);
            assert(em_b.slot_names[k] == em_b.slot_names.subrange(
                0,
                em_p.slot_names.len() as int,
            )[k]);
        }
    }
    assert(em_b.cur == b || em_b.cur >= em_a.blocks.len());
}

/// Arena growth, then growth relative to a fresh scope, is arena
/// growth relative to the old scope.
proof fn lemma_ar_grows_outer(
    ar0: Seq<ScopeV>,
    ar1: Seq<ScopeV>,
    ar2: Seq<ScopeV>,
    sid: int,
    sid2: int,
)
    requires
        ar_grows(ar0, ar1, sid),
        ar_grows(ar1, ar2, sid2),
        0 <= sid < ar0.len(),
        sid2 >= ar0.len(),
        0 <= sid2 < ar1.len(),
    ensures
        ar_grows(ar0, ar2, sid),
{
    assert forall|i: int| 0 <= i < ar0.len() && i != sid implies ar2[i] == #[trigger] ar0[i] by {
        assert(i != sid2);
        assert(ar2[i] == ar1[i]);
    }
    assert(ar2[sid] == ar1[sid]);
    assert(ar2[sid].bindings.subrange(0, ar0[sid].bindings.len() as int) == ar0[sid].bindings);
}

/// What one node's code generation does to the emitter and the
/// arena, structurally.
#[verifier::rlimit(100)]
#[verifier::spinoff_prover]
pub proof fn lemma_generate_frame(e: ExprV, em: EmitterV, ar: Seq<ScopeV>, sid: int)
    requires
        gen_wf(e, em, ar, sid),
    ensures
        frame_post(e, em, ar, sid),
    decreases e, 0nat,
{
    let g = sp_generate(e, em, ar, sid);
    match e {
        ExprV::VariableExpr(s) => {
            match crate::compiler::scope::sp_lookup(ar, sid, s) {
                Some(slot) => {
                    lemma_grows_emit(em, em_load(em, slot), Instr::Load {
                        dst: em.n_values as usize,
                        slot: slot as usize,
                    });
                },
                None => {
                    lemma_grows_refl(em);
                },
            }
            lemma_ar_grows_refl(ar, sid);
        },
        ExprV::IntegerExpr(i) => {
            lemma_grows_emit(em, em_const(em, i), Instr::Const {
                dst: em.n_values as usize,
                value: i,
            });
            lemma_ar_grows_refl(ar, sid);
        },
        ExprV::NoneExpr => {
            lemma_grows_emit(em, em_const(em, 0), Instr::Const {
                dst: em.n_values as usize,
                value: 0,
            });
            lemma_ar_grows_refl(ar, sid);
        },
        ExprV::DefineExpr(n, v) => {
            match *n {
                ExprV::VariableExpr(s) => {
                    lemma_generate_frame(*v, em, ar, sid);
                    let gv = sp_generate(*v, em, ar, sid);
                    match gv.res {
                        Ok(val) => {
                            let slot = gv.em.slot_names.len() as int;
                            let em1 = em_alloc(gv.em, s);
                            let em2 = em_store(em1, slot, val);
                            assert(em_grows(gv.em, em1)) by {
                                assert(em1.slot_names.subrange(
                                    0,
                                    gv.em.slot_names.len() as int,
                                ) =~= gv.em.slot_names);
                                lemma_block_extends_refl(gv.em.blocks[gv.em.cur]);
                            }
                            lemma_grows_emit(em1, em2, Instr::Store {
                                slot: slot as usize,
                                src: val as usize,
                            });
                            lemma_em_grows_trans(em, gv.em, em1);
                            lemma_em_grows_trans(em, em1, em2);
                            lemma_ar_grows_bind(gv.ar, sid, s, slot);
                            lemma_ar_grows_trans(ar, gv.ar, ar_bind(gv.ar, sid, s, slot), sid);
                            assert(arena_wf(g.ar)) by {
                                assert forall|i: int|
                                    0 <= i < g.ar.len() implies match #[trigger] g.ar[i].parent {
                                    Some(p) => 0 <= p < i,
                                    None => true,
                                } by {
                                    assert(g.ar[i].parent == gv.ar[i].parent);
                                }
                            }
                            assert(ar_slots_ok(g.ar, g.em.slot_names.len() as int)) by {
                                assert forall|i: int, j: int|
                                    0 <= i < g.ar.len() && 0 <= j
                                        < g.ar[i].bindings.len() implies 0 <= (
                                    #[trigger] g.ar[i].bindings[j]).1 < g.em.slot_names.len() by {
                                    if i == sid && j == g.ar[i].bindings.len() - 1 {
                                        assert(g.ar[i].bindings[j] == (s, slot));
                                    } else {
                                        assert(g.ar[i].bindings[j] == gv.ar[i].bindings[j]);
                                    }
                                }
                            }
                        },
                        Err(_) => {},
                    }
                },
                _ => {
                    lemma_grows_refl(em);
                    lemma_ar_grows_refl(ar, sid);
                },
            }
        },
        ExprV::SeqExpr(es) => {
            if es.len() == 0 {
                lemma_grows_emit(em, em_const(em, 0), Instr::Const {
                    dst: em.n_values as usize,
                    value: 0,
                });
                lemma_ar_grows_refl(ar, sid);
            } else {
                let ar1 = ar_child(ar, sid);
                let sid2 = ar.len() as int;
                lemma_ar_grows_child(ar, sid);
                assert(ar_slots_ok(ar1, em.slot_names.len() as int)) by {
                    assert forall|i: int, j: int|
                        0 <= i < ar1.len() && 0 <= j < ar1[i].bindings.len() implies 0 <= (
                    #[trigger] ar1[i].bindings[j]).1 < em.slot_names.len() by {
                        assert(ar1[i] == ar[i]);
                    }
                }
                lemma_gen_seq_frame(es, em, ar1, sid2);
                let gs = sp_gen_seq(es, em, ar1, sid2);
                // growth relative to the original scope: the child and
                // everything after it are fresh
                assert(ar_grows(ar, g.ar, sid)) by {
                    assert forall|i: int| 0 <= i < ar.len() && i != sid implies g.ar[i]
                        == #[trigger] ar[i] by {
                        assert(i != sid2);
                        assert(g.ar[i] == ar1[i]);
                    }
                    assert(g.ar[sid] == ar1[sid]);
                    assert(ar1[sid] == ar[sid]);
                    assert(g.ar[sid].bindings.subrange(0, ar[sid].bindings.len() as int)
                        =~= ar[sid].bindings);
                }
            }
        },
        ExprV::IfExpr(p, c, a) => {
            lemma_generate_frame(*p, em, ar, sid);
            let gp = sp_generate(*p, em, ar, sid);
            match gp.res {
                Ok(pv) => {
                    let c0 = gp.em.n_values;
                    let em1 = em_const(gp.em, 0);
                    let cmp = em1.n_values;
                    let em2 = em_bin(em1, crate::compiler::ir::BinOp::Ne, pv, c0);
                    let tb = em2.blocks.len() as int;
                    let em3 = em_new_block(em2);
                    let eb = em3.blocks.len() as int;
                    let em4 = em_new_block(em3);
                    let em5 = em_set_term(
                        em4,
                        em4.cur,
                        crate::compiler::ir::Terminator::Branch {
                            cond: cmp as usize,
                            then_target: tb as usize,
                            else_target: eb as usize,
                        },
                    );
                    let em6 = em_position(em5, tb);
                    lemma_grows_emit(gp.em, em1, Instr::Const {
                        dst: gp.em.n_values as usize,
                        value: 0,
                    });
                    lemma_grows_emit(em1, em2, Instr::Bin {
                        dst: em1.n_values as usize,
                        op: crate::compiler::ir::BinOp::Ne,
                        lhs: pv as usize,
                        rhs: c0 as usize,
                    });
                    lemma_em_grows_trans(em, gp.em, em1);
                    lemma_em_grows_trans(em, em1, em2);
                    // the two fresh blocks and the branch terminator
                    assert(em_grows(em2, em5)) by {
                        assert(em5.slot_names.subrange(0, em2.slot_names.len() as int)
                            =~= em2.slot_names);
                        assert(em5.blocks[em2.cur].instrs.subrange(
                            0,
                            em2.blocks[em2.cur].instrs.len() as int,
                        ) =~= em2.blocks[em2.cur].instrs);
                    }
                    lemma_em_grows_trans(em, em2, em5);
                    let art = ar_child(gp.ar, sid);
                    let sid_t = gp.ar.len() as int;
                    lemma_ar_grows_child(gp.ar, sid);
                    lemma_ar_grows_trans(ar, gp.ar, art, sid);
                    assert(ar_slots_ok(art, em6.slot_names.len() as int)) by {
                        assert forall|i: int, j: int|
                            0 <= i < art.len() && 0 <= j < art[i].bindings.len() implies 0 <= (
                        #[trigger] art[i].bindings[j]).1 < em6.slot_names.len() by {
                            assert(art[i] == gp.ar[i]);
                        }
                    }
                    lemma_generate_frame(*c, em6, art, sid_t);
                    let gc = sp_generate(*c, em6, art, sid_t);
                    assert(em_grows(em, gc.em)) by {
                        lemma_grows_through_position(em, em5, tb, gc.em);
                    }
                    assert(ar_grows(ar, gc.ar, sid)) by {
                        lemma_ar_grows_outer(ar, art, gc.ar, sid, sid_t);
                    }
                    match gc.res {
                        Ok(cv) => {
                            let t_exit = gc.em.cur;
                            let em7 = em_position(gc.em, eb);
                            let are = ar_child(gc.ar, sid);
                            let sid_e = gc.ar.len() as int;
                            lemma_ar_grows_child(gc.ar, sid);
                            lemma_ar_grows_trans(ar, gc.ar, are, sid);
                            assert(ar_slots_ok(are, em7.slot_names.len() as int)) by {
                                assert forall|i: int, j: int|
                                    0 <= i < are.len() && 0 <= j
                                        < are[i].bindings.len() implies 0 <= (
                                #[trigger] are[i].bindings[j]).1 < em7.slot_names.len() by {
                                    assert(are[i] == gc.ar[i]);
                                }
                            }
                            // the else block is untouched by the then
                            // branch, so it is still open
                            assert(em7.blocks[eb].term is None && em7.blocks[eb].instrs.len()
                                == 0) by {
                                assert(eb < em6.blocks.len());
                                assert(eb != em6.cur);
                                assert(gc.em.blocks[eb] == em6.blocks[eb]);
                            }
                            lemma_generate_frame(*a, em7, are, sid_e);
                            let ga = sp_generate(*a, em7, are, sid_e);
                            assert(em_grows(em, ga.em)) by {
                                lemma_grows_through_position(em, gc.em, eb, ga.em);
                            }
                            assert(ar_grows(ar, ga.ar, sid)) by {
                                lemma_ar_grows_outer(ar, are, ga.ar, sid, sid_e);
                            }
                            match ga.res {
                                Ok(av) => {
                                    let e_exit = ga.em.cur;
                                    let mb = ga.em.blocks.len() as int;
                                    let join = ga.em.n_values;
                                    let em8 = em_new_block_phi(ga.em, t_exit, cv, e_exit, av);
                                    let em9 = em_set_term(
                                        em8,
                                        t_exit,
                                        crate::compiler::ir::Terminator::Jump {
                                            target: mb as usize,
                                        },
                                    );
                                    let em10 = em_set_term(
                                        em9,
                                        e_exit,
                                        crate::compiler::ir::Terminator::Jump {
                                            target: mb as usize,
                                        },
                                    );
                                    // both exits lie beyond the original
                                    // blocks
                                    assert(t_exit >= em.blocks.len()) by {
                                        assert(em6.cur == tb);
                                        assert(tb >= em.blocks.len());
                                        assert(gc.em.cur == em6.cur || gc.em.cur
                                            >= em6.blocks.len());
                                    }
                                    assert(e_exit >= em.blocks.len()) by {
                                        assert(em7.cur == eb);
                                        assert(eb >= em.blocks.len());
                                        assert(ga.em.cur == em7.cur || ga.em.cur
                                            >= em7.blocks.len());
                                    }
                                    // growth of the whole conditional
                                    assert(em_grows(em, g.em)) by {
                                        assert(g.em.slot_names == ga.em.slot_names);
                                        assert(g.em.slot_names.subrange(
                                            0,
                                            em.slot_names.len() as int,
                                        ) == em.slot_names);
                                        assert forall|b: int|
                                            0 <= b < em.blocks.len() && b
                                                != em.cur implies g.em.blocks[b] == #[trigger] em.blocks[b] by {
                                            assert(ga.em.blocks[b] == em.blocks[b]);
                                            assert(b < mb);
                                            assert(em8.blocks[b] == ga.em.blocks[b]);
                                            assert(b != t_exit && b != e_exit);
                                        }
                                        assert(g.em.blocks[em.cur] == ga.em.blocks[em.cur]) by {
                                            assert(em.cur < em.blocks.len());
                                            assert(em.cur != t_exit && em.cur != e_exit);
                                            assert(em.cur < mb);
                                        }
                                        assert(block_extends(
                                            g.em.blocks[em.cur],
                                            em.blocks[em.cur],
                                        ));
                                        assert(g.em.cur == mb >= em.blocks.len());
                                    }
                                },
                                Err(_) => {},
                            }
                        },
                        Err(_) => {},
                    }
                },
                Err(_) => {},
            }
        },
        ExprV::AtomBinExpr(op, l, r) => {
            if op is Not {
                lemma_grows_refl(em);
                lemma_ar_grows_refl(ar, sid);
            } else {
                lemma_generate_frame(*l, em, ar, sid);
                let gl = sp_generate(*l, em, ar, sid);
                match gl.res {
                    Ok(lv) => {
                        lemma_generate_frame(*r, gl.em, gl.ar, sid);
                        let gr = sp_generate(*r, gl.em, gl.ar, sid);
                        match gr.res {
                            Ok(rv) => {
                                lemma_grows_emit(
                                    gr.em,
                                    em_bin(
                                        gr.em,
                                        crate::semantics::eval::binop_of(op),
                                        lv,
                                        rv,
                                    ),
                                    Instr::Bin {
                                        dst: gr.em.n_values as usize,
                                        op: crate::semantics::eval::binop_of(op),
                                        lhs: lv as usize,
                                        rhs: rv as usize,
                                    },
                                );
                                lemma_em_grows_trans(em, gl.em, gr.em);
                                lemma_em_grows_trans(em, gr.em, g.em);
                                lemma_ar_grows_trans(ar, gl.ar, gr.ar, sid);
                            },
                            Err(_) => {
                                lemma_em_grows_trans(em, gl.em, gr.em);
                                lemma_ar_grows_trans(ar, gl.ar, gr.ar, sid);
                            },
                        }
                    },
                    Err(_) => {},
                }
            }
        },
        ExprV::AtomUnExpr(e1) => {
            lemma_generate_frame(*e1, em, ar, sid);
            let g1 = sp_generate(*e1, em, ar, sid);
            match g1.res {
                Ok(v) => {
                    lemma_grows_emit(g1.em, em_not(g1.em, v), Instr::NotOp {
                        dst: g1.em.n_values as usize,
                        src: v as usize,
                    });
                    lemma_em_grows_trans(em, g1.em, g.em);
                },
                Err(_) => {},
            }
        },
        _ => {
            lemma_grows_refl(em);
            lemma_ar_grows_refl(ar, sid);
        },
    }
}

/// As `lemma_generate_frame`, for a list of nodes.
pub proof fn lemma_gen_seq_frame(es: Seq<ExprV>, em: EmitterV, ar: Seq<ScopeV>, sid: int)
    requires
        gen_seq_wf(es, em, ar, sid),
    ensures
        frame_seq_post(es, em, ar, sid),
    decreases es, 1nat,
{
    if es.len() == 0 {
        lemma_grows_refl(em);
        lemma_ar_grows_refl(ar, sid);
    } else {
        assert(gen_wf(es[0], em, ar, sid));
        lemma_generate_frame(es[0], em, ar, sid);
        let g0 = sp_generate(es[0], em, ar, sid);
        match g0.res {
            Ok(_) => {
                if es.len() > 1 {
                    lemma_gen_seq_frame(es.drop_first(), g0.em, g0.ar, sid);
                    let g1 = sp_gen_seq(es.drop_first(), g0.em, g0.ar, sid);
                    lemma_em_grows_trans(em, g0.em, g1.em);
                    lemma_ar_grows_trans(ar, g0.ar, g1.ar, sid);
                }
            },
            Err(_) => {},
        }
    }
}

} // verus!

verus! {

use crate::compiler::scope::{binding_lookup, sp_lookup};
use crate::semantics::eval::{env_lookup, frame_lookup, Env};

/// A later emitter state covers an earlier one: every old block is
/// extended.  Unlike growth this ignores the insertion point, so it
/// survives repositioning.
pub open spec fn em_covers(em1: EmitterV, em0: EmitterV) -> bool {
    &&& em0.blocks.len() <= em1.blocks.len()
    &&& forall|b: int|
        0 <= b < em0.blocks.len() ==> block_extends(#[trigger] em1.blocks[b], em0.blocks[b])
}

/// Growth covers.
pub proof fn lemma_grows_covers(em0: EmitterV, em1: EmitterV)
    requires
        em_grows(em0, em1),
        0 <= em0.cur < em0.blocks.len(),
    ensures
        em_covers(em1, em0),
{
    assert forall|b: int| 0 <= b < em0.blocks.len() implies block_extends(
        #[trigger] em1.blocks[b],
        em0.blocks[b],
    ) by {
        if b != em0.cur {
            lemma_block_extends_refl(em0.blocks[b]);
        }
    }
}

/// Covering composes.
pub proof fn lemma_covers_trans(em2: EmitterV, em1: EmitterV, em0: EmitterV)
    requires
        em_covers(em2, em1),
        em_covers(em1, em0),
    ensures
        em_covers(em2, em0),
{
    assert forall|b: int| 0 <= b < em0.blocks.len() implies block_extends(
        #[trigger] em2.blocks[b],
        em0.blocks[b],
    ) by {
        lemma_block_extends_trans(em2.blocks[b], em1.blocks[b], em0.blocks[b]);
    }
}

/// Whatever extends a covering state extends the covered one.
pub proof fn lemma_extends_covers(ir: Seq<BlockV>, em1: EmitterV, em0: EmitterV)
    requires
        em_extends(ir, em1),
        em_covers(em1, em0),
    ensures
        em_extends(ir, em0),
{
    assert forall|b: int| 0 <= b < em0.blocks.len() implies block_extends(
        #[trigger] ir[b],
        em0.blocks[b],
    ) by {
        lemma_block_extends_trans(ir[b], em1.blocks[b], em0.blocks[b]);
    }
}

/// The frame of values a scope's bindings name in memory.
pub open spec fn abs_frame(bs: Seq<(Seq<char>, int)>, mem: Map<int, i32>) -> Seq<
    (Seq<char>, i32),
> {
    bs.map_values(|b: (Seq<char>, int)| (b.0, mem[b.1]))
}

/// The environment that the scope chain from `sid` and the frame
/// memory together spell out, outermost frame first.
pub open spec fn abs_env(ar: Seq<ScopeV>, sid: int, mem: Map<int, i32>) -> Env
    decreases sid,
{
    if !(0 <= sid < ar.len()) {
        Seq::empty()
    } else {
        let frame = abs_frame(ar[sid].bindings, mem);
        match ar[sid].parent {
            Some(p) => if 0 <= p < sid {
                abs_env(ar, p, mem).push(frame)
            } else {
                seq![frame]
            },
            None => seq![frame],
        }
    }
}

/// Every slot the chain from `sid` binds holds a value.
pub open spec fn chain_defined(ar: Seq<ScopeV>, sid: int, mem: Map<int, i32>) -> bool
    decreases sid,
{
    if !(0 <= sid < ar.len()) {
        true
    } else {
        &&& forall|j: int|
            0 <= j < ar[sid].bindings.len() ==> mem.dom().contains(
                (#[trigger] ar[sid].bindings[j]).1,
            )
        &&& match ar[sid].parent {
            Some(p) => if 0 <= p < sid {
                chain_defined(ar, p, mem)
            } else {
                true
            },
            None => true,
        }
    }
}

/// Two maps are the same below a threshold.
pub open spec fn agree_below(m0: Map<int, i32>, m1: Map<int, i32>, n: int) -> bool {
    &&& forall|i: int| i < n ==> (#[trigger] m1.dom().contains(i) <==> m0.dom().contains(i))
    &&& forall|i: int| i < n && m0.dom().contains(i) ==> #[trigger] m1[i] == m0[i]
}

/// Lookup through one frame matches lookup through its bindings.
proof fn lemma_frame_lookup(bs: Seq<(Seq<char>, int)>, name: Seq<char>, mem: Map<int, i32>)
    ensures
        match binding_lookup(bs, name) {
            Some(slot) => frame_lookup(abs_frame(bs, mem), name) == Some(mem[slot]),
            None => frame_lookup(abs_frame(bs, mem), name) is None,
        },
    decreases bs.len(),
{
    if bs.len() > 0 {
        assert(abs_frame(bs, mem).last() == (bs.last().0, mem[bs.last().1]));
        assert(abs_frame(bs, mem).drop_last() =~= abs_frame(bs.drop_last(), mem));
        lemma_frame_lookup(bs.drop_last(), name, mem);
    } else {
        assert(abs_frame(bs, mem).len() == 0);
    }
}

/// Name resolution through the scope chain matches lookup in the
/// environment the chain spells out, and a resolved slot is a bound,
/// defined slot.
#[verifier::rlimit(100)]
#[verifier::spinoff_prover]
pub proof fn lemma_lookup_abs(
    ar: Seq<ScopeV>,
    sid: int,
    name: Seq<char>,
    mem: Map<int, i32>,
    nslots: int,
)
    requires
        0 <= sid < ar.len(),
        arena_wf(ar),
        ar_slots_ok(ar, nslots),
    ensures
        sp_lookup(ar, sid, name) is Some ==> {
            let slot = sp_lookup(ar, sid, name)->Some_0;
            &&& env_lookup(abs_env(ar, sid, mem), name) == Some(mem[slot])
            &&& 0 <= slot < nslots
            &&& (chain_defined(ar, sid, mem) ==> mem.dom().contains(slot))
        },
        sp_lookup(ar, sid, name) is None ==> env_lookup(abs_env(ar, sid, mem), name) is None,
    decreases sid,
{
    let env = abs_env(ar, sid, mem);
    assert(env.len() >= 1);
    assert(env.last() == abs_frame(ar[sid].bindings, mem));
    lemma_frame_lookup(ar[sid].bindings, name, mem);
    match binding_lookup(ar[sid].bindings, name) {
        Some(slot) => {
            assert(sp_lookup(ar, sid, name) == Some(slot));
            assert(frame_lookup(env.last(), name) == Some(mem[slot]));
            assert(env_lookup(env, name) == Some(mem[slot]));
            lemma_binding_lookup_bound(ar[sid].bindings, name, nslots, mem, sid, ar);
        },
        None => {
            assert(frame_lookup(env.last(), name) is None);
            assert(env_lookup(env, name) == env_lookup(env.drop_last(), name));
            match ar[sid].parent {
                Some(p) => {
                    assert(0 <= p < sid);
                    assert(sp_lookup(ar, sid, name) == sp_lookup(ar, p, name));
                    lemma_lookup_abs(ar, p, name, mem, nslots);
                    assert(env.drop_last() =~= abs_env(ar, p, mem));
                    assert(env_lookup(env.drop_last(), name) == env_lookup(
                        abs_env(ar, p, mem),
                        name,
                    ));
                },
                None => {
                    assert(sp_lookup(ar, sid, name) is None);
                    assert(env.drop_last() =~= Seq::<Seq<(Seq<char>, i32)>>::empty());
                    assert(env_lookup(env.drop_last(), name) is None);
                },
            }
        },
    }
}

/// A binding found in one scope is bound there, so it is a real,
/// defined slot.
proof fn lemma_binding_lookup_bound(
    bs: Seq<(Seq<char>, int)>,
    name: Seq<char>,
    nslots: int,
    mem: Map<int, i32>,
    sid: int,
    ar: Seq<ScopeV>,
)
    requires
        0 <= sid < ar.len(),
        bs == ar[sid].bindings,
        ar_slots_ok(ar, nslots),
        binding_lookup(bs, name) is Some,
    ensures
        0 <= binding_lookup(bs, name)->Some_0 < nslots,
        chain_defined(ar, sid, mem) ==> mem.dom().contains(binding_lookup(bs, name)->Some_0),
{
    lemma_binding_lookup_index(bs, name);
    let j = choose|j: int|
        0 <= j < bs.len() && #[trigger] bs[j] == (name, binding_lookup(bs, name)->Some_0);
    assert(ar[sid].bindings[j].1 == binding_lookup(bs, name)->Some_0);
    if chain_defined(ar, sid, mem) {
        assert(mem.dom().contains(ar[sid].bindings[j].1));
    }
}

/// A found binding really stands somewhere in the list.
proof fn lemma_binding_lookup_index(bs: Seq<(Seq<char>, int)>, name: Seq<char>)
    requires
        binding_lookup(bs, name) is Some,
    ensures
        exists|j: int|
            0 <= j < bs.len() && #[trigger] bs[j] == (name, binding_lookup(bs, name)->Some_0),
    decreases bs.len(),
{
    if bs.len() > 0 {
        if bs.last().0 == name {
            assert(bs[bs.len() - 1] == (name, binding_lookup(bs, name)->Some_0));
        } else {
            lemma_binding_lookup_index(bs.drop_last(), name);
            let j = choose|j: int|
                0 <= j < bs.drop_last().len() && #[trigger] bs.drop_last()[j] == (
                    name,
                    binding_lookup(bs.drop_last(), name)->Some_0,
                );
            assert(bs[j] == bs.drop_last()[j]);
        }
    }
}

/// The chain from `sid` sees only arena entries up to `sid`, so any
/// arena that agrees there spells out the same environment.
pub proof fn lemma_abs_env_agree(
    ar0: Seq<ScopeV>,
    ar1: Seq<ScopeV>,
    sid: int,
    mem: Map<int, i32>,
)
    requires
        0 <= sid < ar0.len(),
        sid < ar1.len(),
        forall|i: int| 0 <= i <= sid ==> ar1[i] == #[trigger] ar0[i],
    ensures
        abs_env(ar1, sid, mem) == abs_env(ar0, sid, mem),
        chain_defined(ar1, sid, mem) == chain_defined(ar0, sid, mem),
    decreases sid,
{
    match ar0[sid].parent {
        Some(p) => {
            if 0 <= p < sid {
                lemma_abs_env_agree(ar0, ar1, p, mem);
            }
        },
        None => {},
    }
}

/// The chain from `sid` reads memory only at its own slots, so any
/// memory that agrees on slots below `nslots` spells out the same
/// environment.
pub proof fn lemma_abs_env_mem(
    ar: Seq<ScopeV>,
    sid: int,
    m0: Map<int, i32>,
    m1: Map<int, i32>,
    nslots: int,
)
    requires
        0 <= sid < ar.len(),
        arena_wf(ar),
        ar_slots_ok(ar, nslots),
        agree_below(m0, m1, nslots),
        chain_defined(ar, sid, m0),
    ensures
        abs_env(ar, sid, m1) == abs_env(ar, sid, m0),
        chain_defined(ar, sid, m1),
    decreases sid,
{
    assert(abs_frame(ar[sid].bindings, m1) =~= abs_frame(ar[sid].bindings, m0)) by {
        assert forall|j: int|
            0 <= j < ar[sid].bindings.len() implies abs_frame(ar[sid].bindings, m1)[j]
            == abs_frame(ar[sid].bindings, m0)[j] by {
            let slot = ar[sid].bindings[j].1;
            assert(m0.dom().contains(slot));
            assert(m1[slot] == m0[slot]);
        }
    }
    match ar[sid].parent {
        Some(p) => {
            if 0 <= p < sid {
                lemma_abs_env_mem(ar, p, m0, m1, nslots);
            }
        },
        None => {},
    }
}

/// A fresh child scope spells out the parent's environment with one
/// empty frame on top.
pub proof fn lemma_abs_env_child(ar: Seq<ScopeV>, sid: int, mem: Map<int, i32>)
    requires
        0 <= sid < ar.len(),
        arena_wf(ar),
    ensures
        abs_env(ar_child(ar, sid), ar.len() as int, mem) == abs_env(ar, sid, mem).push(
            Seq::empty(),
        ),
        chain_defined(ar, sid, mem) ==> chain_defined(ar_child(ar, sid), ar.len() as int, mem),
{
    let ar1 = ar_child(ar, sid);
    let cid = ar.len() as int;
    assert(ar1[cid].parent == Some(sid));
    assert(abs_frame(ar1[cid].bindings, mem) =~= Seq::<(Seq<char>, i32)>::empty());
    lemma_abs_env_agree(ar, ar1, sid, mem);
}

/// Binding a fresh, freshly stored slot extends the innermost frame
/// of the environment the chain spells out.
pub proof fn lemma_abs_env_bind(
    ar: Seq<ScopeV>,
    sid: int,
    name: Seq<char>,
    slot: int,
    x: i32,
    mem: Map<int, i32>,
    nslots: int,
)
    requires
        0 <= sid < ar.len(),
        arena_wf(ar),
        ar_slots_ok(ar, nslots),
        nslots <= slot,
        chain_defined(ar, sid, mem),
    ensures
        ({
            let env = abs_env(ar, sid, mem);
            let ar1 = ar_bind(ar, sid, name, slot);
            let mem1 = mem.insert(slot, x);
            &&& abs_env(ar1, sid, mem1) == env.update(env.len() - 1, env.last().push((name, x)))
            &&& chain_defined(ar1, sid, mem1)
            &&& env.len() >= 1
        }),
{
    let env = abs_env(ar, sid, mem);
    let ar1 = ar_bind(ar, sid, name, slot);
    let mem1 = mem.insert(slot, x);
    assert(agree_below(mem, mem1, nslots));
    // the new innermost frame
    assert(abs_frame(ar1[sid].bindings, mem1) =~= abs_frame(ar[sid].bindings, mem).push(
        (name, x),
    )) by {
        assert forall|j: int|
            0 <= j < ar1[sid].bindings.len() implies abs_frame(ar1[sid].bindings, mem1)[j]
            == abs_frame(ar[sid].bindings, mem).push((name, x))[j] by {
            if j < ar[sid].bindings.len() {
                assert(ar1[sid].bindings[j] == ar[sid].bindings[j]);
                let sl = ar[sid].bindings[j].1;
                assert(0 <= sl < nslots);
                assert(mem1[sl] == mem[sl]);
            } else {
                assert(ar1[sid].bindings[j] == (name, slot));
                assert(mem1[slot] == x);
            }
        }
    }
    // the outer frames
    match ar[sid].parent {
        Some(p) => {
            if 0 <= p < sid {
                lemma_abs_env_agree(ar, ar1, p, mem1);
                lemma_abs_env_mem(ar, p, mem, mem1, nslots);
                assert(abs_env(ar1, p, mem1) == abs_env(ar, p, mem));
            }
        },
        None => {},
    }
    assert(abs_env(ar1, sid, mem1) =~= env.update(env.len() - 1, env.last().push((name, x))));
    // every chain slot is still defined
    assert forall|j: int| 0 <= j < ar1[sid].bindings.len() implies mem1.dom().contains(
        (#[trigger] ar1[sid].bindings[j]).1,
    ) by {
        if j < ar[sid].bindings.len() {
            assert(ar1[sid].bindings[j] == ar[sid].bindings[j]);
        } else {
            assert(ar1[sid].bindings[j] == (name, slot));
        }
    }
    match ar[sid].parent {
        Some(p) => {
            if 0 <= p < sid {
                lemma_abs_env_mem(ar, p, mem, mem1, nslots);
                lemma_chain_defined_agree(ar, ar1, p, mem1);
            }
        },
        None => {},
    }
}

/// As `lemma_abs_env_agree`, for definedness alone.
proof fn lemma_chain_defined_agree(
    ar0: Seq<ScopeV>,
    ar1: Seq<ScopeV>,
    sid: int,
    mem: Map<int, i32>,
)
    requires
        0 <= sid < ar0.len(),
        sid < ar1.len(),
        forall|i: int| 0 <= i <= sid ==> ar1[i] == #[trigger] ar0[i],
    ensures
        chain_defined(ar1, sid, mem) == chain_defined(ar0, sid, mem),
    decreases sid,
{
    match ar0[sid].parent {
        Some(p) => {
            if 0 <= p < sid {
                lemma_chain_defined_agree(ar0, ar1, p, mem);
            }
        },
        None => {},
    }
}

} // verus!

verus! {

use crate::compiler::ir::Terminator;
use crate::semantics::eval::{binop_of, eval, eval_seq, EvalOut};
use crate::semantics::machine::{
    lemma_reaches_refl, lemma_reaches_step, lemma_reaches_trans, reaches, step, MachineState,
};

/// The machine position at an emitter state: its insertion point,
/// right after everything emitted there so far.
pub open spec fn mstate(em: EmitterV, vals: Map<int, i32>, mem: Map<int, i32>) -> MachineState {
    MachineState::Running {
        block: em.cur,
        instr: em.blocks[em.cur].instrs.len() as int,
        vals,
        mem,
    }
}

/// What a successful run of one node's code establishes: the machine
/// walks from the node's entry position to its exit position, the
/// node's value holds what evaluation says, values and memory the
/// caller relies on are untouched, and the scopes still spell out
/// the evaluator's environment.
pub open spec fn run_post(
    g: GenOut,
    em: EmitterV,
    sid: int,
    vals: Map<int, i32>,
    mem: Map<int, i32>,
    ir: Seq<BlockV>,
    rv: i32,
    env1: crate::semantics::eval::Env,
    vals1: Map<int, i32>,
    mem1: Map<int, i32>,
) -> bool {
    &&& reaches(ir, mstate(em, vals, mem), mstate(g.em, vals1, mem1))
    &&& g.res is Ok
    &&& vals1.dom().contains(g.res->Ok_0)
    &&& vals1[g.res->Ok_0] == rv
    &&& agree_below(vals, vals1, em.n_values)
    &&& agree_below(mem, mem1, em.slot_names.len() as int)
    &&& abs_env(g.ar, sid, mem1) == env1
    &&& chain_defined(g.ar, sid, mem1)
}

/// Code generation is faithful to evaluation: when it succeeds, the
/// source does not evaluate to a rejected form; when the source has
/// a value the emitted code computes exactly that value, and when
/// the source faults the emitted code faults.
pub open spec fn gen_correct_post(
    e: ExprV,
    em: EmitterV,
    ar: Seq<ScopeV>,
    sid: int,
    vals: Map<int, i32>,
    mem: Map<int, i32>,
    ir: Seq<BlockV>,
) -> bool {
    let g = sp_generate(e, em, ar, sid);
    let ev = eval(e, abs_env(ar, sid, mem));
    g.res is Ok ==> {
        &&& !(ev is Wrong)
        &&& (ev is Val ==> exists|vals1: Map<int, i32>, mem1: Map<int, i32>|
            run_post(g, em, sid, vals, mem, ir, ev->Val_v, ev->Val_env, vals1, mem1))
        &&& (ev is DivFault ==> reaches(ir, mstate(em, vals, mem), MachineState::Fault))
    }
}

/// As `gen_correct_post`, for a list of nodes.
pub open spec fn gen_seq_correct_post(
    es: Seq<ExprV>,
    em: EmitterV,
    ar: Seq<ScopeV>,
    sid: int,
    vals: Map<int, i32>,
    mem: Map<int, i32>,
    ir: Seq<BlockV>,
) -> bool {
    let g = sp_gen_seq(es, em, ar, sid);
    let ev = eval_seq(es, abs_env(ar, sid, mem));
    g.res is Ok ==> {
        &&& !(ev is Wrong)
        &&& (ev is Val ==> exists|vals1: Map<int, i32>, mem1: Map<int, i32>|
            run_post(g, em, sid, vals, mem, ir, ev->Val_v, ev->Val_env, vals1, mem1))
        &&& (ev is DivFault ==> reaches(ir, mstate(em, vals, mem), MachineState::Fault))
    }
}

/// An instruction of an intermediate emitter state stands in the
/// finished program, at the same place.
proof fn lemma_ir_instr(ir: Seq<BlockV>, emp: EmitterV, b: int, k: int)
    requires
        em_extends(ir, emp),
        0 <= b < emp.blocks.len(),
        0 <= k < emp.blocks[b].instrs.len(),
    ensures
        0 <= b < ir.len(),
        k < ir[b].instrs.len(),
        ir[b].instrs[k] == emp.blocks[b].instrs[k],
{
    assert(block_extends(ir[b], emp.blocks[b]));
    match emp.blocks[b].term {
        Some(_) => {},
        None => {
            assert(ir[b].instrs.subrange(0, emp.blocks[b].instrs.len() as int)[k]
                == emp.blocks[b].instrs[k]);
        },
    }
}

/// A placed terminator stands in the finished program, with the very
/// instructions before it.
proof fn lemma_ir_term(ir: Seq<BlockV>, emp: EmitterV, b: int)
    requires
        em_extends(ir, emp),
        0 <= b < emp.blocks.len(),
        emp.blocks[b].term is Some,
    ensures
        0 <= b < ir.len(),
        ir[b].term == emp.blocks[b].term,
        ir[b].instrs == emp.blocks[b].instrs,
        ir[b].phis == emp.blocks[b].phis,
{
    assert(block_extends(ir[b], emp.blocks[b]));
}

/// A block's joins stand in the finished program.
proof fn lemma_ir_phis(ir: Seq<BlockV>, emp: EmitterV, b: int)
    requires
        em_extends(ir, emp),
        0 <= b < emp.blocks.len(),
    ensures
        0 <= b < ir.len(),
        ir[b].phis == emp.blocks[b].phis,
{
    assert(block_extends(ir[b], emp.blocks[b]));
}

/// Maps agree with themselves.
proof fn lemma_agree_refl(m: Map<int, i32>, n: int)
    ensures
        agree_below(m, m, n),
{
}

/// Agreement composes, down to the smaller threshold.
proof fn lemma_agree_trans(m0: Map<int, i32>, m1: Map<int, i32>, m2: Map<int, i32>, n0: int, n1: int)
    requires
        agree_below(m0, m1, n0),
        agree_below(m1, m2, n1),
        n0 <= n1,
    ensures
        agree_below(m0, m2, n0),
{
}

/// Writing at or above the threshold preserves agreement.
proof fn lemma_agree_insert(m: Map<int, i32>, i: int, x: i32, n: int)
    requires
        n <= i,
    ensures
        agree_below(m, m.insert(i, x), n),
{
}

} // verus!

verus! {

use crate::compiler::ir::BinOp;
use crate::semantics::machine::bin_eval;

/// The central theorem, for one node: code generation is faithful to
/// evaluation.
#[verifier::rlimit(100)]
#[verifier::spinoff_prover]
pub proof fn lemma_generate_correct(
    e: ExprV,
    em: EmitterV,
    ar: Seq<ScopeV>,
    sid: int,
    vals: Map<int, i32>,
    mem: Map<int, i32>,
    ir: Seq<BlockV>,
)
    requires
        gen_wf(e, em, ar, sid),
        chain_defined(ar, sid, mem),
        em_extends(ir, sp_generate(e, em, ar, sid).em),
    ensures
        gen_correct_post(e, em, ar, sid, vals, mem, ir),
    decreases e, 1nat,
{
    let g = sp_generate(e, em, ar, sid);
    let env = abs_env(ar, sid, mem);
    let ev = eval(e, env);
    let s0 = mstate(em, vals, mem);
    let lcur = em.blocks[em.cur].instrs.len() as int;
    lemma_generate_frame(e, em, ar, sid);
    match e {
        ExprV::VariableExpr(s) => {
            lemma_lookup_abs(ar, sid, s, mem, em.slot_names.len() as int);
            match sp_lookup(ar, sid, s) {
                Some(slot) => {
                    let dst = em.n_values;
                    let vals1 = vals.insert(dst, mem[slot]);
                    lemma_ir_instr(ir, g.em, em.cur, lcur);
                    assert(step(ir, s0) == mstate(g.em, vals1, mem));
                    lemma_reaches_step(ir, s0);
                    lemma_agree_insert(vals, dst, mem[slot], em.n_values);
                    lemma_agree_refl(mem, em.slot_names.len() as int);
                    assert(run_post(g, em, sid, vals, mem, ir, mem[slot], env, vals1, mem));
                    assert(run_post(g, em, sid, vals, mem, ir, ev->Val_v, ev->Val_env, vals1, mem));
                },
                None => {},
            }
        },
        ExprV::IntegerExpr(i) => {
            let dst = em.n_values;
            let vals1 = vals.insert(dst, i);
            lemma_ir_instr(ir, g.em, em.cur, lcur);
            assert(step(ir, s0) == mstate(g.em, vals1, mem));
            lemma_reaches_step(ir, s0);
            lemma_agree_insert(vals, dst, i, em.n_values);
            lemma_agree_refl(mem, em.slot_names.len() as int);
            assert(run_post(g, em, sid, vals, mem, ir, i, env, vals1, mem));
            assert(run_post(g, em, sid, vals, mem, ir, ev->Val_v, ev->Val_env, vals1, mem));
        },
        ExprV::NoneExpr => {
            let dst = em.n_values;
            let vals1 = vals.insert(dst, 0);
            lemma_ir_instr(ir, g.em, em.cur, lcur);
            assert(step(ir, s0) == mstate(g.em, vals1, mem));
            lemma_reaches_step(ir, s0);
            lemma_agree_insert(vals, dst, 0, em.n_values);
            lemma_agree_refl(mem, em.slot_names.len() as int);
            assert(run_post(g, em, sid, vals, mem, ir, 0, env, vals1, mem));
            assert(run_post(g, em, sid, vals, mem, ir, ev->Val_v, ev->Val_env, vals1, mem));
        },
        ExprV::DefineExpr(n, v) => {
            match *n {
                ExprV::VariableExpr(s) => {
                    lemma_generate_frame(*v, em, ar, sid);
                    let gv = sp_generate(*v, em, ar, sid);
                    match gv.res {
                        Ok(val) => {
                            let slot = gv.em.slot_names.len() as int;
                            let em1 = em_alloc(gv.em, s);
                            let em2 = em_store(em1, slot, val);
                            assert(em_grows(gv.em, em2)) by {
                                lemma_grows_emit(em1, em2, Instr::Store {
                                    slot: slot as usize,
                                    src: val as usize,
                                });
                                assert(em1.blocks == gv.em.blocks);
                                assert(em2.slot_names.subrange(
                                    0,
                                    gv.em.slot_names.len() as int,
                                ) =~= gv.em.slot_names);
                            }
                            assert(em_extends(ir, gv.em)) by {
                                lemma_grows_covers(gv.em, em2);
                                lemma_extends_covers(ir, em2, gv.em);
                            }
                            lemma_generate_correct(*v, em, ar, sid, vals, mem, ir);
                            let ev_v = eval(*v, env);
                            match ev_v {
                                EvalOut::Val { v: rv, env: env1 } => {
                                    let (vals1, mem1): (Map<int, i32>, Map<int, i32>) = choose|
                                        vals1: Map<int, i32>,
                                        mem1: Map<int, i32>,
                                    |
                                        run_post(
                                            gv,
                                            em,
                                            sid,
                                            vals,
                                            mem,
                                            ir,
                                            rv,
                                            env1,
                                            vals1,
                                            mem1,
                                        );
                                    let s1 = mstate(gv.em, vals1, mem1);
                                    let l1 = gv.em.blocks[gv.em.cur].instrs.len() as int;
                                    let mem2 = mem1.insert(slot, rv);
                                    lemma_ir_instr(ir, g.em, gv.em.cur, l1);
                                    assert(g.em.blocks[gv.em.cur].instrs[l1] == Instr::Store {
                                        slot: slot as usize,
                                        src: val as usize,
                                    });
                                    assert(vals1[val] == rv);
                                    assert(step(ir, s1) == mstate(g.em, vals1, mem2));
                                    lemma_reaches_step(ir, s1);
                                    lemma_reaches_trans(ir, s0, s1, mstate(g.em, vals1, mem2));
                                    lemma_abs_env_bind(
                                        gv.ar,
                                        sid,
                                        s,
                                        slot,
                                        rv,
                                        mem1,
                                        gv.em.slot_names.len() as int,
                                    );
                                    assert(abs_env(gv.ar, sid, mem1) == env1);
                                    assert(env1.len() >= 1);
                                    lemma_agree_insert(
                                        mem1,
                                        slot,
                                        rv,
                                        em.slot_names.len() as int,
                                    );
                                    lemma_agree_trans(
                                        mem,
                                        mem1,
                                        mem2,
                                        em.slot_names.len() as int,
                                        em.slot_names.len() as int,
                                    );
                                    assert(run_post(
                                        g,
                                        em,
                                        sid,
                                        vals,
                                        mem,
                                        ir,
                                        rv,
                                        env1.update(env1.len() - 1, env1.last().push((s, rv))),
                                        vals1,
                                        mem2,
                                    ));
                                    assert(ev->Val_env == env1.update(
                                        env1.len() - 1,
                                        env1.last().push((s, rv)),
                                    ));
                                    assert(run_post(
                                        g,
                                        em,
                                        sid,
                                        vals,
                                        mem,
                                        ir,
                                        ev->Val_v,
                                        ev->Val_env,
                                        vals1,
                                        mem2,
                                    ));
                                },
                                EvalOut::DivFault => {},
                                EvalOut::Wrong => {},
                            }
                        },
                        Err(_) => {},
                    }
                },
                _ => {},
            }
        },
        ExprV::SeqExpr(es) => {
            if es.len() == 0 {
                let dst = em.n_values;
                let vals1 = vals.insert(dst, 0);
                lemma_ir_instr(ir, g.em, em.cur, lcur);
                assert(step(ir, s0) == mstate(g.em, vals1, mem));
                lemma_reaches_step(ir, s0);
                lemma_agree_insert(vals, dst, 0, em.n_values);
                lemma_agree_refl(mem, em.slot_names.len() as int);
                assert(run_post(g, em, sid, vals, mem, ir, 0, env, vals1, mem));
                assert(run_post(g, em, sid, vals, mem, ir, ev->Val_v, ev->Val_env, vals1, mem));
            } else {
                let ar1 = ar_child(ar, sid);
                let sid2 = ar.len() as int;
                lemma_ar_grows_child(ar, sid);
                assert(ar_slots_ok(ar1, em.slot_names.len() as int)) by {
                    assert forall|i: int, j: int|
                        0 <= i < ar1.len() && 0 <= j < ar1[i].bindings.len() implies 0 <= (
                    #[trigger] ar1[i].bindings[j]).1 < em.slot_names.len() by {
                        assert(ar1[i] == ar[i]);
                    }
                }
                lemma_abs_env_child(ar, sid, mem);
                lemma_gen_seq_frame(es, em, ar1, sid2);
                lemma_gen_seq_correct(es, em, ar1, sid2, vals, mem, ir);
                let gs = sp_gen_seq(es, em, ar1, sid2);
                let evs = eval_seq(es, env.push(Seq::empty()));
                if g.res is Ok {
                    match evs {
                        EvalOut::Val { v: rv, env: envn } => {
                            let (vals1, mem1): (Map<int, i32>, Map<int, i32>) = choose|
                                vals1: Map<int, i32>,
                                mem1: Map<int, i32>,
                            | run_post(gs, em, sid2, vals, mem, ir, rv, envn, vals1, mem1);
                            // the child frame sits on top of the
                            // current chain
                            assert(gs.ar[sid2].parent == Some(sid));
                            assert(abs_env(gs.ar, sid2, mem1) == abs_env(gs.ar, sid, mem1).push(
                                abs_frame(gs.ar[sid2].bindings, mem1),
                            ));
                            assert(envn.drop_last() =~= abs_env(gs.ar, sid, mem1));
                            assert(envn.len() >= 1);
                            assert(chain_defined(gs.ar, sid, mem1));
                            assert(run_post(
                                g,
                                em,
                                sid,
                                vals,
                                mem,
                                ir,
                                rv,
                                envn.drop_last(),
                                vals1,
                                mem1,
                            ));
                            assert(eval(e, env) == (EvalOut::Val {
                                v: rv,
                                env: envn.drop_last(),
                            }));
                            assert(run_post(
                                g,
                                em,
                                sid,
                                vals,
                                mem,
                                ir,
                                ev->Val_v,
                                ev->Val_env,
                                vals1,
                                mem1,
                            ));
                        },
                        EvalOut::DivFault => {},
                        EvalOut::Wrong => {},
                    }
                }
            }
        },
        ExprV::IfExpr(p, c, a) => {
            lemma_if_correct(e, *p, *c, *a, em, ar, sid, vals, mem, ir);
        },
        ExprV::AtomBinExpr(op, l, r) => {
            if !(op is Not) {
                lemma_generate_frame(*l, em, ar, sid);
                let gl = sp_generate(*l, em, ar, sid);
                match gl.res {
                    Ok(lv) => {
                        lemma_generate_frame(*r, gl.em, gl.ar, sid);
                        let gr = sp_generate(*r, gl.em, gl.ar, sid);
                        match gr.res {
                            Ok(rvv) => {
                                assert(em_extends(ir, gr.em)) by {
                                    lemma_grows_emit(gr.em, g.em, Instr::Bin {
                                        dst: gr.em.n_values as usize,
                                        op: binop_of(op),
                                        lhs: lv as usize,
                                        rhs: rvv as usize,
                                    });
                                    lemma_grows_covers(gr.em, g.em);
                                    lemma_extends_covers(ir, g.em, gr.em);
                                }
                                assert(em_extends(ir, gl.em)) by {
                                    lemma_grows_covers(gl.em, gr.em);
                                    lemma_extends_covers(ir, gr.em, gl.em);
                                }
                                lemma_generate_correct(*l, em, ar, sid, vals, mem, ir);
                                match eval(*l, env) {
                                    EvalOut::Val { v: rv_l, env: env1 } => {
                                        let (valsa, mema): (Map<int, i32>, Map<int, i32>) =
                                            choose|
                                            valsa: Map<int, i32>,
                                            mema: Map<int, i32>,
                                        | run_post(gl, em, sid, vals, mem, ir, rv_l, env1, valsa, mema);
                                        lemma_generate_correct(
                                            *r,
                                            gl.em,
                                            gl.ar,
                                            sid,
                                            valsa,
                                            mema,
                                            ir,
                                        );
                                        match eval(*r, env1) {
                                            EvalOut::Val { v: rv_r, env: env2 } => {
                                                let (valsb, memb): (
                                                    Map<int, i32>,
                                                    Map<int, i32>,
                                                ) = choose|
                                                    valsb: Map<int, i32>,
                                                    memb: Map<int, i32>,
                                                |
                                                    run_post(
                                                        gr,
                                                        gl.em,
                                                        sid,
                                                        valsa,
                                                        mema,
                                                        ir,
                                                        rv_r,
                                                        env2,
                                                        valsb,
                                                        memb,
                                                    );
                                                let s1 = mstate(gl.em, valsa, mema);
                                                let s2 = mstate(gr.em, valsb, memb);
                                                let l2 = gr.em.blocks[gr.em.cur].instrs.len()
                                                    as int;
                                                lemma_ir_instr(ir, g.em, gr.em.cur, l2);
                                                // the left value survives the
                                                // right operand's code
                                                assert(valsb.dom().contains(lv) && valsb[lv]
                                                    == rv_l);
                                                match bin_eval(binop_of(op), rv_l, rv_r) {
                                                    Some(outv) => {
                                                        let vals2 = valsb.insert(
                                                            gr.em.n_values,
                                                            outv,
                                                        );
                                                        assert(step(ir, s2) == mstate(
                                                            g.em,
                                                            vals2,
                                                            memb,
                                                        ));
                                                        lemma_reaches_step(ir, s2);
                                                        lemma_reaches_trans(
                                                            ir,
                                                            s0,
                                                            s1,
                                                            s2,
                                                        );
                                                        lemma_reaches_trans(
                                                            ir,
                                                            s0,
                                                            s2,
                                                            mstate(g.em, vals2, memb),
                                                        );
                                                        lemma_agree_insert(
                                                            valsb,
                                                            gr.em.n_values,
                                                            outv,
                                                            em.n_values,
                                                        );
                                                        lemma_agree_trans(
                                                            vals,
                                                            valsa,
                                                            valsb,
                                                            em.n_values,
                                                            gl.em.n_values,
                                                        );
                                                        lemma_agree_trans(
                                                            vals,
                                                            valsb,
                                                            vals2,
                                                            em.n_values,
                                                            em.n_values,
                                                        );
                                                        lemma_agree_trans(
                                                            mem,
                                                            mema,
                                                            memb,
                                                            em.slot_names.len() as int,
                                                            gl.em.slot_names.len() as int,
                                                        );
                                                        assert(run_post(
                                                            g,
                                                            em,
                                                            sid,
                                                            vals,
                                                            mem,
                                                            ir,
                                                            outv,
                                                            env2,
                                                            vals2,
                                                            memb,
                                                        ));
                                                        assert(eval(e, env)
                                                            == (EvalOut::Val {
                                                            v: outv,
                                                            env: env2,
                                                        }));
                                                        assert(run_post(
                                                            g,
                                                            em,
                                                            sid,
                                                            vals,
                                                            mem,
                                                            ir,
                                                            ev->Val_v,
                                                            ev->Val_env,
                                                            vals2,
                                                            memb,
                                                        ));
                                                    },
                                                    None => {
                                                        // division by zero
                                                        assert(step(ir, s2)
                                                            == MachineState::Fault);
                                                        lemma_reaches_step(ir, s2);
                                                        lemma_reaches_trans(ir, s0, s1, s2);
                                                        lemma_reaches_trans(
                                                            ir,
                                                            s0,
                                                            s2,
                                                            MachineState::Fault,
                                                        );
                                                    },
                                                }
                                            },
                                            EvalOut::DivFault => {
                                                let s1 = mstate(gl.em, valsa, mema);
                                                lemma_reaches_trans(
                                                    ir,
                                                    s0,
                                                    s1,
                                                    MachineState::Fault,
                                                );
                                            },
                                            EvalOut::Wrong => {},
                                        }
                                    },
                                    EvalOut::DivFault => {},
                                    EvalOut::Wrong => {},
                                }
                            },
                            Err(_) => {},
                        }
                    },
                    Err(_) => {},
                }
            }
        },
        ExprV::AtomUnExpr(e1) => {
            lemma_generate_frame(*e1, em, ar, sid);
            let g1 = sp_generate(*e1, em, ar, sid);
            match g1.res {
                Ok(v) => {
                    assert(em_extends(ir, g1.em)) by {
                        lemma_grows_emit(g1.em, g.em, Instr::NotOp {
                            dst: g1.em.n_values as usize,
                            src: v as usize,
                        });
                        lemma_grows_covers(g1.em, g.em);
                        lemma_extends_covers(ir, g.em, g1.em);
                    }
                    lemma_generate_correct(*e1, em, ar, sid, vals, mem, ir);
                    match eval(*e1, env) {
                        EvalOut::Val { v: rv1, env: env1 } => {
                            let (valsa, mema): (Map<int, i32>, Map<int, i32>) = choose|
                                valsa: Map<int, i32>,
                                mema: Map<int, i32>,
                            | run_post(g1, em, sid, vals, mem, ir, rv1, env1, valsa, mema);
                            let s1 = mstate(g1.em, valsa, mema);
                            let l1 = g1.em.blocks[g1.em.cur].instrs.len() as int;
                            lemma_ir_instr(ir, g.em, g1.em.cur, l1);
                            let outv: i32 = if rv1 == 0 {
                                1
                            } else {
                                0
                            };
                            let vals2 = valsa.insert(g1.em.n_values, outv);
                            assert(step(ir, s1) == mstate(g.em, vals2, mema));
                            lemma_reaches_step(ir, s1);
                            lemma_reaches_trans(ir, s0, s1, mstate(g.em, vals2, mema));
                            lemma_agree_insert(valsa, g1.em.n_values, outv, em.n_values);
                            lemma_agree_trans(vals, valsa, vals2, em.n_values, em.n_values);
                            assert(run_post(g, em, sid, vals, mem, ir, outv, env1, vals2, mema));
                            assert(eval(e, env) == (EvalOut::Val { v: outv, env: env1 }));
                            assert(run_post(
                                g,
                                em,
                                sid,
                                vals,
                                mem,
                                ir,
                                ev->Val_v,
                                ev->Val_env,
                                vals2,
                                mema,
                            ));
                        },
                        EvalOut::DivFault => {},
                        EvalOut::Wrong => {},
                    }
                },
                Err(_) => {},
            }
        },
        _ => {},
    }
}

/// The central theorem, for a list of nodes generated in one scope.
#[verifier::rlimit(100)]
#[verifier::spinoff_prover]
pub proof fn lemma_gen_seq_correct(
    es: Seq<ExprV>,
    em: EmitterV,
    ar: Seq<ScopeV>,
    sid: int,
    vals: Map<int, i32>,
    mem: Map<int, i32>,
    ir: Seq<BlockV>,
)
    requires
        gen_seq_wf(es, em, ar, sid),
        chain_defined(ar, sid, mem),
        em_extends(ir, sp_gen_seq(es, em, ar, sid).em),
    ensures
        gen_seq_correct_post(es, em, ar, sid, vals, mem, ir),
    decreases es, 2nat,
{
    if es.len() == 0 {
    } else {
        let g = sp_gen_seq(es, em, ar, sid);
        let env = abs_env(ar, sid, mem);
        let s0 = mstate(em, vals, mem);
        assert(gen_wf(es[0], em, ar, sid));
        lemma_generate_frame(es[0], em, ar, sid);
        let g0 = sp_generate(es[0], em, ar, sid);
        match g0.res {
            Ok(v0) => {
                if es.len() == 1 {
                    lemma_generate_correct(es[0], em, ar, sid, vals, mem, ir);
                    match eval(es[0], env) {
                        EvalOut::Val { v: rv0, env: env1 } => {
                            assert(eval_seq(es, env) == (EvalOut::Val { v: rv0, env: env1 }));
                            if g.res is Ok {
                                let (valsa, mema): (Map<int, i32>, Map<int, i32>) = choose|
                                    valsa: Map<int, i32>,
                                    mema: Map<int, i32>,
                                | run_post(g0, em, sid, vals, mem, ir, rv0, env1, valsa, mema);
                                assert(run_post(
                                    g,
                                    em,
                                    sid,
                                    vals,
                                    mem,
                                    ir,
                                    eval_seq(es, env)->Val_v,
                                    eval_seq(es, env)->Val_env,
                                    valsa,
                                    mema,
                                ));
                            }
                        },
                        EvalOut::DivFault => {},
                        EvalOut::Wrong => {},
                    }
                } else {
                    assert(gen_seq_wf(es.drop_first(), g0.em, g0.ar, sid));
                    lemma_gen_seq_frame(es.drop_first(), g0.em, g0.ar, sid);
                    let g1 = sp_gen_seq(es.drop_first(), g0.em, g0.ar, sid);
                    if g.res is Ok {
                        assert(em_extends(ir, g0.em)) by {
                            lemma_grows_covers(g0.em, g1.em);
                            lemma_extends_covers(ir, g1.em, g0.em);
                        }
                        lemma_generate_correct(es[0], em, ar, sid, vals, mem, ir);
                        match eval(es[0], env) {
                            EvalOut::Val { v: rv0, env: env1 } => {
                                let (valsa, mema): (Map<int, i32>, Map<int, i32>) = choose|
                                    valsa: Map<int, i32>,
                                    mema: Map<int, i32>,
                                | run_post(g0, em, sid, vals, mem, ir, rv0, env1, valsa, mema);
                                lemma_gen_seq_correct(
                                    es.drop_first(),
                                    g0.em,
                                    g0.ar,
                                    sid,
                                    valsa,
                                    mema,
                                    ir,
                                );
                                let s1 = mstate(g0.em, valsa, mema);
                                match eval_seq(es.drop_first(), env1) {
                                    EvalOut::Val { v: rvn, env: envn } => {
                                        let (valsb, memb): (Map<int, i32>, Map<int, i32>) =
                                            choose|
                                            valsb: Map<int, i32>,
                                            memb: Map<int, i32>,
                                        |
                                            run_post(
                                                g1,
                                                g0.em,
                                                sid,
                                                valsa,
                                                mema,
                                                ir,
                                                rvn,
                                                envn,
                                                valsb,
                                                memb,
                                            );
                                        lemma_reaches_trans(
                                            ir,
                                            s0,
                                            s1,
                                            mstate(g1.em, valsb, memb),
                                        );
                                        lemma_agree_trans(
                                            vals,
                                            valsa,
                                            valsb,
                                            em.n_values,
                                            g0.em.n_values,
                                        );
                                        lemma_agree_trans(
                                            mem,
                                            mema,
                                            memb,
                                            em.slot_names.len() as int,
                                            g0.em.slot_names.len() as int,
                                        );
                                        assert(run_post(
                                            g,
                                            em,
                                            sid,
                                            vals,
                                            mem,
                                            ir,
                                            rvn,
                                            envn,
                                            valsb,
                                            memb,
                                        ));
                                        assert(eval_seq(es, env) == (EvalOut::Val {
                                            v: rvn,
                                            env: envn,
                                        }));
                                        assert(run_post(
                                            g,
                                            em,
                                            sid,
                                            vals,
                                            mem,
                                            ir,
                                            eval_seq(es, env)->Val_v,
                                            eval_seq(es, env)->Val_env,
                                            valsb,
                                            memb,
                                        ));
                                    },
                                    EvalOut::DivFault => {
                                        lemma_reaches_trans(
                                            ir,
                                            s0,
                                            s1,
                                            MachineState::Fault,
                                        );
                                    },
                                    EvalOut::Wrong => {},
                                }
                            },
                            EvalOut::DivFault => {},
                            EvalOut::Wrong => {},
                        }
                    }
                }
            },
            Err(_) => {},
        }
    }
}

} // verus!

verus! {

use crate::semantics::machine::{apply_phis, enter_block};

/// The central theorem for a conditional: the predicate's code runs,
/// the branch the machine takes is the branch evaluation takes, and
/// the join at the merge point carries that branch's value —
/// resolved by the control-flow edge actually taken, although both
/// branches' instructions were emitted.
#[verifier::rlimit(100)]
#[verifier::spinoff_prover]
pub proof fn lemma_if_correct(
    e: ExprV,
    p: ExprV,
    c: ExprV,
    a: ExprV,
    em: EmitterV,
    ar: Seq<ScopeV>,
    sid: int,
    vals: Map<int, i32>,
    mem: Map<int, i32>,
    ir: Seq<BlockV>,
)
    requires
        e == ExprV::IfExpr(Box::new(p), Box::new(c), Box::new(a)),
        gen_wf(e, em, ar, sid),
        chain_defined(ar, sid, mem),
        em_extends(ir, sp_generate(e, em, ar, sid).em),
    ensures
        gen_correct_post(e, em, ar, sid, vals, mem, ir),
    decreases e, 0nat,
{
    let g = sp_generate(e, em, ar, sid);
    if g.res is Ok {
        let env = abs_env(ar, sid, mem);
        let s0 = mstate(em, vals, mem);
        lemma_generate_frame(p, em, ar, sid);
        let gp = sp_generate(p, em, ar, sid);
        let pv = gp.res->Ok_0;
        let c0v = gp.em.n_values;
        let em1 = em_const(gp.em, 0);
        let cmpv = em1.n_values;
        let em2 = em_bin(em1, BinOp::Ne, pv, c0v);
        let tb = em2.blocks.len() as int;
        let em3 = em_new_block(em2);
        let eb = em3.blocks.len() as int;
        let em4 = em_new_block(em3);
        let br = Terminator::Branch {
            cond: cmpv as usize,
            then_target: tb as usize,
            else_target: eb as usize,
        };
        let em5 = em_set_term(em4, em4.cur, br);
        let em6 = em_position(em5, tb);
        let art = ar_child(gp.ar, sid);
        let sid_t = gp.ar.len() as int;
        lemma_ar_grows_child(gp.ar, sid);
        assert(ar_slots_ok(art, em6.slot_names.len() as int)) by {
            assert forall|i: int, j: int|
                0 <= i < art.len() && 0 <= j < art[i].bindings.len() implies 0 <= (
            #[trigger] art[i].bindings[j]).1 < em6.slot_names.len() by {
                assert(art[i] == gp.ar[i]);
            }
        }
        assert(gen_wf(c, em6, art, sid_t));
        lemma_generate_frame(c, em6, art, sid_t);
        let gc = sp_generate(c, em6, art, sid_t);
        let cv = gc.res->Ok_0;
        let t_exit = gc.em.cur;
        let em7 = em_position(gc.em, eb);
        let are = ar_child(gc.ar, sid);
        let sid_e = gc.ar.len() as int;
        lemma_ar_grows_child(gc.ar, sid);
        assert(ar_slots_ok(are, em7.slot_names.len() as int)) by {
            assert forall|i: int, j: int|
                0 <= i < are.len() && 0 <= j < are[i].bindings.len() implies 0 <= (
            #[trigger] are[i].bindings[j]).1 < em7.slot_names.len() by {
                assert(are[i] == gc.ar[i]);
            }
        }
        // the else block is untouched by the then branch
        assert(gc.em.blocks[eb] == em4.blocks[eb]) by {
            assert(eb < em6.blocks.len());
            assert(eb != em6.cur);
            assert(gc.em.blocks[eb] == em6.blocks[eb]);
            assert(em4.cur == gp.em.cur && gp.em.cur < gp.em.blocks.len());
            assert(eb != em4.cur);
            assert(em5.blocks[eb] == em4.blocks[eb]);
        }
        assert(em7.blocks[eb].term is None && em7.blocks[eb].instrs.len() == 0
            && em7.blocks[eb].phis.len() == 0);
        assert(gen_wf(a, em7, are, sid_e));
        lemma_generate_frame(a, em7, are, sid_e);
        let ga = sp_generate(a, em7, are, sid_e);
        let av = ga.res->Ok_0;
        let e_exit = ga.em.cur;
        let mb = ga.em.blocks.len() as int;
        let join = ga.em.n_values;
        let em8 = em_new_block_phi(ga.em, t_exit, cv, e_exit, av);
        let jmp = Terminator::Jump { target: mb as usize };
        let em9 = em_set_term(em8, t_exit, jmp);
        let em10 = em_set_term(em9, e_exit, jmp);
        // where the exits lie
        assert(t_exit == tb || t_exit >= em6.blocks.len());
        assert(e_exit == eb || e_exit >= em7.blocks.len());
        assert(t_exit != e_exit);
        assert(t_exit < mb && e_exit < mb);
        assert(gp.em.cur == em.cur || gp.em.cur >= em.blocks.len());
        let curp = gp.em.cur;
        assert(curp < tb);
        assert(curp != t_exit && curp != e_exit && curp != eb && curp != tb);
        // the finished conditional covers every intermediate state
        assert(em_covers(g.em, ga.em)) by {
            assert forall|b: int| 0 <= b < ga.em.blocks.len() implies block_extends(
                #[trigger] g.em.blocks[b],
                ga.em.blocks[b],
            ) by {
                assert(em8.blocks[b] == ga.em.blocks[b]);
                if b == t_exit {
                    assert(ga.em.blocks[t_exit].term is None) by {
                        assert(ga.em.blocks[t_exit] == em7.blocks[t_exit]);
                        assert(gc.em.blocks[gc.em.cur].term is None);
                    }
                    assert(g.em.blocks[b].instrs == ga.em.blocks[b].instrs
                        && g.em.blocks[b].phis == ga.em.blocks[b].phis);
                    assert(ga.em.blocks[b].instrs.subrange(
                        0,
                        ga.em.blocks[b].instrs.len() as int,
                    ) =~= ga.em.blocks[b].instrs);
                } else if b == e_exit {
                    assert(ga.em.blocks[e_exit].term is None);
                    assert(g.em.blocks[b].instrs == ga.em.blocks[b].instrs
                        && g.em.blocks[b].phis == ga.em.blocks[b].phis);
                    assert(ga.em.blocks[b].instrs.subrange(
                        0,
                        ga.em.blocks[b].instrs.len() as int,
                    ) =~= ga.em.blocks[b].instrs);
                } else {
                    assert(g.em.blocks[b] == ga.em.blocks[b]);
                    lemma_block_extends_refl(ga.em.blocks[b]);
                }
            }
        }
        lemma_grows_covers(em7, ga.em);
        assert(em_covers(ga.em, gc.em)) by {
            assert(em7.blocks == gc.em.blocks);
            assert forall|b: int| 0 <= b < gc.em.blocks.len() implies block_extends(
                #[trigger] ga.em.blocks[b],
                gc.em.blocks[b],
            ) by {
                assert(block_extends(ga.em.blocks[b], em7.blocks[b]));
            }
        }
        lemma_grows_covers(em6, gc.em);
        assert(em_covers(gc.em, em5)) by {
            assert(em5.blocks == em6.blocks);
            assert forall|b: int| 0 <= b < em5.blocks.len() implies block_extends(
                #[trigger] gc.em.blocks[b],
                em5.blocks[b],
            ) by {
                assert(block_extends(gc.em.blocks[b], em6.blocks[b]));
            }
        }
        assert(em_covers(em5, em4)) by {
            assert forall|b: int| 0 <= b < em4.blocks.len() implies block_extends(
                #[trigger] em5.blocks[b],
                em4.blocks[b],
            ) by {
                if b == em4.cur {
                    assert(em4.blocks[b].term is None);
                    assert(em5.blocks[b].instrs == em4.blocks[b].instrs);
                    assert(em4.blocks[b].instrs.subrange(
                        0,
                        em4.blocks[b].instrs.len() as int,
                    ) =~= em4.blocks[b].instrs);
                } else {
                    assert(em5.blocks[b] == em4.blocks[b]);
                    lemma_block_extends_refl(em4.blocks[b]);
                }
            }
        }
        assert(em_covers(em4, em2)) by {
            assert forall|b: int| 0 <= b < em2.blocks.len() implies block_extends(
                #[trigger] em4.blocks[b],
                em2.blocks[b],
            ) by {
                assert(em4.blocks[b] == em2.blocks[b]);
                lemma_block_extends_refl(em2.blocks[b]);
            }
        }
        lemma_grows_emit(gp.em, em1, Instr::Const { dst: c0v as usize, value: 0 });
        lemma_grows_emit(em1, em2, Instr::Bin {
            dst: cmpv as usize,
            op: BinOp::Ne,
            lhs: pv as usize,
            rhs: c0v as usize,
        });
        lemma_grows_covers(gp.em, em1);
        lemma_grows_covers(em1, em2);
        lemma_covers_trans(gc.em, em5, em4);
        lemma_covers_trans(gc.em, em4, em2);
        lemma_covers_trans(em2, em1, gp.em);
        lemma_covers_trans(ga.em, gc.em, em2);
        lemma_covers_trans(g.em, ga.em, em2);
        lemma_covers_trans(g.em, ga.em, gc.em);
        lemma_covers_trans(g.em, em2, gp.em);
        lemma_extends_covers(ir, g.em, ga.em);
        lemma_extends_covers(ir, g.em, gc.em);
        lemma_extends_covers(ir, g.em, em2);
        lemma_extends_covers(ir, g.em, gp.em);
        // every index the node mentions fits the machine's word
        assert(ga.em.blocks.len() <= em.blocks.len() + 3 * size_of(e));
        assert(0 <= t_exit <= usize::MAX && 0 <= e_exit <= usize::MAX && 0 <= mb <= usize::MAX);
        assert(0 <= cv <= usize::MAX && 0 <= av <= usize::MAX && 0 <= join <= usize::MAX);
        // the predicate's run
        lemma_generate_correct(p, em, ar, sid, vals, mem, ir);
        match eval(p, env) {
            EvalOut::Val { v: rv_p, env: env1 } => {
                let (vals1, mem1): (Map<int, i32>, Map<int, i32>) = choose|
                    vals1: Map<int, i32>,
                    mem1: Map<int, i32>,
                | run_post(gp, em, sid, vals, mem, ir, rv_p, env1, vals1, mem1);
                let s1 = mstate(gp.em, vals1, mem1);
                let lp = gp.em.blocks[curp].instrs.len() as int;
                // materialize zero, compare, branch
                lemma_ir_instr(ir, em2, curp, lp);
                lemma_ir_instr(ir, em2, curp, lp + 1);
                let vals2 = vals1.insert(c0v, 0);
                let cmpval: i32 = if rv_p != 0 {
                    1
                } else {
                    0
                };
                let vals3 = vals2.insert(cmpv, cmpval);
                let s2 = MachineState::Running { block: curp, instr: lp + 1, vals: vals2, mem: mem1 };
                let s3 = MachineState::Running { block: curp, instr: lp + 2, vals: vals3, mem: mem1 };
                assert(step(ir, s1) == s2);
                assert(vals2.dom().contains(pv) && vals2[pv] == rv_p);
                assert(bin_eval(BinOp::Ne, rv_p, 0) == Some(cmpval));
                assert(step(ir, s2) == s3);
                // the branch terminator survives to the finished program
                assert(g.em.blocks[curp] == em5.blocks[curp]) by {
                    assert(gc.em.blocks[curp] == em6.blocks[curp]);
                    assert(ga.em.blocks[curp] == em7.blocks[curp]);
                    assert(em8.blocks[curp] == ga.em.blocks[curp]);
                }
                lemma_ir_term(ir, g.em, curp);
                assert(ir[curp].term == Some(br));
                assert(ir[curp].instrs.len() == lp + 2);
                lemma_reaches_step(ir, s1);
                lemma_reaches_step(ir, s2);
                lemma_reaches_trans(ir, s0, s1, s2);
                lemma_reaches_trans(ir, s0, s2, s3);
                // the join block's phi survives to the finished program
                assert(g.em.blocks[mb] == em8.blocks[mb]) by {
                    assert(t_exit != mb && e_exit != mb);
                }
                lemma_ir_phis(ir, g.em, mb);
                let phi = crate::compiler::ir::Phi {
                    dst: join as usize,
                    a_block: t_exit as usize,
                    a_val: cv as usize,
                    b_block: e_exit as usize,
                    b_val: av as usize,
                };
                assert(ir[mb].phis == seq![phi]);
                assert(g.em.blocks[mb].instrs.len() == 0);
                lemma_abs_env_child(gp.ar, sid, mem1);
                if rv_p != 0 {
                    // the then edge
                    assert(g.em.blocks[tb].phis =~= Seq::<crate::compiler::ir::Phi>::empty())
                        by {
                        assert(gc.em.blocks[tb].phis == em6.blocks[tb].phis);
                        assert(ga.em.blocks[tb].phis == gc.em.blocks[tb].phis) by {
                            if tb != eb {
                                assert(ga.em.blocks[tb] == em7.blocks[tb] || tb == em7.cur);
                            }
                        }
                        assert(em8.blocks[tb].phis == ga.em.blocks[tb].phis);
                        assert(em9.blocks[tb].phis == em8.blocks[tb].phis);
                        assert(em10.blocks[tb].phis == em9.blocks[tb].phis);
                    }
                    lemma_ir_phis(ir, g.em, tb);
                    let s4 = MachineState::Running { block: tb, instr: 0, vals: vals3, mem: mem1 };
                    assert(step(ir, s3) == s4) by {
                        assert(vals3[cmpv] == 1);
                        assert(enter_block(ir, curp, tb, vals3, mem1) == s4);
                    }
                    lemma_reaches_step(ir, s3);
                    lemma_reaches_trans(ir, s0, s3, s4);
                    assert(s4 == mstate(em6, vals3, mem1)) by {
                        assert(em6.blocks[tb].instrs.len() == 0);
                    }
                    lemma_generate_correct(c, em6, art, sid_t, vals3, mem1, ir);
                    crate::semantics::eval::lemma_eval_frames(c, env1.push(Seq::empty()));
                    match eval(c, env1.push(Seq::empty())) {
                        EvalOut::Val { v: rv_c, env: env2 } => {
                            let (vals4, mem2): (Map<int, i32>, Map<int, i32>) = choose|
                                vals4: Map<int, i32>,
                                mem2: Map<int, i32>,
                            |
                                run_post(
                                    gc,
                                    em6,
                                    sid_t,
                                    vals3,
                                    mem1,
                                    ir,
                                    rv_c,
                                    env2,
                                    vals4,
                                    mem2,
                                );
                            let s5 = mstate(gc.em, vals4, mem2);
                            // the jump into the join
                            assert(g.em.blocks[t_exit].term == Some(jmp)) by {
                                assert(em10.blocks[t_exit] == em9.blocks[t_exit]);
                            }
                            assert(g.em.blocks[t_exit].instrs == gc.em.blocks[t_exit].instrs)
                                by {
                                assert(ga.em.blocks[t_exit] == em7.blocks[t_exit]);
                                assert(em8.blocks[t_exit] == ga.em.blocks[t_exit]);
                                assert(em9.blocks[t_exit].instrs == em8.blocks[t_exit].instrs);
                                assert(em10.blocks[t_exit] == em9.blocks[t_exit]);
                            }
                            lemma_ir_term(ir, g.em, t_exit);
                            let vals5 = vals4.insert(join, rv_c);
                            let s6 = MachineState::Running {
                                block: mb,
                                instr: 0,
                                vals: vals5,
                                mem: mem2,
                            };
                            assert(step(ir, s5) == s6) by {
                                assert(vals4.dom().contains(cv) && vals4[cv] == rv_c);
                                assert(ir[mb].phis.len() == 1);
                                assert(ir[mb].phis[0] == phi);
                                assert((phi.a_block as int) == t_exit);
                                assert((phi.a_val as int) == cv);
                                assert((phi.dst as int) == join);
                                assert(ir[mb].phis.drop_first() =~= Seq::<
                                    crate::compiler::ir::Phi,
                                >::empty());
                                let vm = vals4.insert(join, vals4[cv as int]);
                                assert(apply_phis(ir[mb].phis.drop_first(), t_exit, vm)
                                    == Some(vm));
                                assert(apply_phis(ir[mb].phis, t_exit, vals4) == Some(vm));
                                assert(vm == vals5);
                                assert(0 <= mb < ir.len()) by {
                                    assert(g.em.blocks.len() == mb + 1);
                                }
                                assert(enter_block(ir, t_exit, mb, vals4, mem2) == s6);
                            }
                            lemma_reaches_step(ir, s5);
                            lemma_reaches_trans(ir, s0, s4, s5);
                            lemma_reaches_trans(ir, s0, s5, s6);
                            assert(s6 == mstate(g.em, vals5, mem2));
                            // the environments line up
                            assert(art[sid_t].parent == Some(sid));
                            assert(gc.ar[sid_t].parent == Some(sid));
                            assert(abs_env(gc.ar, sid_t, mem2) == abs_env(gc.ar, sid, mem2).push(
                                abs_frame(gc.ar[sid_t].bindings, mem2),
                            ));
                            assert(env2.drop_last() =~= abs_env(gc.ar, sid, mem2));
                            assert(chain_defined(gc.ar, sid, mem2));
                            assert forall|i: int| 0 <= i <= sid implies ga.ar[i]
                                == #[trigger] gc.ar[i] by {
                                assert(i != sid_e);
                                assert(ga.ar[i] == are[i]);
                                assert(are[i] == gc.ar[i]);
                            }
                            lemma_abs_env_agree(gc.ar, ga.ar, sid, mem2);
                            lemma_chain_defined_agree(gc.ar, ga.ar, sid, mem2);
                            // the caller's values and slots are untouched
                            lemma_agree_insert(vals1, c0v, 0, em.n_values);
                            lemma_agree_insert(vals2, cmpv, cmpval, em.n_values);
                            lemma_agree_insert(vals4, join, rv_c, em.n_values);
                            lemma_agree_trans(vals, vals1, vals2, em.n_values, em.n_values);
                            lemma_agree_trans(vals, vals2, vals3, em.n_values, em.n_values);
                            lemma_agree_trans(
                                vals,
                                vals3,
                                vals4,
                                em.n_values,
                                em6.n_values,
                            );
                            lemma_agree_trans(vals, vals4, vals5, em.n_values, em.n_values);
                            lemma_agree_trans(
                                mem,
                                mem1,
                                mem2,
                                em.slot_names.len() as int,
                                em6.slot_names.len() as int,
                            );
                            assert(run_post(
                                g,
                                em,
                                sid,
                                vals,
                                mem,
                                ir,
                                rv_c,
                                env2.drop_last(),
                                vals5,
                                mem2,
                            ));
                            assert(eval(e, env) == (EvalOut::Val {
                                v: rv_c,
                                env: env2.drop_last(),
                            }));
                            assert(run_post(
                                g,
                                em,
                                sid,
                                vals,
                                mem,
                                ir,
                                eval(e, env)->Val_v,
                                eval(e, env)->Val_env,
                                vals5,
                                mem2,
                            ));
                        },
                        EvalOut::DivFault => {
                            lemma_reaches_trans(ir, s0, s4, MachineState::Fault);
                        },
                        EvalOut::Wrong => {},
                    }
                } else {
                    // the else edge
                    assert(g.em.blocks[eb].phis =~= Seq::<crate::compiler::ir::Phi>::empty())
                        by {
                        assert(ga.em.blocks[eb].phis == em7.blocks[eb].phis || eb == em7.cur);
                        assert(em8.blocks[eb].phis == ga.em.blocks[eb].phis);
                        assert(em9.blocks[eb].phis == em8.blocks[eb].phis);
                        assert(em10.blocks[eb].phis == em9.blocks[eb].phis);
                    }
                    lemma_ir_phis(ir, g.em, eb);
                    let s4 = MachineState::Running { block: eb, instr: 0, vals: vals3, mem: mem1 };
                    assert(step(ir, s3) == s4) by {
                        assert(vals3[cmpv] == 0);
                        assert(enter_block(ir, curp, eb, vals3, mem1) == s4);
                    }
                    lemma_reaches_step(ir, s3);
                    lemma_reaches_trans(ir, s0, s3, s4);
                    assert(s4 == mstate(em7, vals3, mem1));
                    // the then branch's compile-time work left this
                    // chain alone
                    assert forall|i: int| 0 <= i <= sid implies gc.ar[i]
                        == #[trigger] gp.ar[i] by {
                        assert(i != sid_t);
                        assert(gc.ar[i] == art[i]);
                        assert(art[i] == gp.ar[i]);
                    }
                    lemma_abs_env_agree(gp.ar, gc.ar, sid, mem1);
                    lemma_chain_defined_agree(gp.ar, gc.ar, sid, mem1);
                    lemma_abs_env_child(gc.ar, sid, mem1);
                    lemma_generate_correct(a, em7, are, sid_e, vals3, mem1, ir);
                    crate::semantics::eval::lemma_eval_frames(a, env1.push(Seq::empty()));
                    match eval(a, env1.push(Seq::empty())) {
                        EvalOut::Val { v: rv_a, env: env2 } => {
                            let (vals4, mem2): (Map<int, i32>, Map<int, i32>) = choose|
                                vals4: Map<int, i32>,
                                mem2: Map<int, i32>,
                            |
                                run_post(
                                    ga,
                                    em7,
                                    sid_e,
                                    vals3,
                                    mem1,
                                    ir,
                                    rv_a,
                                    env2,
                                    vals4,
                                    mem2,
                                );
                            let s5 = mstate(ga.em, vals4, mem2);
                            assert(g.em.blocks[e_exit].term == Some(jmp));
                            assert(g.em.blocks[e_exit].instrs == ga.em.blocks[e_exit].instrs)
                                by {
                                assert(em8.blocks[e_exit] == ga.em.blocks[e_exit]);
                                assert(em9.blocks[e_exit].instrs == em8.blocks[e_exit].instrs
                                    || e_exit != t_exit);
                                assert(em10.blocks[e_exit].instrs
                                    == em9.blocks[e_exit].instrs);
                            }
                            lemma_ir_term(ir, g.em, e_exit);
                            let vals5 = vals4.insert(join, rv_a);
                            let s6 = MachineState::Running {
                                block: mb,
                                instr: 0,
                                vals: vals5,
                                mem: mem2,
                            };
                            assert(step(ir, s5) == s6) by {
                                assert(vals4.dom().contains(av) && vals4[av] == rv_a);
                                assert(ir[mb].phis.len() == 1);
                                assert(ir[mb].phis[0] == phi);
                                assert((phi.b_block as int) == e_exit);
                                assert((phi.a_block as int) == t_exit);
                                assert(e_exit != t_exit);
                                assert((phi.b_val as int) == av);
                                assert((phi.dst as int) == join);
                                assert(ir[mb].phis.drop_first() =~= Seq::<
                                    crate::compiler::ir::Phi,
                                >::empty());
                                let vm = vals4.insert(join, vals4[av as int]);
                                assert(apply_phis(ir[mb].phis.drop_first(), e_exit, vm)
                                    == Some(vm));
                                assert(apply_phis(ir[mb].phis, e_exit, vals4) == Some(vm));
                                assert(vm == vals5);
                                assert(0 <= mb < ir.len()) by {
                                    assert(g.em.blocks.len() == mb + 1);
                                }
                                assert(enter_block(ir, e_exit, mb, vals4, mem2) == s6);
                            }
                            lemma_reaches_step(ir, s5);
                            lemma_reaches_trans(ir, s0, s4, s5);
                            lemma_reaches_trans(ir, s0, s5, s6);
                            assert(s6 == mstate(g.em, vals5, mem2));
                            // the environments line up
                            assert(are[sid_e].parent == Some(sid));
                            assert(ga.ar[sid_e].parent == Some(sid));
                            assert(abs_env(ga.ar, sid_e, mem2) == abs_env(ga.ar, sid, mem2).push(
                                abs_frame(ga.ar[sid_e].bindings, mem2),
                            ));
                            assert(env2.drop_last() =~= abs_env(ga.ar, sid, mem2));
                            assert(chain_defined(ga.ar, sid, mem2));
                            lemma_agree_insert(vals1, c0v, 0, em.n_values);
                            lemma_agree_insert(vals2, cmpv, cmpval, em.n_values);
                            lemma_agree_insert(vals4, join, rv_a, em.n_values);
                            lemma_agree_trans(vals, vals1, vals2, em.n_values, em.n_values);
                            lemma_agree_trans(vals, vals2, vals3, em.n_values, em.n_values);
                            lemma_agree_trans(
                                vals,
                                vals3,
                                vals4,
                                em.n_values,
                                em7.n_values,
                            );
                            lemma_agree_trans(vals, vals4, vals5, em.n_values, em.n_values);
                            lemma_agree_trans(
                                mem,
                                mem1,
                                mem2,
                                em.slot_names.len() as int,
                                em7.slot_names.len() as int,
                            );
                            assert(run_post(
                                g,
                                em,
                                sid,
                                vals,
                                mem,
                                ir,
                                rv_a,
                                env2.drop_last(),
                                vals5,
                                mem2,
                            ));
                            assert(eval(e, env) == (EvalOut::Val {
                                v: rv_a,
                                env: env2.drop_last(),
                            }));
                            assert(run_post(
                                g,
                                em,
                                sid,
                                vals,
                                mem,
                                ir,
                                eval(e, env)->Val_v,
                                eval(e, env)->Val_env,
                                vals5,
                                mem2,
                            ));
                        },
                        EvalOut::DivFault => {
                            lemma_reaches_trans(ir, s0, s4, MachineState::Fault);
                        },
                        EvalOut::Wrong => {},
                    }
                }
            },
            EvalOut::DivFault => {},
            EvalOut::Wrong => {},
        }
    }
}

} // verus!
