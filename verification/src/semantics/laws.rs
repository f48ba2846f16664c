//! The laws the library stands for, stated over whole compile units.

use vstd::prelude::*;
use crate::compiler::ast_converter::{sp_gen_seq, sp_generate};
use crate::compiler::emitter::{em_init, em_set_term};
use crate::compiler::ir::{ProgramV, Terminator};
use crate::compiler::ir_constructor::{root_scope, sp_construct};
use crate::errors::{CompileErrorV, SyntaxError};
use crate::parser::ast_generator::gen_matches;
use crate::parser::lexer::lex_spec;
use crate::parser::node_types::{expr_view, ExprV, ExpressionAST};
use crate::parser::token_types::AtomBinary;
use crate::semantics::correct::{
    abs_env, abs_frame, block_extends, em_extends, gen_wf, lemma_block_extends_refl,
    lemma_generate_correct, lemma_generate_frame, mstate, run_post, size_of, sizes_of,
};
use crate::semantics::eval::{binop_of, eval, eval_seq, Env, EvalOut};
use crate::semantics::interp::start_state;
use crate::semantics::machine::{
    bin_eval, lemma_outcome_unique, lemma_reaches_step, lemma_reaches_trans, reaches, step,
    MachineState,
};

verus! {

/// The environment a compile unit starts in: one root frame with
/// nothing bound.
pub open spec fn initial_env() -> Env {
    seq![Seq::empty()]
}

/// The central law: a program that compiles means what its source
/// means.  When the source evaluates to a value, running the
/// compiled blocks from the entry reaches a return of exactly that
/// value; when the source faults — division by zero — the run
/// faults; and the source of a compiled program never evaluates to a
/// rejected form.
pub proof fn lemma_construct_correct(ast: ExprV)
    requires
        3 * size_of(ast) + 1 <= usize::MAX,
        sp_construct(ast) is Ok,
    ensures
        ({
            let prog = sp_construct(ast)->Ok_0;
            let ev = eval(ast, initial_env());
            &&& !(ev is Wrong)
            &&& (ev matches EvalOut::Val { v, .. } ==> reaches(
                prog.blocks,
                start_state(prog),
                MachineState::Done { ret: v },
            ))
            &&& (ev is DivFault ==> reaches(
                prog.blocks,
                start_state(prog),
                MachineState::Fault,
            ))
        }),
{
    let em0 = em_init();
    let ar0 = seq![root_scope()];
    let g = sp_generate(ast, em0, ar0, 0);
    let v = g.res->Ok_0;
    let em1 = em_set_term(g.em, g.em.cur, Terminator::Ret { val: v as usize });
    let prog = sp_construct(ast)->Ok_0;
    let ir = em1.blocks;
    assert(prog.blocks == ir);
    assert(gen_wf(ast, em0, ar0, 0));
    lemma_generate_frame(ast, em0, ar0, 0);
    // the finished program extends the generated state: placing the
    // final return only closes the still-open insertion point
    assert(em_extends(ir, g.em)) by {
        assert forall|b: int| 0 <= b < g.em.blocks.len() implies block_extends(
            #[trigger] ir[b],
            g.em.blocks[b],
        ) by {
            if b == g.em.cur {
                assert(ir[b].instrs == g.em.blocks[b].instrs);
                assert(g.em.blocks[b].instrs.subrange(
                    0,
                    g.em.blocks[b].instrs.len() as int,
                ) =~= g.em.blocks[b].instrs);
            } else {
                assert(ir[b] == g.em.blocks[b]);
                lemma_block_extends_refl(g.em.blocks[b]);
            }
        }
    }
    let vals0 = Map::<int, i32>::empty();
    let mem0 = Map::<int, i32>::empty();
    lemma_generate_correct(ast, em0, ar0, 0, vals0, mem0, ir);
    assert(abs_env(ar0, 0, mem0) =~= initial_env()) by {
        assert(abs_frame(ar0[0].bindings, mem0) =~= Seq::<(Seq<char>, i32)>::empty());
    }
    let s0 = mstate(em0, vals0, mem0);
    assert(s0 == start_state(prog));
    let ev = eval(ast, initial_env());
    match ev {
        EvalOut::Val { v: rv, env: env1 } => {
            let (vals1, mem1): (Map<int, i32>, Map<int, i32>) = choose|
                vals1: Map<int, i32>,
                mem1: Map<int, i32>,
            | run_post(g, em0, 0, vals0, mem0, ir, rv, env1, vals1, mem1);
            let s1 = mstate(g.em, vals1, mem1);
            // the final return
            assert(ir[g.em.cur].term == Some(Terminator::Ret { val: v as usize }));
            assert(ir[g.em.cur].instrs == g.em.blocks[g.em.cur].instrs);
            assert(vals1.dom().contains(v) && vals1[v] == rv);
            assert(0 <= v <= usize::MAX);
            assert(step(ir, s1) == (MachineState::Done { ret: rv }));
            lemma_reaches_step(ir, s1);
            lemma_reaches_trans(ir, s0, s1, MachineState::Done { ret: rv });
        },
        EvalOut::DivFault => {},
        EvalOut::Wrong => {},
    }
}

/// A compiled program has one meaning, and any run that comes to
/// rest lands on it: when the source evaluates to a value, a rest is
/// a return of exactly that value; when the source faults, a rest is
/// the fault.  In particular, whatever a finishing run of the
/// program reports is the source's value.
pub proof fn lemma_run_agrees_with_meaning(ast: ExprV, prog: ProgramV, o: MachineState)
    requires
        3 * size_of(ast) + 1 <= usize::MAX,
        sp_construct(ast) == Ok::<ProgramV, CompileErrorV>(prog),
        !(o is Running),
        reaches(prog.blocks, start_state(prog), o),
    ensures
        eval(ast, initial_env()) matches EvalOut::Val { v, .. } ==> o == (MachineState::Done {
            ret: v,
        }),
        eval(ast, initial_env()) is DivFault ==> o == MachineState::Fault,
{
    lemma_construct_correct(ast);
    match eval(ast, initial_env()) {
        EvalOut::Val { v, .. } => {
            lemma_outcome_unique(
                prog.blocks,
                start_state(prog),
                o,
                MachineState::Done { ret: v },
            );
        },
        EvalOut::DivFault => {
            lemma_outcome_unique(prog.blocks, start_state(prog), o, MachineState::Fault);
        },
        EvalOut::Wrong => {},
    }
}

/// Compiling the literal `n` alone yields a program whose value is
/// `n` — for every 32-bit integer.
pub proof fn lemma_literal_program(n: i32)
    ensures
        ({
            let ast = ExprV::SeqExpr(seq![ExprV::IntegerExpr(n)]);
            &&& sp_construct(ast) is Ok
            &&& reaches(
                sp_construct(ast)->Ok_0.blocks,
                start_state(sp_construct(ast)->Ok_0),
                MachineState::Done { ret: n },
            )
        }),
{
    reveal_with_fuel(size_of, 5);
    reveal_with_fuel(sizes_of, 5);
    reveal_with_fuel(eval, 5);
    reveal_with_fuel(eval_seq, 5);
    reveal_with_fuel(sp_generate, 5);
    reveal_with_fuel(sp_gen_seq, 5);
    let ast = ExprV::SeqExpr(seq![ExprV::IntegerExpr(n)]);
    assert(seq![ExprV::IntegerExpr(n)].drop_first() =~= Seq::<ExprV>::empty());
    assert(sizes_of(Seq::<ExprV>::empty()) == 0);
    assert(size_of(ExprV::IntegerExpr(n)) == 1);
    assert(size_of(ast) == 2);
    assert(sp_construct(ast) is Ok);
    assert(eval(ast, initial_env()) == (EvalOut::Val {
        v: n,
        env: initial_env(),
    })) by {
        let inner = eval_seq(seq![ExprV::IntegerExpr(n)], initial_env().push(Seq::empty()));
        assert(inner == (EvalOut::Val { v: n, env: initial_env().push(Seq::empty()) }));
        assert(initial_env().push(Seq::empty()).drop_last() =~= initial_env());
    }
    lemma_construct_correct(ast);
}

/// The empty sequence compiles to a program whose value is zero.
pub proof fn lemma_empty_sequence_program()
    ensures
        ({
            let ast = ExprV::SeqExpr(Seq::empty());
            &&& sp_construct(ast) is Ok
            &&& reaches(
                sp_construct(ast)->Ok_0.blocks,
                start_state(sp_construct(ast)->Ok_0),
                MachineState::Done { ret: 0 },
            )
        }),
{
    reveal_with_fuel(size_of, 5);
    reveal_with_fuel(sizes_of, 5);
    reveal_with_fuel(eval, 5);
    reveal_with_fuel(eval_seq, 5);
    reveal_with_fuel(sp_generate, 5);
    reveal_with_fuel(sp_gen_seq, 5);
    let ast = ExprV::SeqExpr(Seq::<ExprV>::empty());
    assert(size_of(ast) == 1);
    assert(sp_construct(ast) is Ok);
    assert(eval(ast, initial_env()) == (EvalOut::Val { v: 0, env: initial_env() }));
    lemma_construct_correct(ast);
}

/// A conditional on any predicate value takes exactly one branch:
/// the consequent's value when the predicate is nonzero, the
/// alternate's when it is zero — never both and never neither.
pub proof fn lemma_conditional_selects_one_branch(pv: i32, x: i32, y: i32)
    ensures
        ({
            let ast = ExprV::IfExpr(
                Box::new(ExprV::IntegerExpr(pv)),
                Box::new(ExprV::IntegerExpr(x)),
                Box::new(ExprV::IntegerExpr(y)),
            );
            let picked = if pv != 0 {
                x
            } else {
                y
            };
            &&& sp_construct(ast) is Ok
            &&& reaches(
                sp_construct(ast)->Ok_0.blocks,
                start_state(sp_construct(ast)->Ok_0),
                MachineState::Done { ret: picked },
            )
        }),
{
    reveal_with_fuel(size_of, 5);
    reveal_with_fuel(sizes_of, 5);
    reveal_with_fuel(eval, 5);
    reveal_with_fuel(eval_seq, 5);
    reveal_with_fuel(sp_generate, 5);
    reveal_with_fuel(sp_gen_seq, 5);
    let ast = ExprV::IfExpr(
        Box::new(ExprV::IntegerExpr(pv)),
        Box::new(ExprV::IntegerExpr(x)),
        Box::new(ExprV::IntegerExpr(y)),
    );
    let picked: i32 = if pv != 0 {
        x
    } else {
        y
    };
    assert(size_of(ast) == 4);
    assert(sp_construct(ast) is Ok);
    assert(eval(ast, initial_env()) == (EvalOut::Val { v: picked, env: initial_env() })) by {
        let env1 = initial_env().push(Seq::empty());
        assert(env1.drop_last() =~= initial_env());
    }
    lemma_construct_correct(ast);
}

/// An atomic operator applied to two literals yields the machine
/// operation's value; division by zero compiles but faults at run
/// time — it is never a compile-time error.
pub proof fn lemma_operator_program(op: AtomBinary, lv: i32, rv: i32)
    requires
        !(op is Not),
    ensures
        ({
            let ast = ExprV::AtomBinExpr(
                op,
                Box::new(ExprV::IntegerExpr(lv)),
                Box::new(ExprV::IntegerExpr(rv)),
            );
            &&& sp_construct(ast) is Ok
            &&& (bin_eval(binop_of(op), lv, rv) matches Some(v) ==> reaches(
                sp_construct(ast)->Ok_0.blocks,
                start_state(sp_construct(ast)->Ok_0),
                MachineState::Done { ret: v },
            ))
            &&& (bin_eval(binop_of(op), lv, rv) is None ==> reaches(
                sp_construct(ast)->Ok_0.blocks,
                start_state(sp_construct(ast)->Ok_0),
                MachineState::Fault,
            ))
        }),
{
    reveal_with_fuel(size_of, 5);
    reveal_with_fuel(sizes_of, 5);
    reveal_with_fuel(eval, 5);
    reveal_with_fuel(eval_seq, 5);
    reveal_with_fuel(sp_generate, 5);
    reveal_with_fuel(sp_gen_seq, 5);
    let ast = ExprV::AtomBinExpr(
        op,
        Box::new(ExprV::IntegerExpr(lv)),
        Box::new(ExprV::IntegerExpr(rv)),
    );
    assert(size_of(ast) == 3);
    assert(sp_construct(ast) is Ok);
    match bin_eval(binop_of(op), lv, rv) {
        Some(v) => {
            assert(eval(ast, initial_env()) == (EvalOut::Val { v, env: initial_env() }));
        },
        None => {
            assert(eval(ast, initial_env()) == EvalOut::DivFault);
        },
    }
    lemma_construct_correct(ast);
}

/// Compiling a lone unbound name fails with exactly the unbound
/// variable error, carrying the name.
pub proof fn lemma_unbound_variable(name: Seq<char>)
    ensures
        sp_construct(ExprV::SeqExpr(seq![ExprV::VariableExpr(name)])) == Err::<
            ProgramV,
            CompileErrorV,
        >(CompileErrorV::UnboundVariable(name)),
{
    reveal_with_fuel(size_of, 5);
    reveal_with_fuel(sizes_of, 5);
    reveal_with_fuel(eval, 5);
    reveal_with_fuel(eval_seq, 5);
    reveal_with_fuel(sp_generate, 5);
    reveal_with_fuel(sp_gen_seq, 5);
    reveal_with_fuel(crate::compiler::scope::sp_lookup, 3);
    reveal_with_fuel(crate::compiler::scope::binding_lookup, 3);
    let ast = ExprV::SeqExpr(seq![ExprV::VariableExpr(name)]);
    let em0 = em_init();
    let ar0 = seq![root_scope()];
    assert(seq![ExprV::VariableExpr(name)].drop_first() =~= Seq::<ExprV>::empty());
    assert(crate::compiler::scope::sp_lookup(
        crate::compiler::ast_converter::ar_child(ar0, 0),
        1,
        name,
    ) is None) by {
        assert(crate::compiler::scope::binding_lookup(Seq::empty(), name) is None);
    }
}

/// Identical source text yields structurally identical artifacts:
/// lexing, parsing and code generation are functions of the text
/// alone, so any two successful compiles of the same text agree.
pub proof fn lemma_pipeline_deterministic(
    text: Seq<char>,
    a1: ExpressionAST,
    a2: ExpressionAST,
    p1: ProgramV,
    p2: ProgramV,
)
    requires
        gen_matches(lex_spec(text), Ok::<ExpressionAST, SyntaxError>(a1)),
        gen_matches(lex_spec(text), Ok::<ExpressionAST, SyntaxError>(a2)),
        sp_construct(expr_view(a1)) == Ok::<ProgramV, CompileErrorV>(p1),
        sp_construct(expr_view(a2)) == Ok::<ProgramV, CompileErrorV>(p2),
    ensures
        expr_view(a1) == expr_view(a2),
        p1 == p2,
{
}

/// Evaluating a sequence gives back the environment it started in:
/// its body runs in a child frame, so inner definitions never leak
/// outward.
pub proof fn lemma_sequence_scoping(es: Seq<ExprV>, env: Env)
    ensures
        eval(ExprV::SeqExpr(es), env) matches EvalOut::Val { env: env1, .. } ==> env1 == env,
{
    broadcast use vstd::seq_lib::group_seq_properties;

    if es.len() > 0 {
        crate::semantics::eval::lemma_eval_seq_frames(es, env.push(Seq::empty()));
        match eval_seq(es, env.push(Seq::empty())) {
            EvalOut::Val { env: envn, .. } => {
                if envn.len() > 0 {
                    assert forall|i: int| 0 <= i < env.len() implies envn.drop_last()[i]
                        == #[trigger] env[i] by {
                        assert(env.push(Seq::empty())[i] == env[i]);
                    }
                    assert(envn.drop_last() =~= env);
                }
            },
            _ => {},
        }
    }
}

} // verus!
