//! Assembles a whole compile unit: one function whose entry block
//! receives the program's code and whose final value is returned.

use vstd::prelude::*;
use crate::compiler::ast_converter::sp_generate;
use crate::compiler::emitter::{em_init, em_set_term, Emitter};
use crate::compiler::ir::{Program, ProgramV, Terminator};
use crate::compiler::scope::{ScopeArena, ScopeV};
use crate::errors::{CompileError, CompileErrorV};
use crate::parser::node_types::{expr_view, ExprV, ExpressionAST};

verus! {

/// The scope that the whole unit starts in.
pub open spec fn root_scope() -> ScopeV {
    ScopeV { parent: None, bindings: Seq::empty() }
}

/// What constructing a unit yields: the generated program, closed by
/// a return of the program's value, or the error that aborted it.
pub open spec fn sp_construct(ast: ExprV) -> Result<ProgramV, CompileErrorV> {
    let g = sp_generate(ast, em_init(), seq![root_scope()], 0);
    match g.res {
        Ok(v) => {
            let em1 = em_set_term(g.em, g.em.cur, Terminator::Ret { val: v as usize });
            Ok(
                ProgramV {
                    blocks: em1.blocks,
                    n_values: em1.n_values,
                    slot_names: em1.slot_names,
                },
            )
        },
        Err(e) => Err(e),
    }
}

/// Builds the program for one syntax tree: a fresh emitter with its
/// entry block, a fresh root scope, the tree's code, and a return of
/// the tree's value.
pub fn construct(ast: &ExpressionAST) -> (r: Result<Program, CompileError>)
    ensures
        match r {
            Ok(p) => sp_construct(expr_view(*ast)) == Ok::<ProgramV, CompileErrorV>(p@),
            Err(e) => sp_construct(expr_view(*ast)) == Err::<ProgramV, CompileErrorV>(e@),
        },
{
    let mut em = Emitter::new();
    let mut scopes = ScopeArena::empty();
    let root = scopes.new_scope(None);
    proof {
        assert(scopes@ =~~= seq![root_scope()]);
    }
    match ast.codegen(&mut em, &mut scopes, root) {
        Ok(v) => {
            let cur = em.cur;
            em.set_term(cur, Terminator::Ret { val: v });
            let prog = Program {
                blocks: em.blocks,
                n_values: em.values.len(),
                slot_names: em.slot_names,
            };
            proof {
                let g = sp_generate(expr_view(*ast), em_init(), seq![root_scope()], 0);
                let em1 = em_set_term(g.em, g.em.cur, Terminator::Ret { val: v as usize });
                assert(prog@ =~~= ProgramV {
                    blocks: em1.blocks,
                    n_values: em1.n_values,
                    slot_names: em1.slot_names,
                });
            }
            Ok(prog)
        },
        Err(e) => Err(e),
    }
}

} // verus!
