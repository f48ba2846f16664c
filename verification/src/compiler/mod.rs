//! The back half of the compiler: scope resolution, the basic-block
//! intermediate representation, and code generation.

use vstd::prelude::*;
use crate::parser::node_types::ExpressionAST;

pub mod ast_converter;
pub mod emitter;
pub mod ir;
pub mod ir_constructor;
pub mod scope;

verus! {

/// Compiles one syntax tree into a basic-block program.
pub fn compile(ast: ExpressionAST) -> (r: Result<ir::Program, crate::errors::CompileError>)
    ensures
        match r {
            Ok(p) => ir_constructor::sp_construct(crate::parser::node_types::expr_view(ast))
                == Ok::<ir::ProgramV, crate::errors::CompileErrorV>(p@),
            Err(e) => ir_constructor::sp_construct(crate::parser::node_types::expr_view(ast))
                == Err::<ir::ProgramV, crate::errors::CompileErrorV>(e@),
        },
{
    ir_constructor::construct(&ast)
}

} // verus!
