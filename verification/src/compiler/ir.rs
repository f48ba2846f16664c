//! The basic-block intermediate representation.
//!
//! A program is one function's control-flow graph: a list of basic
//! blocks, each a straight-line run of instructions closed by one
//! terminator.  Values are numbered in order of creation and are
//! assigned exactly once; named storage lives in numbered slots of
//! the function frame, declared in the slot table.

use vstd::prelude::*;

verus! {

/// An operation of the target machine on two 32-bit values.
/// Comparisons yield 0 or 1; the rest follow two's-complement
/// semantics, with division truncating toward zero.
#[derive(Clone, Copy, Debug, PartialEq, Eq, Structural)]
pub enum BinOp {
    Add,
    Sub,
    Mul,
    Div,
    And,
    Or,
    Eq,
    Ne,
    Lt,
}

/// One instruction.  `dst` names the value an instruction defines.
#[derive(Clone, Copy, Debug, PartialEq, Eq, Structural)]
pub enum Instr {
    /// Materialize a constant.
    Const { dst: usize, value: i32 },
    /// Load from a frame slot.
    Load { dst: usize, slot: usize },
    /// Store a value into a frame slot.
    Store { slot: usize, src: usize },
    /// A binary operation.
    Bin { dst: usize, op: BinOp, lhs: usize, rhs: usize },
    /// Logical negation: 1 if the operand is zero, else 0.
    NotOp { dst: usize, src: usize },
}

/// The single exit of a basic block.
#[derive(Clone, Copy, Debug, PartialEq, Eq, Structural)]
pub enum Terminator {
    /// Return a value from the function.
    Ret { val: usize },
    /// An unconditional branch.
    Jump { target: usize },
    /// A conditional branch: to `then_target` when the condition
    /// value is nonzero, else to `else_target`.
    Branch { cond: usize, then_target: usize, else_target: usize },
}

/// A join of two control-flow edges: on entry to the block, `dst`
/// takes the value `a_val` when control arrived from `a_block` and
/// `b_val` when it arrived from `b_block`.  The selection is keyed
/// by the edge actually taken at run time.
#[derive(Clone, Copy, Debug, PartialEq, Eq, Structural)]
pub struct Phi {
    pub dst: usize,
    pub a_block: usize,
    pub a_val: usize,
    pub b_block: usize,
    pub b_val: usize,
}

/// A basic block: joins resolved on entry, a straight-line run of
/// instructions, and one terminator.  The terminator is `None` only
/// while the block is still being built.
#[derive(Debug)]
pub struct Block {
    pub phis: Vec<Phi>,
    pub instrs: Vec<Instr>,
    pub term: Option<Terminator>,
}

/// The mathematical shape of a block.
pub struct BlockV {
    pub phis: Seq<Phi>,
    pub instrs: Seq<Instr>,
    pub term: Option<Terminator>,
}

impl View for Block {
    type V = BlockV;

    open spec fn view(&self) -> BlockV {
        BlockV { phis: self.phis@, instrs: self.instrs@, term: self.term }
    }
}

/// A compiled program: the blocks of its one function, the count of
/// values its instructions define, and the names of its frame slots.
/// Block 0 is the entry.
#[derive(Debug)]
pub struct Program {
    pub blocks: Vec<Block>,
    pub n_values: usize,
    pub slot_names: Vec<String>,
}

/// The mathematical shape of a program.
pub struct ProgramV {
    pub blocks: Seq<BlockV>,
    pub n_values: int,
    pub slot_names: Seq<Seq<char>>,
}

impl View for Program {
    type V = ProgramV;

    open spec fn view(&self) -> ProgramV {
        ProgramV {
            blocks: self.blocks@.map_values(|b: Block| b@),
            n_values: self.n_values as int,
            slot_names: self.slot_names@.map_values(|s: String| s@),
        }
    }
}

} // verus!
