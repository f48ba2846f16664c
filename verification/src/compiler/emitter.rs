//! The emitter: the stateful interface through which the code
//! generator builds the basic-block program.
//!
//! It keeps the block list, the current insertion point, the table of
//! values defined so far, and the frame's slot table.  Every
//! operation is mirrored by a mathematical one, and each method's
//! contract says that the new emitter is exactly the mathematical
//! operation applied to the old one.

use vstd::prelude::*;
use crate::compiler::ir::{BinOp, Block, BlockV, Instr, Phi, Terminator};

verus! {

/// The emitter.  `values` records, for every value defined so far,
/// the block that defines it; a value's number is its index.
#[derive(Debug)]
pub struct Emitter {
    pub blocks: Vec<Block>,
    pub cur: usize,
    pub values: Vec<usize>,
    pub slot_names: Vec<String>,
}

/// The mathematical shape of an emitter.
#[verifier::ext_equal]
pub struct EmitterV {
    pub blocks: Seq<BlockV>,
    pub cur: int,
    pub n_values: int,
    pub slot_names: Seq<Seq<char>>,
}

impl View for Emitter {
    type V = EmitterV;

    open spec fn view(&self) -> EmitterV {
        EmitterV {
            blocks: self.blocks@.map_values(|b: Block| b@),
            cur: self.cur as int,
            n_values: self.values@.len() as int,
            slot_names: self.slot_names@.map_values(|s: String| s@),
        }
    }
}

/// A fresh emitter: one empty entry block, nothing defined.
pub open spec fn em_init() -> EmitterV {
    EmitterV {
        blocks: seq![BlockV { phis: Seq::empty(), instrs: Seq::empty(), term: None }],
        cur: 0,
        n_values: 0,
        slot_names: Seq::empty(),
    }
}

/// An instruction appended to the current block.
pub open spec fn em_append(em: EmitterV, ins: Instr) -> EmitterV {
    EmitterV {
        blocks: em.blocks.update(
            em.cur,
            BlockV {
                phis: em.blocks[em.cur].phis,
                instrs: em.blocks[em.cur].instrs.push(ins),
                term: em.blocks[em.cur].term,
            },
        ),
        ..em
    }
}

/// A constant materialized into a fresh value.
pub open spec fn em_const(em: EmitterV, value: i32) -> EmitterV {
    EmitterV {
        n_values: em.n_values + 1,
        ..em_append(em, Instr::Const { dst: em.n_values as usize, value })
    }
}

/// A load from a slot into a fresh value.
pub open spec fn em_load(em: EmitterV, slot: int) -> EmitterV {
    EmitterV {
        n_values: em.n_values + 1,
        ..em_append(em, Instr::Load { dst: em.n_values as usize, slot: slot as usize })
    }
}

/// A store of a value into a slot.
pub open spec fn em_store(em: EmitterV, slot: int, src: int) -> EmitterV {
    em_append(em, Instr::Store { slot: slot as usize, src: src as usize })
}

/// A binary operation into a fresh value.
pub open spec fn em_bin(em: EmitterV, op: BinOp, lhs: int, rhs: int) -> EmitterV {
    EmitterV {
        n_values: em.n_values + 1,
        ..em_append(
            em,
            Instr::Bin {
                dst: em.n_values as usize,
                op,
                lhs: lhs as usize,
                rhs: rhs as usize,
            },
        )
    }
}

/// Logical negation into a fresh value.
pub open spec fn em_not(em: EmitterV, src: int) -> EmitterV {
    EmitterV {
        n_values: em.n_values + 1,
        ..em_append(em, Instr::NotOp { dst: em.n_values as usize, src: src as usize })
    }
}

/// A fresh named slot in the function frame.
pub open spec fn em_alloc(em: EmitterV, name: Seq<char>) -> EmitterV {
    EmitterV { slot_names: em.slot_names.push(name), ..em }
}

/// A fresh empty block.  The insertion point does not move.
pub open spec fn em_new_block(em: EmitterV) -> EmitterV {
    EmitterV {
        blocks: em.blocks.push(BlockV { phis: Seq::empty(), instrs: Seq::empty(), term: None }),
        ..em
    }
}

/// A fresh block carrying one join, whose destination is a fresh
/// value.  The join is fixed at the block's creation and never
/// changes afterwards.
pub open spec fn em_new_block_phi(
    em: EmitterV,
    a_block: int,
    a_val: int,
    b_block: int,
    b_val: int,
) -> EmitterV {
    EmitterV {
        blocks: em.blocks.push(
            BlockV {
                phis: seq![
                    Phi {
                        dst: em.n_values as usize,
                        a_block: a_block as usize,
                        a_val: a_val as usize,
                        b_block: b_block as usize,
                        b_val: b_val as usize,
                    },
                ],
                instrs: Seq::empty(),
                term: None,
            },
        ),
        n_values: em.n_values + 1,
        ..em
    }
}

/// A terminator placed on a block.
pub open spec fn em_set_term(em: EmitterV, b: int, t: Terminator) -> EmitterV {
    EmitterV {
        blocks: em.blocks.update(
            b,
            BlockV { phis: em.blocks[b].phis, instrs: em.blocks[b].instrs, term: Some(t) },
        ),
        ..em
    }
}

/// The insertion point moved to a block.
pub open spec fn em_position(em: EmitterV, b: int) -> EmitterV {
    EmitterV { cur: b, ..em }
}

impl Emitter {
    /// A fresh emitter positioned at its entry block.
    pub fn new() -> (r: Self)
        ensures
            r@ =~~= em_init(),
    {
        let mut blocks: Vec<Block> = Vec::new();
        blocks.push(Block { phis: Vec::new(), instrs: Vec::new(), term: None });
        let r = Emitter { blocks, cur: 0, values: Vec::new(), slot_names: Vec::new() };
        proof {
            assert(r@.blocks =~~= em_init().blocks);
            assert(r@.slot_names =~~= em_init().slot_names);
        }
        r
    }

    /// Appends an instruction to the current block.
    fn append(&mut self, ins: Instr)
        requires
            old(self)@.cur < old(self)@.blocks.len(),
        ensures
            final(self)@ =~~= em_append(old(self)@, ins),
    {
        self.blocks[self.cur].instrs.push(ins);
        proof {
            assert(self@.blocks =~~= em_append(old(self)@, ins).blocks);
            assert(self@.slot_names =~~= em_append(old(self)@, ins).slot_names);
        }
    }

    /// Materializes a constant; returns the fresh value.
    pub fn emit_const(&mut self, value: i32) -> (dst: usize)
        requires
            old(self)@.cur < old(self)@.blocks.len(),
        ensures
            final(self)@ =~~= em_const(old(self)@, value),
            dst as int == old(self)@.n_values,
    {
        let dst = self.values.len();
        self.values.push(self.cur);
        self.append(Instr::Const { dst, value });
        dst
    }

    /// Loads from a slot; returns the fresh value.
    pub fn emit_load(&mut self, slot: usize) -> (dst: usize)
        requires
            old(self)@.cur < old(self)@.blocks.len(),
        ensures
            final(self)@ =~~= em_load(old(self)@, slot as int),
            dst as int == old(self)@.n_values,
    {
        let dst = self.values.len();
        self.values.push(self.cur);
        self.append(Instr::Load { dst, slot });
        dst
    }

    /// Stores a value into a slot.
    pub fn emit_store(&mut self, slot: usize, src: usize)
        requires
            old(self)@.cur < old(self)@.blocks.len(),
        ensures
            final(self)@ =~~= em_store(old(self)@, slot as int, src as int),
    {
        self.append(Instr::Store { slot, src });
    }

    /// Applies a binary operation; returns the fresh value.
    pub fn emit_bin(&mut self, op: BinOp, lhs: usize, rhs: usize) -> (dst: usize)
        requires
            old(self)@.cur < old(self)@.blocks.len(),
        ensures
            final(self)@ =~~= em_bin(old(self)@, op, lhs as int, rhs as int),
            dst as int == old(self)@.n_values,
    {
        let dst = self.values.len();
        self.values.push(self.cur);
        self.append(Instr::Bin { dst, op, lhs, rhs });
        dst
    }

    /// Applies logical negation; returns the fresh value.
    pub fn emit_not(&mut self, src: usize) -> (dst: usize)
        requires
            old(self)@.cur < old(self)@.blocks.len(),
        ensures
            final(self)@ =~~= em_not(old(self)@, src as int),
            dst as int == old(self)@.n_values,
    {
        let dst = self.values.len();
        self.values.push(self.cur);
        self.append(Instr::NotOp { dst, src });
        dst
    }

    /// Reserves a named frame slot; returns its number.
    pub fn alloc_slot(&mut self, name: String) -> (slot: usize)
        ensures
            final(self)@ =~~= em_alloc(old(self)@, name@),
            slot as int == old(self)@.slot_names.len(),
    {
        let slot = self.slot_names.len();
        self.slot_names.push(name);
        proof {
            assert(self@.slot_names =~~= em_alloc(old(self)@, name@).slot_names);
            assert(self@.blocks =~~= old(self)@.blocks);
        }
        slot
    }

    /// Creates a fresh empty block; returns its number.  The
    /// insertion point does not move.
    pub fn new_block(&mut self) -> (b: usize)
        ensures
            final(self)@ =~~= em_new_block(old(self)@),
            b as int == old(self)@.blocks.len(),
    {
        let b = self.blocks.len();
        self.blocks.push(Block { phis: Vec::new(), instrs: Vec::new(), term: None });
        proof {
            assert(self@.blocks =~~= em_new_block(old(self)@).blocks);
            assert(self@.slot_names =~~= old(self)@.slot_names);
        }
        b
    }

    /// Creates a fresh block that joins two control-flow edges;
    /// returns the block number and the join's fresh value.
    pub fn new_block_phi(&mut self, a_block: usize, a_val: usize, b_block: usize, b_val: usize)
        -> (r: (usize, usize))
        ensures
            final(self)@ =~~= em_new_block_phi(
                old(self)@,
                a_block as int,
                a_val as int,
                b_block as int,
                b_val as int,
            ),
            r.0 as int == old(self)@.blocks.len(),
            r.1 as int == old(self)@.n_values,
    {
        let b = self.blocks.len();
        let dst = self.values.len();
        self.values.push(b);
        let mut phis: Vec<Phi> = Vec::new();
        phis.push(Phi { dst, a_block, a_val, b_block, b_val });
        self.blocks.push(Block { phis, instrs: Vec::new(), term: None });
        proof {
            let target = em_new_block_phi(
                old(self)@,
                a_block as int,
                a_val as int,
                b_block as int,
                b_val as int,
            );
            assert(self@.blocks =~~= target.blocks);
            assert(self@.slot_names =~~= target.slot_names);
        }
        (b, dst)
    }

    /// Places a terminator on a block.
    pub fn set_term(&mut self, b: usize, t: Terminator)
        requires
            b < old(self)@.blocks.len(),
        ensures
            final(self)@ =~~= em_set_term(old(self)@, b as int, t),
    {
        self.blocks[b].term = Some(t);
        proof {
            assert(self@.blocks =~~= em_set_term(old(self)@, b as int, t).blocks);
            assert(self@.slot_names =~~= old(self)@.slot_names);
        }
    }

    /// Moves the insertion point to a block.
    pub fn position_at(&mut self, b: usize)
        requires
            b < old(self)@.blocks.len(),
        ensures
            final(self)@ =~~= em_position(old(self)@, b as int),
    {
        self.cur = b;
        proof {
            assert(self@.blocks =~~= old(self)@.blocks);
            assert(self@.slot_names =~~= old(self)@.slot_names);
        }
    }
}

} // verus!
