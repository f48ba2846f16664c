//! The meaning of the intermediate representation: a small-step
//! machine over the blocks of one function.
//!
//! A state carries the position (block and instruction index), the
//! values defined so far, and the frame memory.  Entering a block
//! through a branch resolves the block's joins by the edge taken.
//! Division by zero faults at run time; reading a value or slot that
//! was never written, or following ill-formed code, sticks.

use vstd::prelude::*;
use crate::compiler::ir::{BinOp, BlockV, Instr, Phi, Terminator};

verus! {

/// The absolute value.
pub open spec fn iabs(a: int) -> int {
    if a < 0 {
        -a
    } else {
        a
    }
}

/// Signed division truncating toward zero, on unbounded integers.
pub open spec fn tdiv(a: int, b: int) -> int {
    if (a < 0) == (b < 0) {
        iabs(a) / iabs(b)
    } else {
        -(iabs(a) / iabs(b))
    }
}

/// Signed division truncating toward zero on 32-bit values, wrapping
/// on the one overflowing quotient.
pub open spec fn div_trunc(l: i32, r: i32) -> i32 {
    vstd::wrapping::i32_specs::signed_crop(tdiv(l as int, r as int))
}

/// What a machine operation yields, `None` on the one run-time
/// fault: division by zero.
pub open spec fn bin_eval(op: BinOp, l: i32, r: i32) -> Option<i32> {
    match op {
        BinOp::Add => Some(vstd::wrapping::i32_specs::wrapping_add(l, r)),
        BinOp::Sub => Some(vstd::wrapping::i32_specs::wrapping_sub(l, r)),
        BinOp::Mul => Some(vstd::wrapping::i32_specs::wrapping_mul(l, r)),
        BinOp::Div => if r == 0 {
            None
        } else {
            Some(div_trunc(l, r))
        },
        BinOp::And => Some(l & r),
        BinOp::Or => Some(l | r),
        BinOp::Eq => Some(
            if l == r {
                1
            } else {
                0
            },
        ),
        BinOp::Ne => Some(
            if l != r {
                1
            } else {
                0
            },
        ),
        BinOp::Lt => Some(
            if l < r {
                1
            } else {
                0
            },
        ),
    }
}

/// One machine state.
#[verifier::ext_equal]
pub enum MachineState {
    Running { block: int, instr: int, vals: Map<int, i32>, mem: Map<int, i32> },
    Done { ret: i32 },
    Fault,
    Stuck,
}

/// Resolves a block's joins on entry from block `from`, in order.
pub open spec fn apply_phis(phis: Seq<Phi>, from: int, vals: Map<int, i32>) -> Option<
    Map<int, i32>,
>
    decreases phis.len(),
{
    if phis.len() == 0 {
        Some(vals)
    } else {
        let p = phis[0];
        let picked: Option<int> = if from == p.a_block as int {
            Some(p.a_val as int)
        } else if from == p.b_block as int {
            Some(p.b_val as int)
        } else {
            None
        };
        match picked {
            Some(src) => if vals.dom().contains(src) {
                apply_phis(phis.drop_first(), from, vals.insert(p.dst as int, vals[src]))
            } else {
                None
            },
            None => None,
        }
    }
}

/// Entering a block along a control-flow edge.
pub open spec fn enter_block(
    blocks: Seq<BlockV>,
    from: int,
    target: int,
    vals: Map<int, i32>,
    mem: Map<int, i32>,
) -> MachineState {
    if 0 <= target < blocks.len() {
        match apply_phis(blocks[target].phis, from, vals) {
            Some(vals2) => MachineState::Running { block: target, instr: 0, vals: vals2, mem },
            None => MachineState::Stuck,
        }
    } else {
        MachineState::Stuck
    }
}

/// One machine step.  Finished, faulted and stuck states absorb.
pub open spec fn step(blocks: Seq<BlockV>, s: MachineState) -> MachineState {
    match s {
        MachineState::Running { block, instr, vals, mem } => {
            if !(0 <= block < blocks.len()) || instr < 0 {
                MachineState::Stuck
            } else {
                let b = blocks[block];
                if instr < b.instrs.len() {
                    match b.instrs[instr] {
                        Instr::Const { dst, value } => MachineState::Running {
                            block,
                            instr: instr + 1,
                            vals: vals.insert(dst as int, value),
                            mem,
                        },
                        Instr::Load { dst, slot } => if mem.dom().contains(slot as int) {
                            MachineState::Running {
                                block,
                                instr: instr + 1,
                                vals: vals.insert(dst as int, mem[slot as int]),
                                mem,
                            }
                        } else {
                            MachineState::Stuck
                        },
                        Instr::Store { slot, src } => if vals.dom().contains(src as int) {
                            MachineState::Running {
                                block,
                                instr: instr + 1,
                                vals,
                                mem: mem.insert(slot as int, vals[src as int]),
                            }
                        } else {
                            MachineState::Stuck
                        },
                        Instr::Bin { dst, op, lhs, rhs } => if vals.dom().contains(lhs as int)
                            && vals.dom().contains(rhs as int) {
                            match bin_eval(op, vals[lhs as int], vals[rhs as int]) {
                                Some(v) => MachineState::Running {
                                    block,
                                    instr: instr + 1,
                                    vals: vals.insert(dst as int, v),
                                    mem,
                                },
                                None => MachineState::Fault,
                            }
                        } else {
                            MachineState::Stuck
                        },
                        Instr::NotOp { dst, src } => if vals.dom().contains(src as int) {
                            MachineState::Running {
                                block,
                                instr: instr + 1,
                                vals: vals.insert(
                                    dst as int,
                                    if vals[src as int] == 0 {
                                        1
                                    } else {
                                        0
                                    },
                                ),
                                mem,
                            }
                        } else {
                            MachineState::Stuck
                        },
                    }
                } else if instr == b.instrs.len() {
                    match b.term {
                        None => MachineState::Stuck,
                        Some(Terminator::Ret { val }) => if vals.dom().contains(val as int) {
                            MachineState::Done { ret: vals[val as int] }
                        } else {
                            MachineState::Stuck
                        },
                        Some(Terminator::Jump { target }) => enter_block(
                            blocks,
                            block,
                            target as int,
                            vals,
                            mem,
                        ),
                        Some(Terminator::Branch { cond, then_target, else_target }) => if vals.dom(
                        ).contains(cond as int) {
                            enter_block(
                                blocks,
                                block,
                                if vals[cond as int] != 0 {
                                    then_target as int
                                } else {
                                    else_target as int
                                },
                                vals,
                                mem,
                            )
                        } else {
                            MachineState::Stuck
                        },
                    }
                } else {
                    MachineState::Stuck
                }
            }
        },
        _ => s,
    }
}

/// `n` machine steps.
pub open spec fn stepn(blocks: Seq<BlockV>, s: MachineState, n: nat) -> MachineState
    decreases n,
{
    if n == 0 {
        s
    } else {
        stepn(blocks, step(blocks, s), (n - 1) as nat)
    }
}

/// The machine can walk from `s1` to `s2`.
pub open spec fn reaches(blocks: Seq<BlockV>, s1: MachineState, s2: MachineState) -> bool {
    exists|n: nat| stepn(blocks, s1, n) == s2
}

/// Stepping composes.
pub proof fn lemma_stepn_add(blocks: Seq<BlockV>, s: MachineState, a: nat, b: nat)
    ensures
        stepn(blocks, s, a + b) == stepn(blocks, stepn(blocks, s, a), b),
    decreases a,
{
    if a > 0 {
        lemma_stepn_add(blocks, step(blocks, s), (a - 1) as nat, b);
    }
}

/// A state reaches itself.
pub proof fn lemma_reaches_refl(blocks: Seq<BlockV>, s: MachineState)
    ensures
        reaches(blocks, s, s),
{
    assert(stepn(blocks, s, 0) == s);
}

/// One step is a walk.
pub proof fn lemma_reaches_step(blocks: Seq<BlockV>, s: MachineState)
    ensures
        reaches(blocks, s, step(blocks, s)),
{
    assert(stepn(blocks, step(blocks, s), 0) == step(blocks, s));
    assert(stepn(blocks, s, 1) == step(blocks, s));
}

/// Walks chain.
pub proof fn lemma_reaches_trans(
    blocks: Seq<BlockV>,
    s1: MachineState,
    s2: MachineState,
    s3: MachineState,
)
    requires
        reaches(blocks, s1, s2),
        reaches(blocks, s2, s3),
    ensures
        reaches(blocks, s1, s3),
{
    let a = choose|n: nat| stepn(blocks, s1, n) == s2;
    let b = choose|n: nat| stepn(blocks, s2, n) == s3;
    lemma_stepn_add(blocks, s1, a, b);
    assert(stepn(blocks, s1, a + b) == s3);
}

/// Finished, faulted and stuck states stay what they are.
proof fn lemma_absorbing_n(blocks: Seq<BlockV>, s: MachineState, n: nat)
    requires
        !(s is Running),
    ensures
        stepn(blocks, s, n) == s,
    decreases n,
{
    if n > 0 {
        lemma_absorbing_n(blocks, s, (n - 1) as nat);
    }
}

} // verus!

verus! {

/// The machine is deterministic: from one state it can reach at most
/// one resting outcome, so a value the interpreter reports is the
/// only value the program can have.
pub proof fn lemma_outcome_unique(blocks: Seq<BlockV>, s: MachineState, o1: MachineState, o2: MachineState)
    requires
        !(o1 is Running),
        !(o2 is Running),
        reaches(blocks, s, o1),
        reaches(blocks, s, o2),
    ensures
        o1 == o2,
{
    let n1 = choose|n: nat| stepn(blocks, s, n) == o1;
    let n2 = choose|n: nat| stepn(blocks, s, n) == o2;
    if n1 <= n2 {
        lemma_stepn_add(blocks, s, n1, (n2 - n1) as nat);
        lemma_absorbing_n(blocks, o1, (n2 - n1) as nat);
    } else {
        lemma_stepn_add(blocks, s, n2, (n1 - n2) as nat);
        lemma_absorbing_n(blocks, o2, (n1 - n2) as nat);
    }
}

} // verus!
