//! An executable runner for compiled programs, verified against the
//! machine semantics: whatever it reports, the machine reaches.

use vstd::prelude::*;
use crate::compiler::ir::{BinOp, Instr, Program, ProgramV, Terminator};
use crate::semantics::machine::{
    apply_phis, bin_eval, div_trunc, enter_block, iabs, lemma_reaches_step, lemma_reaches_trans,
    reaches, step, tdiv, MachineState,
};

verus! {

/// How a bounded run of a program ended.
#[derive(Clone, Copy, Debug, PartialEq, Eq, Structural)]
pub enum RunOutcome {
    /// The program returned this value.
    Finished(i32),
    /// The one run-time fault: division by zero.
    Faulted,
    /// The program is ill-formed: it read something never written or
    /// walked off its code.
    Stuck,
    /// The step budget ran out first.
    OutOfSteps,
}

/// The machine state a program starts in: its entry block, nothing
/// defined, nothing stored.
pub open spec fn start_state(p: ProgramV) -> MachineState {
    MachineState::Running {
        block: 0,
        instr: 0,
        vals: Map::empty(),
        mem: Map::empty(),
    }
}

/// The partial map a table of optional values stands for.
pub open spec fn val_map(v: Seq<Option<i32>>) -> Map<int, i32> {
    Map::new(|i: int| 0 <= i < v.len() && v[i] is Some, |i: int| v[i]->0)
}

/// Reads an entry of a value table.
fn get_at(v: &Vec<Option<i32>>, i: usize) -> (r: Option<i32>)
    ensures
        match r {
            Some(x) => val_map(v@).dom().contains(i as int) && val_map(v@)[i as int] == x,
            None => !val_map(v@).dom().contains(i as int),
        },
{
    if i < v.len() {
        v[i]
    } else {
        None
    }
}

/// Writes an entry of a value table, growing it as needed.
fn set_at(v: &mut Vec<Option<i32>>, i: usize, x: i32)
    ensures
        val_map(final(v)@) == val_map(old(v)@).insert(i as int, x),
{
    while v.len() <= i
        invariant
            val_map(v@) == val_map(old(v)@),
        decreases i + 1 - v@.len(),
    {
        let ghost pre = v@;
        v.push(None);
        proof {
            assert(val_map(v@) =~= val_map(pre));
        }
    }
    let ghost pre = v@;
    v.set(i, Some(x));
    proof {
        assert(val_map(v@) =~= val_map(pre).insert(i as int, x));
    }
}

/// Signed 32-bit division truncating toward zero; the one
/// overflowing quotient wraps.
fn div_i32(l: i32, r: i32) -> (q: i32)
    requires
        r != 0,
    ensures
        q == div_trunc(l, r),
{
    if l == i32::MIN && r == -1 {
        proof {
            assert(tdiv(l as int, r as int) == 0x8000_0000);
            assert(div_trunc(l, r) == i32::MIN) by {
                assert(0x8000_0000int % 0x1_0000_0000int == 0x8000_0000int);
            }
        }
        return i32::MIN;
    }
    let la: u32 = if l >= 0 {
        l as u32
    } else {
        (-(l as i64)) as u32
    };
    let ra: u32 = if r >= 0 {
        r as u32
    } else {
        (-(r as i64)) as u32
    };
    proof {
        assert(la == iabs(l as int));
        assert(ra == iabs(r as int));
    }
    let q: u32 = la / ra;
    proof {
        assert(q == iabs(l as int) / iabs(r as int));
        vstd::arithmetic::div_mod::lemma_fundamental_div_mod(la as int, ra as int);
        vstd::arithmetic::div_mod::lemma_mod_bound(la as int, ra as int);
        assert(ra as int * (q as int) <= la);
    }
    if (l < 0) != (r < 0) {
        proof {
            assert(tdiv(l as int, r as int) == -(q as int));
            assert(q <= 0x8000_0000u32);
            assert(div_trunc(l, r) == -(q as int)) by {
                let x = -(q as int);
                assert(-0x8000_0000 <= x <= 0);
                if x < 0 {
                    assert(x % 0x1_0000_0000int == x + 0x1_0000_0000int);
                } else {
                    assert(x % 0x1_0000_0000int == x);
                }
            }
        }
        (-(q as i64)) as i32
    } else {
        proof {
            assert(tdiv(l as int, r as int) == q as int);
            assert(q <= 0x7FFF_FFFFu32) by {
                if ra == 1 {
                    assert(iabs(r as int) == 1);
                    assert(r == 1 || r == -1);
                    if r == 1 {
                        assert(l >= 0);
                        assert(la <= 0x7FFF_FFFFu32);
                        assert(q == la as int / 1);
                    } else {
                        assert(l < 0);
                        assert(l != i32::MIN);
                        assert(la <= 0x7FFF_FFFFu32);
                        assert(q == la as int / 1);
                    }
                } else {
                    assert(ra >= 2);
                    assert(la <= 0x8000_0000u32);
                    assert(2 * (q as int) <= ra as int * (q as int)) by (nonlinear_arith)
                        requires
                            ra >= 2,
                            q >= 0,
                    ;
                    assert(2 * (q as int) <= la as int);
                }
            }
            assert(div_trunc(l, r) == q as int) by {
                assert((q as int) % 0x1_0000_0000int == q as int);
            }
        }
        q as i32
    }
}

/// Applies a machine operation; faults are ruled out by the caller.
fn bin_exec(op: BinOp, l: i32, r: i32) -> (v: i32)
    requires
        !(op is Div && r == 0),
    ensures
        bin_eval(op, l, r) == Some(v),
{
    match op {
        BinOp::Add => l.wrapping_add(r),
        BinOp::Sub => l.wrapping_sub(r),
        BinOp::Mul => l.wrapping_mul(r),
        BinOp::Div => div_i32(l, r),
        BinOp::And => l & r,
        BinOp::Or => l | r,
        BinOp::Eq => if l == r {
            1
        } else {
            0
        },
        BinOp::Ne => if l != r {
            1
        } else {
            0
        },
        BinOp::Lt => if l < r {
            1
        } else {
            0
        },
    }
}

/// Runs a program from its entry for at most `max_steps` machine
/// steps.  Whatever it reports — a returned value, the run-time
/// fault, or ill-formed code — the machine semantics reaches the
/// same end from the program's start state.
pub fn interpret(p: &Program, max_steps: usize) -> (r: RunOutcome)
    ensures
        match r {
            RunOutcome::Finished(v) => reaches(
                p@.blocks,
                start_state(p@),
                MachineState::Done { ret: v },
            ),
            RunOutcome::Faulted => reaches(p@.blocks, start_state(p@), MachineState::Fault),
            RunOutcome::Stuck => reaches(p@.blocks, start_state(p@), MachineState::Stuck),
            RunOutcome::OutOfSteps => true,
        },
{
    let ghost blocks = p@.blocks;
    let mut cur_block: usize = 0;
    let mut cur_instr: usize = 0;
    let mut vals: Vec<Option<i32>> = Vec::new();
    let mut mem: Vec<Option<i32>> = Vec::new();
    let mut steps: usize = 0;
    proof {
        assert(val_map(vals@) =~= Map::<int, i32>::empty());
        assert(val_map(mem@) =~= Map::<int, i32>::empty());
        crate::semantics::machine::lemma_reaches_refl(blocks, start_state(p@));
    }
    loop
        invariant
            blocks == p@.blocks,
            reaches(
                blocks,
                start_state(p@),
                MachineState::Running {
                    block: cur_block as int,
                    instr: cur_instr as int,
                    vals: val_map(vals@),
                    mem: val_map(mem@),
                },
            ),
            steps <= max_steps,
        decreases max_steps - steps,
    {
        let ghost st = MachineState::Running {
            block: cur_block as int,
            instr: cur_instr as int,
            vals: val_map(vals@),
            mem: val_map(mem@),
        };
        proof {
            lemma_reaches_step(blocks, st);
        }
        if steps >= max_steps {
            return RunOutcome::OutOfSteps;
        }
        steps += 1;
        if cur_block >= p.blocks.len() {
            proof {
                lemma_reaches_trans(blocks, start_state(p@), st, MachineState::Stuck);
            }
            return RunOutcome::Stuck;
        }
        let b = &p.blocks[cur_block];
        proof {
            assert(blocks[cur_block as int] == b@);
        }
        if cur_instr < b.instrs.len() {
            let ins = b.instrs[cur_instr];
            match ins {
                Instr::Const { dst, value } => {
                    set_at(&mut vals, dst, value);
                    cur_instr += 1;
                },
                Instr::Load { dst, slot } => {
                    match get_at(&mem, slot) {
                        Some(x) => {
                            set_at(&mut vals, dst, x);
                            cur_instr += 1;
                        },
                        None => {
                            proof {
                                lemma_reaches_trans(
                                    blocks,
                                    start_state(p@),
                                    st,
                                    MachineState::Stuck,
                                );
                            }
                            return RunOutcome::Stuck;
                        },
                    }
                },
                Instr::Store { slot, src } => {
                    match get_at(&vals, src) {
                        Some(x) => {
                            set_at(&mut mem, slot, x);
                            cur_instr += 1;
                        },
                        None => {
                            proof {
                                lemma_reaches_trans(
                                    blocks,
                                    start_state(p@),
                                    st,
                                    MachineState::Stuck,
                                );
                            }
                            return RunOutcome::Stuck;
                        },
                    }
                },
                Instr::Bin { dst, op, lhs, rhs } => {
                    let lx = match get_at(&vals, lhs) {
                        Some(x) => x,
                        None => {
                            proof {
                                lemma_reaches_trans(
                                    blocks,
                                    start_state(p@),
                                    st,
                                    MachineState::Stuck,
                                );
                            }
                            return RunOutcome::Stuck;
                        },
                    };
                    let rx = match get_at(&vals, rhs) {
                        Some(x) => x,
                        None => {
                            proof {
                                lemma_reaches_trans(
                                    blocks,
                                    start_state(p@),
                                    st,
                                    MachineState::Stuck,
                                );
                            }
                            return RunOutcome::Stuck;
                        },
                    };
                    if let BinOp::Div = op {
                        if rx == 0 {
                            proof {
                                lemma_reaches_trans(
                                    blocks,
                                    start_state(p@),
                                    st,
                                    MachineState::Fault,
                                );
                            }
                            return RunOutcome::Faulted;
                        }
                    }
                    let v = bin_exec(op, lx, rx);
                    set_at(&mut vals, dst, v);
                    cur_instr += 1;
                },
                Instr::NotOp { dst, src } => {
                    match get_at(&vals, src) {
                        Some(x) => {
                            let v: i32 = if x == 0 {
                                1
                            } else {
                                0
                            };
                            set_at(&mut vals, dst, v);
                            cur_instr += 1;
                        },
                        None => {
                            proof {
                                lemma_reaches_trans(
                                    blocks,
                                    start_state(p@),
                                    st,
                                    MachineState::Stuck,
                                );
                            }
                            return RunOutcome::Stuck;
                        },
                    }
                },
            }
            proof {
                assert(step(blocks, st) == (MachineState::Running {
                    block: cur_block as int,
                    instr: cur_instr as int,
                    vals: val_map(vals@),
                    mem: val_map(mem@),
                }));
                lemma_reaches_trans(blocks, start_state(p@), st, step(blocks, st));
            }
        } else if cur_instr == b.instrs.len() {
            let term = match b.term {
                Some(t) => t,
                None => {
                    proof {
                        lemma_reaches_trans(blocks, start_state(p@), st, MachineState::Stuck);
                    }
                    return RunOutcome::Stuck;
                },
            };
            let (from, target): (usize, usize) = match term {
                Terminator::Ret { val } => {
                    match get_at(&vals, val) {
                        Some(x) => {
                            proof {
                                lemma_reaches_trans(
                                    blocks,
                                    start_state(p@),
                                    st,
                                    MachineState::Done { ret: x },
                                );
                            }
                            return RunOutcome::Finished(x);
                        },
                        None => {
                            proof {
                                lemma_reaches_trans(
                                    blocks,
                                    start_state(p@),
                                    st,
                                    MachineState::Stuck,
                                );
                            }
                            return RunOutcome::Stuck;
                        },
                    }
                },
                Terminator::Jump { target } => (cur_block, target),
                Terminator::Branch { cond, then_target, else_target } => {
                    match get_at(&vals, cond) {
                        Some(c) => (
                            cur_block,
                            if c != 0 {
                                then_target
                            } else {
                                else_target
                            },
                        ),
                        None => {
                            proof {
                                lemma_reaches_trans(
                                    blocks,
                                    start_state(p@),
                                    st,
                                    MachineState::Stuck,
                                );
                            }
                            return RunOutcome::Stuck;
                        },
                    }
                },
            };
            // entering the target block resolves its joins by the
            // edge taken
            if target >= p.blocks.len() {
                proof {
                    assert(step(blocks, st) == MachineState::Stuck);
                    lemma_reaches_trans(blocks, start_state(p@), st, MachineState::Stuck);
                }
                return RunOutcome::Stuck;
            }
            let tblock = &p.blocks[target];
            let ghost m0 = val_map(vals@);
            let n_phis = tblock.phis.len();
            let mut k: usize = 0;
            proof {
                assert(blocks[target as int] == tblock@);
                assert(tblock@.phis.skip(0) =~= tblock@.phis);
            }
            while k < n_phis
                invariant
                    k <= tblock@.phis.len(),
                    n_phis == tblock@.phis.len(),
                    tblock@ == blocks[target as int],
                    blocks == p@.blocks,
                    0 <= (target as int) < blocks.len(),
                    apply_phis(tblock@.phis, from as int, m0) == apply_phis(
                        tblock@.phis.skip(k as int),
                        from as int,
                        val_map(vals@),
                    ),
                    reaches(blocks, start_state(p@), st),
                    step(blocks, st) == enter_block(
                        blocks,
                        from as int,
                        target as int,
                        m0,
                        val_map(mem@),
                    ),
                decreases n_phis - k,
            {
                let ph = tblock.phis[k];
                let picked: usize = if from == ph.a_block {
                    ph.a_val
                } else if from == ph.b_block {
                    ph.b_val
                } else {
                    proof {
                        assert(tblock@.phis.skip(k as int)[0] == tblock@.phis[k as int]);
                        assert(apply_phis(
                            tblock@.phis.skip(k as int),
                            from as int,
                            val_map(vals@),
                        ) is None);
                        assert(step(blocks, st) == MachineState::Stuck);
                        lemma_reaches_step(blocks, st);
                        lemma_reaches_trans(blocks, start_state(p@), st, MachineState::Stuck);
                    }
                    return RunOutcome::Stuck;
                };
                proof {
                    assert(tblock@.phis.skip(k as int)[0] == tblock@.phis[k as int]);
                }
                match get_at(&vals, picked) {
                    Some(x) => {
                        set_at(&mut vals, ph.dst, x);
                        proof {
                            assert(tblock@.phis.skip(k as int).drop_first() =~= tblock@.phis.skip(
                                k + 1,
                            ));
                        }
                        k += 1;
                    },
                    None => {
                        proof {
                            assert(apply_phis(
                                tblock@.phis.skip(k as int),
                                from as int,
                                val_map(vals@),
                            ) is None);
                            assert(step(blocks, st) == MachineState::Stuck);
                            lemma_reaches_step(blocks, st);
                            lemma_reaches_trans(blocks, start_state(p@), st, MachineState::Stuck);
                        }
                        return RunOutcome::Stuck;
                    },
                }
            }
            proof {
                assert(tblock@.phis.skip(n_phis as int) =~= Seq::<
                    crate::compiler::ir::Phi,
                >::empty());
                assert(apply_phis(tblock@.phis, from as int, m0) == Some(val_map(vals@)));
                assert(step(blocks, st) == (MachineState::Running {
                    block: target as int,
                    instr: 0,
                    vals: val_map(vals@),
                    mem: val_map(mem@),
                }));
                lemma_reaches_trans(blocks, start_state(p@), st, step(blocks, st));
            }
            cur_block = target;
            cur_instr = 0;
        } else {
            proof {
                lemma_reaches_trans(blocks, start_state(p@), st, MachineState::Stuck);
            }
            return RunOutcome::Stuck;
        }
    }
}

} // verus!
