//! The translator: walks a program once and appends, for each instruction,
//! the low-level operations that implement it.
//!
//! Jump operands are raw bytecode offsets, not instruction indices: each
//! logical instruction occupies two raw offsets (opcode and operand), so the
//! label table registers the same instruction under both of its offsets. A
//! jump target can then be looked up by raw offset directly. All labels are
//! created before any instruction is translated, so out-of-order and backward
//! targets resolve alike.

use vstd::prelude::*;

use crate::machine::{Op, Reg};
use crate::vm::{instr_wf, prog_wf, uses_combo, Instr};

verus! {

/// Why a program cannot be translated; `index` names the offending
/// instruction. A combo operand of 7 is undefined; a jump target beyond the
/// registered labels has nowhere to land.
#[derive(Clone, Copy, PartialEq, Eq, Structural, Debug)]
pub enum EmitError {
    InvalidOpcode { index: usize },
    InvalidOperand { index: usize },
    InvalidCombo { index: usize },
    UnregisteredTarget { index: usize },
}

/// The translated program: the flat operation stream, the bound position of
/// each instruction's label, and the label table keyed by raw offset.
#[derive(Debug)]
pub struct Compiled {
    pub ops: Vec<Op>,
    pub starts: Vec<usize>,
    pub labels: Vec<usize>,
}

/// Operations that place a resolved combo operand in `dst`: a literal load
/// for 0..3, a register move for 4..6 — skipped when the source already is
/// the destination.
pub open spec fn load_ops(dst: Reg, combo: u8) -> Seq<Op> {
    if combo <= 3 {
        seq![Op::MovImm(dst, combo as u64)]
    } else if combo == 4 {
        if dst == Reg::A {
            Seq::empty()
        } else {
            seq![Op::MovReg(dst, Reg::A)]
        }
    } else if combo == 5 {
        if dst == Reg::B {
            Seq::empty()
        } else {
            seq![Op::MovReg(dst, Reg::B)]
        }
    } else {
        if dst == Reg::C {
            Seq::empty()
        } else {
            seq![Op::MovReg(dst, Reg::C)]
        }
    }
}

/// The operations emitted for one instruction. `tgt` is the resolved
/// operation index of the jump target; only a jump (opcode 3) reads it.
pub open spec fn block_ops(i: Instr, tgt: usize) -> Seq<Op> {
    let x = i.operand;
    if i.opcode == 0 {
        load_ops(Reg::S, x) + seq![Op::Shr(Reg::A)]
    } else if i.opcode == 1 {
        seq![Op::XorImm(Reg::B, x as u64)]
    } else if i.opcode == 2 {
        load_ops(Reg::B, x) + seq![Op::And7(Reg::B)]
    } else if i.opcode == 3 {
        seq![Op::Jnz(tgt)]
    } else if i.opcode == 4 {
        seq![Op::XorReg(Reg::B, Reg::C)]
    } else if i.opcode == 5 {
        load_ops(Reg::S, x) + seq![Op::And7(Reg::S), Op::Out(Reg::S)]
    } else if i.opcode == 6 {
        load_ops(Reg::S, x) + seq![Op::MovReg(Reg::B, Reg::A), Op::Shr(Reg::B)]
    } else {
        load_ops(Reg::S, x) + seq![Op::MovReg(Reg::C, Reg::A), Op::Shr(Reg::C)]
    }
}

pub open spec fn block_len(i: Instr) -> nat {
    block_ops(i, 0).len()
}

/// The length of a block does not depend on the resolved jump target.
pub proof fn lemma_block_ops_len(i: Instr, tgt: usize)
    ensures
        block_ops(i, tgt).len() == block_len(i),
{
}

/// Every block is one to three operations long.
pub proof fn lemma_block_len_bounds(i: Instr)
    ensures
        1 <= block_len(i) <= 3,
{
}

/// Position of the first operation emitted for instruction `i`: the sum of
/// the block lengths of all earlier instructions. At `i == p.len()` this is
/// the length of the whole stream.
pub open spec fn start_of(p: Seq<Instr>, i: int) -> nat
    decreases i,
{
    if i <= 0 {
        0
    } else {
        start_of(p, i - 1) + block_len(p[i - 1])
    }
}

/// The resolved operation index that the jump in instruction `i` lands on:
/// the start of the instruction registered for raw offset `p[i].operand`,
/// which is instruction `operand / 2`.
pub open spec fn jump_target(p: Seq<Instr>, i: int) -> usize {
    start_of(p, p[i].operand as int / 2) as usize
}

/// The operation stream for the first `i` instructions.
pub open spec fn ops_upto(p: Seq<Instr>, i: int) -> Seq<Op>
    decreases i,
{
    if i <= 0 {
        Seq::empty()
    } else {
        ops_upto(p, i - 1) + block_ops(p[i - 1], jump_target(p, i - 1))
    }
}

/// The operation stream for the whole program.
pub open spec fn compiled_ops(p: Seq<Instr>) -> Seq<Op> {
    ops_upto(p, p.len() as int)
}

/// The label table: raw offsets `2i` and `2i + 1` both name instruction `i`.
pub open spec fn labels_spec(p: Seq<Instr>) -> Seq<usize> {
    Seq::new(2 * p.len(), |k: int| (k / 2) as usize)
}

/// The bound position of each instruction's label.
pub open spec fn starts_spec(p: Seq<Instr>) -> Seq<usize> {
    Seq::new(p.len(), |i: int| start_of(p, i) as usize)
}

/// Start positions never decrease along the program.
pub proof fn lemma_start_of_monotone(p: Seq<Instr>, i: int, j: int)
    requires
        0 <= i <= j,
    ensures
        start_of(p, i) <= start_of(p, j),
    decreases j,
{
    if i < j {
        lemma_start_of_monotone(p, i, j - 1);
    }
}

/// Start positions are bounded by three operations per instruction.
pub proof fn lemma_start_of_le(p: Seq<Instr>, i: int)
    requires
        0 <= i,
    ensures
        start_of(p, i) <= 3 * i,
    decreases i,
{
    if i > 0 {
        lemma_start_of_le(p, i - 1);
        lemma_block_len_bounds(p[i - 1]);
    }
}

/// The stream for the first `i` instructions is `start_of(p, i)` long.
pub proof fn lemma_ops_upto_len(p: Seq<Instr>, i: int)
    ensures
        ops_upto(p, i).len() == start_of(p, i),
    decreases i,
{
    if i > 0 {
        lemma_ops_upto_len(p, i - 1);
        lemma_block_ops_len(p[i - 1], jump_target(p, i - 1));
    }
}

/// A shorter prefix of the stream agrees with a longer one.
pub proof fn lemma_ops_upto_prefix(p: Seq<Instr>, i: int, j: int)
    requires
        0 <= i <= j,
    ensures
        forall|m: int|
            0 <= m < ops_upto(p, i).len() ==> #[trigger] ops_upto(p, j)[m] == ops_upto(p, i)[m],
    decreases j,
{
    if i < j {
        lemma_ops_upto_prefix(p, i, j - 1);
        lemma_ops_upto_len(p, i);
        lemma_ops_upto_len(p, j - 1);
        lemma_start_of_monotone(p, i, j - 1);
        assert forall|m: int| 0 <= m < ops_upto(p, i).len() implies #[trigger] ops_upto(p, j)[m]
            == ops_upto(p, i)[m] by {
            assert(ops_upto(p, j)[m] == ops_upto(p, j - 1)[m]);
        }
    }
}

/// Within the whole stream, the operations of instruction `i` stand at its
/// start position, exactly as `block_ops` lays them out.
pub proof fn lemma_block_at(p: Seq<Instr>, i: int)
    requires
        0 <= i < p.len(),
    ensures
        start_of(p, i) + block_len(p[i]) <= compiled_ops(p).len(),
        forall|j: int|
            0 <= j < block_len(p[i]) ==> #[trigger] compiled_ops(p)[start_of(p, i) + j]
                == block_ops(p[i], jump_target(p, i))[j],
        compiled_ops(p)[start_of(p, i) as int] == block_ops(p[i], jump_target(p, i))[0],
{
    lemma_block_len_bounds(p[i]);
    assert(start_of(p, i) as int == start_of(p, i) + 0);
    lemma_ops_upto_len(p, i);
    lemma_ops_upto_len(p, i + 1);
    lemma_block_ops_len(p[i], jump_target(p, i));
    lemma_ops_upto_prefix(p, i + 1, p.len() as int);
    assert forall|j: int| 0 <= j < block_len(p[i]) implies #[trigger] compiled_ops(p)[start_of(
        p,
        i,
    ) + j] == block_ops(p[i], jump_target(p, i))[j] by {
        assert(ops_upto(p, i + 1)[start_of(p, i) + j] == block_ops(p[i], jump_target(p, i))[j]);
        assert(compiled_ops(p)[start_of(p, i) + j] == ops_upto(p, i + 1)[start_of(p, i) + j]);
    }
    lemma_start_of_monotone(p, i + 1, p.len() as int);
    lemma_ops_upto_len(p, p.len() as int);
}

/// The label table invariant: an instruction occupies two raw offsets, and
/// looking either of them up in the table yields the same label — the
/// instruction's own index — whose bound position is exactly where the first
/// operation emitted for that instruction stands in the stream.
pub proof fn lemma_label_table_invariant(p: Seq<Instr>, i: int)
    requires
        0 <= i < p.len(),
    ensures
        labels_spec(p).len() == 2 * p.len(),
        labels_spec(p)[2 * i] == i as usize,
        labels_spec(p)[2 * i + 1] == i as usize,
        starts_spec(p)[i] == start_of(p, i) as usize,
        ops_upto(p, i).len() == start_of(p, i),
        start_of(p, i) < compiled_ops(p).len(),
        compiled_ops(p)[start_of(p, i) as int] == block_ops(p[i], jump_target(p, i))[0],
{
    lemma_block_at(p, i);
    lemma_block_len_bounds(p[i]);
    lemma_ops_upto_len(p, i);
}

/// The translation-time check of one instruction, and the error it reports.
pub open spec fn instr_error(i: Instr, idx: usize, n: nat) -> Option<EmitError> {
    if i.opcode >= 8 {
        Some(EmitError::InvalidOpcode { index: idx })
    } else if i.operand >= 8 {
        Some(EmitError::InvalidOperand { index: idx })
    } else if uses_combo(i.opcode) && i.operand == 7 {
        Some(EmitError::InvalidCombo { index: idx })
    } else if i.opcode == 3 && (i.operand as nat) >= 2 * n {
        Some(EmitError::UnregisteredTarget { index: idx })
    } else {
        None
    }
}

/// The first translation error of the program at or after instruction `k`.
pub open spec fn scan_error(p: Seq<Instr>, k: int) -> Option<EmitError>
    decreases p.len() - k,
{
    if !(0 <= k < p.len()) {
        None
    } else {
        match instr_error(p[k], k as usize, p.len() as nat) {
            Some(e) => Some(e),
            None => scan_error(p, k + 1),
        }
    }
}

fn emit_load(ops: &mut Vec<Op>, dst: Reg, combo: u8) -> (emitted: usize)
    requires
        combo < 7,
    ensures
        final(ops)@ == old(ops)@ + load_ops(dst, combo),
        emitted == load_ops(dst, combo).len(),
{
    let ghost prev = ops@;
    if combo <= 3 {
        ops.push(Op::MovImm(dst, combo as u64));
        proof {
            assert(ops@ =~= prev + load_ops(dst, combo));
        }
        1
    } else {
        let src = if combo == 4 {
            Reg::A
        } else if combo == 5 {
            Reg::B
        } else {
            Reg::C
        };
        if dst != src {
            ops.push(Op::MovReg(dst, src));
            proof {
                assert(ops@ =~= prev + load_ops(dst, combo));
            }
            1
        } else {
            proof {
                assert(ops@ =~= prev + load_ops(dst, combo));
            }
            0
        }
    }
}

/// Appends the block for one instruction; `tgt` must already be the resolved
/// target position when the instruction is a jump.
fn emit_block(ops: &mut Vec<Op>, i: Instr, tgt: usize)
    requires
        i.opcode < 8,
        i.operand < 8,
        uses_combo(i.opcode) ==> i.operand != 7,
    ensures
        final(ops)@ == old(ops)@ + block_ops(i, tgt),
{
    let ghost prev = ops@;
    let x = i.operand;
    if i.opcode == 0 {
        emit_load(ops, Reg::S, x);
        ops.push(Op::Shr(Reg::A));
    } else if i.opcode == 1 {
        ops.push(Op::XorImm(Reg::B, x as u64));
    } else if i.opcode == 2 {
        emit_load(ops, Reg::B, x);
        ops.push(Op::And7(Reg::B));
    } else if i.opcode == 3 {
        ops.push(Op::Jnz(tgt));
    } else if i.opcode == 4 {
        ops.push(Op::XorReg(Reg::B, Reg::C));
    } else if i.opcode == 5 {
        emit_load(ops, Reg::S, x);
        ops.push(Op::And7(Reg::S));
        ops.push(Op::Out(Reg::S));
    } else if i.opcode == 6 {
        emit_load(ops, Reg::S, x);
        ops.push(Op::MovReg(Reg::B, Reg::A));
        ops.push(Op::Shr(Reg::B));
    } else {
        emit_load(ops, Reg::S, x);
        ops.push(Op::MovReg(Reg::C, Reg::A));
        ops.push(Op::Shr(Reg::C));
    }
    proof {
        assert(ops@ =~= prev + block_ops(i, tgt));
    }
}

/// Translates a program into its operation stream, label table and label
/// positions. Succeeds exactly on well-formed programs; otherwise reports the
/// first translation error in program order.
pub fn compile(instrs: &Vec<Instr>) -> (r: Result<Compiled, EmitError>)
    requires
        instrs@.len() <= 0x1000_0000,
    ensures
        match r {
            Ok(c) => prog_wf(instrs@) && scan_error(instrs@, 0) is None && c.ops@ == compiled_ops(
                instrs@,
            ) && c.starts@ == starts_spec(instrs@) && c.labels@ == labels_spec(instrs@),
            Err(e) => !prog_wf(instrs@) && scan_error(instrs@, 0) == Some(e),
        },
{
    let ghost p = instrs@;
    let n = instrs.len();

    // Translation-time checks, in program order.
    let mut k: usize = 0;
    while k < n
        invariant
            p == instrs@,
            n == instrs.len(),
            n <= 0x1000_0000,
            k <= n,
            scan_error(p, 0) == scan_error(p, k as int),
            forall|j: int| 0 <= j < k ==> instr_wf(#[trigger] p[j], p.len() as nat),
        decreases n - k,
    {
        let i = instrs[k];
        if i.opcode >= 8 {
            return Err(EmitError::InvalidOpcode { index: k });
        }
        if i.operand >= 8 {
            return Err(EmitError::InvalidOperand { index: k });
        }
        let is_combo = i.opcode == 0 || i.opcode == 2 || i.opcode == 5 || i.opcode == 6
            || i.opcode == 7;
        if is_combo && i.operand == 7 {
            return Err(EmitError::InvalidCombo { index: k });
        }
        if i.opcode == 3 && (i.operand as usize) >= 2 * n {
            return Err(EmitError::UnregisteredTarget { index: k });
        }
        k = k + 1;
    }
    proof {
        assert(prog_wf(p));
    }

    // All labels exist before any instruction is translated: bind each
    // instruction's position and register it under both of its raw offsets.
    let mut starts: Vec<usize> = Vec::new();
    let mut labels: Vec<usize> = Vec::new();
    let mut acc: usize = 0;
    let mut k: usize = 0;
    while k < n
        invariant
            p == instrs@,
            n == instrs.len(),
            n <= 0x1000_0000,
            k <= n,
            prog_wf(p),
            starts@.len() == k,
            forall|j: int| 0 <= j < k ==> starts@[j] == start_of(p, j) as usize,
            acc == start_of(p, k as int),
            acc <= 3 * k,
            labels@.len() == 2 * k,
            forall|m: int| 0 <= m < 2 * k ==> labels@[m] == (m / 2) as usize,
        decreases n - k,
    {
        starts.push(acc);
        labels.push(k);
        labels.push(k);
        let bl = block_len_of(instrs[k]);
        proof {
            lemma_start_of_le(p, k as int);
            lemma_block_len_bounds(p[k as int]);
        }
        acc = acc + bl;
        k = k + 1;
    }
    proof {
        assert(starts@ =~= starts_spec(p));
        assert(labels@ =~= labels_spec(p));
    }

    // Translate each instruction in program order.
    let mut ops: Vec<Op> = Vec::new();
    let mut k: usize = 0;
    while k < n
        invariant
            p == instrs@,
            n == instrs.len(),
            k <= n,
            prog_wf(p),
            starts@ == starts_spec(p),
            labels@ == labels_spec(p),
            ops@ == ops_upto(p, k as int),
        decreases n - k,
    {
        let i = instrs[k];
        proof {
            assert(instr_wf(p[k as int], p.len() as nat));
        }
        let tgt: usize = if i.opcode == 3 {
            let off = i.operand as usize;
            let lab = labels[off];
            starts[lab]
        } else {
            0
        };
        proof {
            if i.opcode == 3 {
                assert(labels_spec(p)[i.operand as int] == (i.operand as int / 2) as usize);
                assert(starts_spec(p)[i.operand as int / 2] == start_of(
                    p,
                    i.operand as int / 2,
                ) as usize);
                assert(tgt == jump_target(p, k as int));
                assert(block_ops(i, tgt) == block_ops(i, jump_target(p, k as int)));
            } else {
                assert(block_ops(i, tgt) == block_ops(i, jump_target(p, k as int)));
            }
        }
        emit_block(&mut ops, i, tgt);
        k = k + 1;
    }
    Ok(Compiled { ops, starts, labels })
}

fn block_len_of(i: Instr) -> (r: usize)
    requires
        i.opcode < 8,
        i.operand < 8,
        uses_combo(i.opcode) ==> i.operand != 7,
    ensures
        r == block_len(i),
        r == block_ops(i, 0).len(),
{
    // Loading a combo operand into the scratch register always takes one
    // operation, since scratch is never the named source register; only a
    // load into B (opcode 2) can be skipped, when the operand names B itself.
    if i.opcode == 0 {
        2
    } else if i.opcode == 1 {
        1
    } else if i.opcode == 2 {
        if i.operand == 5 {
            1
        } else {
            2
        }
    } else if i.opcode == 3 {
        1
    } else if i.opcode == 4 {
        1
    } else {
        3
    }
}

} // verus!
