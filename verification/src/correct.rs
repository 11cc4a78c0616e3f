//! Correctness of the translation: executing the compiled operation stream
//! produces exactly the registers and output tape of the reference VM
//! semantics, in both directions, together with the laws about the label
//! table, shift operands and output masking.

use vstd::prelude::*;

use crate::emit::{
    block_len, block_ops, compiled_ops, jump_target, lemma_block_at, lemma_block_len_bounds,
    lemma_block_ops_len, lemma_ops_upto_len, lemma_start_of_le, lemma_start_of_monotone, load_ops,
    start_of,
};
use crate::machine::{
    lemma_m_halt_stable, lemma_m_out_monotone, lemma_m_run_add, m_halted, m_init, m_run, m_step,
    reg_val, MState, Op, Reg,
};
use crate::vm::{
    combo_of, combo_val, instr_wf, lemma_vm_ip_bounded, prog_wf, shr64, vm_halted, vm_init,
    vm_run, vm_step, Instr, VmState,
};

verus! {

/// Largest program length the translation laws speak of; matches the
/// machine limit the translator itself imposes.
pub open spec fn fits(p: Seq<Instr>) -> bool {
    p.len() <= 0x1000_0000
}

/// The simulation relation: the machine registers and tape agree with the VM
/// state, and the machine stands at the start position of the instruction the
/// VM is about to execute (at the end of the stream once the VM has halted).
pub open spec fn corr(p: Seq<Instr>, s: VmState, m: MState) -> bool {
    &&& 0 <= s.ip <= p.len()
    &&& m.a == s.a
    &&& m.b == s.b
    &&& m.c == s.c
    &&& m.out == s.out
    &&& m.pc == start_of(p, s.ip)
}

/// Machine operations spent on `n` VM steps: the block lengths of the
/// instructions the VM walks through.
pub open spec fn cost(p: Seq<Instr>, s: VmState, n: nat) -> nat
    decreases n,
{
    if n == 0 || vm_halted(p, s) {
        0
    } else {
        block_len(p[s.ip]) + cost(p, vm_step(p, s), (n - 1) as nat)
    }
}

/// Executing the load of a combo operand leaves the operand's current value
/// in the destination register and touches nothing else.
proof fn lemma_load_exec(ops: Seq<Op>, m: MState, dst: Reg, combo: u8)
    requires
        combo < 7,
        0 <= m.pc,
        m.pc + load_ops(dst, combo).len() <= ops.len(),
        forall|j: int|
            0 <= j < load_ops(dst, combo).len() ==> ops[m.pc + j] == load_ops(dst, combo)[j],
    ensures
        ({
            let m2 = m_run(ops, m, load_ops(dst, combo).len());
            &&& m2.pc == m.pc + load_ops(dst, combo).len()
            &&& reg_val(m2, dst) == combo_of(m.a, m.b, m.c, combo)
            &&& forall|r: Reg| r != dst ==> reg_val(m2, r) == reg_val(m, r)
            &&& m2.out == m.out
        }),
{
    let lops = load_ops(dst, combo);
    if lops.len() == 0 {
        assert(m_run(ops, m, 0) == m);
    } else {
        let m1 = m_step(ops, m);
        assert(ops[m.pc] == lops[0]);
        assert(m_run(ops, m1, 0) == m1);
        assert(m_run(ops, m, 1) == m1);
    }
}

/// One VM step corresponds to executing the whole block emitted for the
/// current instruction: the simulation relation is preserved.
pub proof fn lemma_block_step(p: Seq<Instr>, s: VmState, m: MState)
    requires
        prog_wf(p),
        fits(p),
        corr(p, s, m),
        0 <= s.ip < p.len(),
    ensures
        corr(p, vm_step(p, s), m_run(compiled_ops(p), m, block_len(p[s.ip]))),
{
    let ops = compiled_ops(p);
    let i = p[s.ip];
    let x = i.operand;
    let tg = jump_target(p, s.ip);
    let blk = block_ops(i, tg);
    let st = start_of(p, s.ip);
    let bl = block_len(i);
    let s2 = vm_step(p, s);
    assert(instr_wf(i, p.len() as nat));
    lemma_block_at(p, s.ip);
    lemma_block_ops_len(i, tg);
    lemma_vm_ip_bounded(p, s);
    assert(start_of(p, s.ip + 1) == st + bl);
    if i.opcode == 1 {
        let m1 = m_step(ops, m);
        assert(ops[m.pc] == blk[0]);
        assert(m_run(ops, m1, 0) == m1);
        assert(m_run(ops, m, 1) == m1);
    } else if i.opcode == 3 {
        let m1 = m_step(ops, m);
        assert(ops[m.pc] == blk[0]);
        assert(m_run(ops, m1, 0) == m1);
        assert(m_run(ops, m, 1) == m1);
        if s.a != 0 {
            lemma_start_of_monotone(p, x as int / 2, p.len() as int);
            lemma_start_of_le(p, p.len() as int);
            assert(start_of(p, x as int / 2) <= 3 * p.len());
            assert(tg as int == start_of(p, x as int / 2));
            assert(m1.pc == start_of(p, s2.ip));
        }
    } else if i.opcode == 4 {
        let m1 = m_step(ops, m);
        assert(ops[m.pc] == blk[0]);
        assert(m_run(ops, m1, 0) == m1);
        assert(m_run(ops, m, 1) == m1);
    } else {
        // Opcodes 0, 2, 5, 6, 7 start by resolving the combo operand.
        let dst = if i.opcode == 2 {
            Reg::B
        } else {
            Reg::S
        };
        let lops = load_ops(dst, x);
        let llen = lops.len() as int;
        assert(forall|j: int| 0 <= j < llen ==> blk[j] == lops[j]);
        assert(forall|j: int| 0 <= j < llen ==> ops[m.pc + j] == lops[j]);
        lemma_load_exec(ops, m, dst, x);
        let m1 = m_run(ops, m, lops.len());
        let v = combo_val(s, x);
        assert(reg_val(m1, dst) == v);
        if dst == Reg::S {
            assert(reg_val(m1, Reg::A) == reg_val(m, Reg::A));
            assert(reg_val(m1, Reg::B) == reg_val(m, Reg::B));
            assert(reg_val(m1, Reg::C) == reg_val(m, Reg::C));
        } else {
            assert(reg_val(m1, Reg::A) == reg_val(m, Reg::A));
            assert(reg_val(m1, Reg::C) == reg_val(m, Reg::C));
            assert(reg_val(m1, Reg::S) == reg_val(m, Reg::S));
        }
        if i.opcode == 0 {
            // load S; Shr A
            let m2 = m_step(ops, m1);
            assert(ops[st + llen] == blk[llen]);
            assert(blk[llen] == Op::Shr(Reg::A));
            assert(m2.a == shr64(m1.a, m1.s));
            lemma_m_run_add(ops, m, lops.len(), 1);
            assert(m_run(ops, m2, 0) == m2);
            assert(m_run(ops, m1, 1) == m2);
            assert(m_run(ops, m, bl) == m2);
        } else if i.opcode == 2 {
            // load B; And7 B
            let m2 = m_step(ops, m1);
            assert(ops[st + llen] == blk[llen]);
            assert(blk[llen] == Op::And7(Reg::B));
            lemma_m_run_add(ops, m, lops.len(), 1);
            assert(m_run(ops, m2, 0) == m2);
            assert(m_run(ops, m1, 1) == m2);
            assert(m_run(ops, m, bl) == m2);
        } else if i.opcode == 5 {
            // load S; And7 S; Out S
            let m2 = m_step(ops, m1);
            let m3 = m_step(ops, m2);
            assert(ops[st + llen] == blk[llen]);
            assert(blk[llen] == Op::And7(Reg::S));
            assert(ops[st + (llen + 1)] == blk[llen + 1]);
            assert(blk[llen + 1] == Op::Out(Reg::S));
            assert(m2.s == v & 7);
            assert((v & 7) & 0xff == v & 7) by (bit_vector);
            assert(m3.out == m.out.push(((v & 7) & 0xff) as u8));
            lemma_m_run_add(ops, m, lops.len(), 2);
            assert(m_run(ops, m3, 0) == m3);
            assert(m_run(ops, m2, 1) == m3);
            assert(m_run(ops, m1, 2) == m3);
            assert(m_run(ops, m, bl) == m3);
            assert(s2.out == s.out.push((v & 7) as u8));
        } else if i.opcode == 6 {
            // load S; B := A; Shr B
            let m2 = m_step(ops, m1);
            let m3 = m_step(ops, m2);
            assert(ops[st + llen] == blk[llen]);
            assert(blk[llen] == Op::MovReg(Reg::B, Reg::A));
            assert(ops[st + (llen + 1)] == blk[llen + 1]);
            assert(blk[llen + 1] == Op::Shr(Reg::B));
            assert(m2.b == m1.a);
            assert(m3.b == shr64(m2.b, m2.s));
            lemma_m_run_add(ops, m, lops.len(), 2);
            assert(m_run(ops, m3, 0) == m3);
            assert(m_run(ops, m2, 1) == m3);
            assert(m_run(ops, m1, 2) == m3);
            assert(m_run(ops, m, bl) == m3);
        } else {
            // load S; C := A; Shr C
            let m2 = m_step(ops, m1);
            let m3 = m_step(ops, m2);
            assert(ops[st + llen] == blk[llen]);
            assert(blk[llen] == Op::MovReg(Reg::C, Reg::A));
            assert(ops[st + (llen + 1)] == blk[llen + 1]);
            assert(blk[llen + 1] == Op::Shr(Reg::C));
            assert(m2.c == m1.a);
            assert(m3.c == shr64(m2.c, m2.s));
            lemma_m_run_add(ops, m, lops.len(), 2);
            assert(m_run(ops, m3, 0) == m3);
            assert(m_run(ops, m2, 1) == m3);
            assert(m_run(ops, m1, 2) == m3);
            assert(m_run(ops, m, bl) == m3);
        }
    }
}

/// The simulation relation carries over any number of VM steps, and the
/// machine spends at least one operation per step it simulates.
pub proof fn lemma_sim(p: Seq<Instr>, s: VmState, m: MState, n: nat)
    requires
        prog_wf(p),
        fits(p),
        corr(p, s, m),
    ensures
        corr(p, vm_run(p, s, n), m_run(compiled_ops(p), m, cost(p, s, n))),
        !vm_halted(p, vm_run(p, s, n)) ==> cost(p, s, n) >= n,
    decreases n,
{
    let ops = compiled_ops(p);
    if n == 0 || vm_halted(p, s) {
    } else {
        let bl = block_len(p[s.ip]);
        lemma_block_step(p, s, m);
        lemma_block_len_bounds(p[s.ip]);
        lemma_m_run_add(ops, m, bl, cost(p, vm_step(p, s), (n - 1) as nat));
        lemma_sim(p, vm_step(p, s), m_run(ops, m, bl), (n - 1) as nat);
    }
}

/// Under the simulation relation, the VM and the machine halt together.
pub proof fn lemma_corr_halt(p: Seq<Instr>, s: VmState, m: MState)
    requires
        prog_wf(p),
        fits(p),
        corr(p, s, m),
    ensures
        vm_halted(p, s) <==> m_halted(compiled_ops(p), m),
{
    lemma_ops_upto_len(p, p.len() as int);
    if s.ip < p.len() {
        lemma_block_len_bounds(p[s.ip]);
        lemma_start_of_monotone(p, s.ip + 1, p.len() as int);
        assert(start_of(p, s.ip + 1) == start_of(p, s.ip) + block_len(p[s.ip]));
    } else {
        assert(s.ip == p.len());
    }
}

/// Whenever the reference VM halts, the compiled form halts with the same
/// registers and the same output tape: the translated program computes
/// exactly what the naive interpreter computes.
pub proof fn lemma_compiled_preserves_output(p: Seq<Instr>, a: u64, b: u64, c: u64, n: nat)
    requires
        prog_wf(p),
        fits(p),
        vm_halted(p, vm_run(p, vm_init(a, b, c), n)),
    ensures
        ({
            let fv = vm_run(p, vm_init(a, b, c), n);
            let fm = m_run(compiled_ops(p), m_init(a, b, c), cost(p, vm_init(a, b, c), n));
            &&& m_halted(compiled_ops(p), fm)
            &&& fm.out == fv.out
            &&& fm.a == fv.a
            &&& fm.b == fv.b
            &&& fm.c == fv.c
        }),
{
    lemma_sim(p, vm_init(a, b, c), m_init(a, b, c), n);
    lemma_corr_halt(
        p,
        vm_run(p, vm_init(a, b, c), n),
        m_run(compiled_ops(p), m_init(a, b, c), cost(p, vm_init(a, b, c), n)),
    );
}

/// Conversely, whenever the compiled form halts, the reference VM halts
/// within the same number of steps, with the same registers and tape: the
/// compiled code cannot produce anything the interpreter would not.
pub proof fn lemma_compiled_reflects_output(p: Seq<Instr>, a: u64, b: u64, c: u64, k: nat)
    requires
        prog_wf(p),
        fits(p),
        m_halted(compiled_ops(p), m_run(compiled_ops(p), m_init(a, b, c), k)),
    ensures
        ({
            let fv = vm_run(p, vm_init(a, b, c), k);
            let fm = m_run(compiled_ops(p), m_init(a, b, c), k);
            &&& vm_halted(p, fv)
            &&& fm.out == fv.out
            &&& fm.a == fv.a
            &&& fm.b == fv.b
            &&& fm.c == fv.c
        }),
{
    let ops = compiled_ops(p);
    let s0 = vm_init(a, b, c);
    let m0 = m_init(a, b, c);
    lemma_sim(p, s0, m0, k);
    let fv = vm_run(p, s0, k);
    let cst = cost(p, s0, k);
    if !vm_halted(p, fv) {
        lemma_corr_halt(p, fv, m_run(ops, m0, cst));
        lemma_m_halt_stable(ops, m0, k, cst);
        assert(false);
    }
    lemma_corr_halt(p, fv, m_run(ops, m0, cst));
    if cst <= k {
        lemma_m_halt_stable(ops, m0, cst, k);
    } else {
        lemma_m_halt_stable(ops, m0, k, cst);
    }
}

/// Translation is a pure function of the program: translating the same
/// program again yields the same operation stream, and running either stream
/// from the same initial registers goes through the same states.
pub proof fn lemma_translation_deterministic(
    p1: Seq<Instr>,
    p2: Seq<Instr>,
    a: u64,
    b: u64,
    c: u64,
    n: nat,
)
    requires
        p1 == p2,
    ensures
        compiled_ops(p1) == compiled_ops(p2),
        m_run(compiled_ops(p1), m_init(a, b, c), n) == m_run(compiled_ops(p2), m_init(a, b, c), n),
{
}

/// A shift instruction (opcode 0, 6 or 7) whose combo operand names a
/// register shifts by the value that register holds when the block executes —
/// after all earlier updates — not by any value fixed at translation time.
pub proof fn lemma_shift_reads_current_value(p: Seq<Instr>, s: VmState, m: MState)
    requires
        prog_wf(p),
        fits(p),
        corr(p, s, m),
        0 <= s.ip < p.len(),
        p[s.ip].opcode == 0 || p[s.ip].opcode == 6 || p[s.ip].opcode == 7,
        4 <= p[s.ip].operand <= 6,
    ensures
        ({
            let m2 = m_run(compiled_ops(p), m, block_len(p[s.ip]));
            let count = if p[s.ip].operand == 4 {
                m.a
            } else if p[s.ip].operand == 5 {
                m.b
            } else {
                m.c
            };
            let shifted = shr64(m.a, count);
            &&& (p[s.ip].opcode == 0 ==> m2.a == shifted)
            &&& (p[s.ip].opcode == 6 ==> m2.b == shifted)
            &&& (p[s.ip].opcode == 7 ==> m2.c == shifted)
        }),
{
    lemma_block_step(p, s, m);
}

proof fn lemma_vm_out_masked(p: Seq<Instr>, s: VmState, n: nat)
    requires
        prog_wf(p),
        forall|j: int| 0 <= j < s.out.len() ==> s.out[j] < 8,
    ensures
        forall|j: int|
            0 <= j < vm_run(p, s, n).out.len() ==> #[trigger] vm_run(p, s, n).out[j] < 8,
    decreases n,
{
    if n == 0 || vm_halted(p, s) {
    } else {
        let s2 = vm_step(p, s);
        assert(instr_wf(p[s.ip], p.len() as nat));
        assert forall|j: int| 0 <= j < s2.out.len() implies s2.out[j] < 8 by {
            if p[s.ip].opcode == 5 {
                let v = combo_val(s, p[s.ip].operand);
                assert(v & 7 < 8) by (bit_vector);
                assert(s2.out == s.out.push((v & 7) as u8));
            } else {
                assert(s2.out == s.out);
            }
        }
        lemma_vm_out_masked(p, s2, (n - 1) as nat);
        assert(vm_run(p, s, n) == vm_run(p, s2, (n - 1) as nat));
    }
}

/// Every value on the output tape is three bits wide — below 8 — whatever the
/// magnitude of the resolved combo operand, both under the reference
/// semantics and in any run of the compiled form.
pub proof fn lemma_output_masked(p: Seq<Instr>, a: u64, b: u64, c: u64, n: nat, k: nat)
    requires
        prog_wf(p),
        fits(p),
    ensures
        forall|j: int|
            0 <= j < vm_run(p, vm_init(a, b, c), n).out.len() ==> #[trigger] vm_run(
                p,
                vm_init(a, b, c),
                n,
            ).out[j] < 8,
        forall|j: int|
            0 <= j < m_run(compiled_ops(p), m_init(a, b, c), k).out.len() ==> #[trigger] m_run(
                compiled_ops(p),
                m_init(a, b, c),
                k,
            ).out[j] < 8,
{
    let ops = compiled_ops(p);
    let s0 = vm_init(a, b, c);
    let m0 = m_init(a, b, c);
    lemma_vm_out_masked(p, s0, n);
    lemma_vm_out_masked(p, s0, k);
    lemma_sim(p, s0, m0, k);
    let fv = vm_run(p, s0, k);
    let cst = cost(p, s0, k);
    if cst >= k {
        lemma_m_run_add(ops, m0, k, (cst - k) as nat);
        lemma_m_out_monotone(ops, m_run(ops, m0, k), (cst - k) as nat);
        assert(m_run(ops, m0, cst) == m_run(ops, m_run(ops, m0, k), (cst - k) as nat));
        assert(m_run(ops, m0, cst).out == fv.out);
        assert forall|j: int| 0 <= j < m_run(ops, m0, k).out.len() implies #[trigger] m_run(
            ops,
            m0,
            k,
        ).out[j] < 8 by {
            assert(m_run(ops, m0, cst).out[j] == m_run(ops, m0, k).out[j]);
            assert(fv.out[j] < 8);
        }
    } else {
        assert(vm_halted(p, fv));
        lemma_corr_halt(p, fv, m_run(ops, m0, cst));
        lemma_m_halt_stable(ops, m0, cst, k);
        assert(m_run(ops, m0, k).out == fv.out);
    }
}

} // verus!
