//! Reference semantics of the octal VM.
//!
//! A program is a list of instructions, each a 3-bit opcode with a 3-bit
//! operand. The machine has three registers and an append-only output tape.
//! `vm_step` and `vm_run` give the meaning of a program; `interpret` executes
//! it directly against that meaning.

use vstd::prelude::*;

verus! {

/// One instruction: a 3-bit opcode and a 3-bit operand, both parsed from a
/// single decimal digit each (so a freshly parsed value may still hold 8 or 9;
/// translation rejects those).
#[derive(Clone, Copy, PartialEq, Eq, Structural, Debug)]
pub struct Instr {
    pub opcode: u8,
    pub operand: u8,
}

/// Final registers and output tape of a finished run.
#[derive(Debug)]
pub struct Outcome {
    pub a: u64,
    pub b: u64,
    pub c: u64,
    pub out: Vec<u8>,
}

/// Logical right shift that is total in the shift count: counts of 64 or more
/// clear the value, matching truncating division by a power of two.
pub open spec fn shr64(x: u64, k: u64) -> u64 {
    if k >= 64 {
        0u64
    } else {
        x >> k
    }
}

/// Opcodes whose operand is a combo operand (literal 0..3 or a register for
/// 4..6); the others read their operand as a literal or a jump target.
pub open spec fn uses_combo(opcode: u8) -> bool {
    opcode == 0 || opcode == 2 || opcode == 5 || opcode == 6 || opcode == 7
}

/// A translatable instruction of a program with `n` instructions: opcode and
/// operand fit in 3 bits, combo operand 7 is undefined, and a jump target must
/// have a registered label (one raw offset per half-instruction, so `2 * n`).
pub open spec fn instr_wf(i: Instr, n: nat) -> bool {
    &&& i.opcode < 8
    &&& i.operand < 8
    &&& (uses_combo(i.opcode) ==> i.operand != 7)
    &&& (i.opcode == 3 ==> (i.operand as nat) < 2 * n)
}

/// Every instruction of the program is translatable.
pub open spec fn prog_wf(p: Seq<Instr>) -> bool {
    forall|k: int| 0 <= k < p.len() ==> instr_wf(#[trigger] p[k], p.len() as nat)
}

/// VM state: three registers, the index of the next instruction, and the
/// output tape so far.
pub ghost struct VmState {
    pub a: u64,
    pub b: u64,
    pub c: u64,
    pub ip: int,
    pub out: Seq<u8>,
}

pub open spec fn vm_init(a: u64, b: u64, c: u64) -> VmState {
    VmState { a, b, c, ip: 0, out: Seq::empty() }
}

/// Value of a combo operand: 0..3 are literals, 4..6 read the current value
/// of register A, B or C. Operand 7 is undefined and never reaches here in a
/// translatable program; it is given an arbitrary reading to stay total.
pub open spec fn combo_of(a: u64, b: u64, c: u64, operand: u8) -> u64 {
    if operand <= 3 {
        operand as u64
    } else if operand == 4 {
        a
    } else if operand == 5 {
        b
    } else {
        c
    }
}

pub open spec fn combo_val(s: VmState, operand: u8) -> u64 {
    combo_of(s.a, s.b, s.c, operand)
}

/// One instruction of the octal VM, on a state whose `ip` is in range.
///
/// 0: A >>= combo; 1: B ^= literal; 2: B = combo & 7; 3: jump to the
/// instruction at raw offset `operand` when A is nonzero; 4: B ^= C;
/// 5: append combo & 7 to the tape; 6: B = A >> combo; 7: C = A >> combo.
/// A raw jump offset names a half-instruction, so the target instruction is
/// `operand / 2`.
pub open spec fn vm_step(p: Seq<Instr>, s: VmState) -> VmState {
    let i = p[s.ip];
    let x = i.operand;
    if i.opcode == 0 {
        VmState { a: shr64(s.a, combo_val(s, x)), ip: s.ip + 1, ..s }
    } else if i.opcode == 1 {
        VmState { b: s.b ^ (x as u64), ip: s.ip + 1, ..s }
    } else if i.opcode == 2 {
        VmState { b: combo_val(s, x) & 7, ip: s.ip + 1, ..s }
    } else if i.opcode == 3 {
        if s.a != 0 {
            VmState { ip: x as int / 2, ..s }
        } else {
            VmState { ip: s.ip + 1, ..s }
        }
    } else if i.opcode == 4 {
        VmState { b: s.b ^ s.c, ip: s.ip + 1, ..s }
    } else if i.opcode == 5 {
        VmState { out: s.out.push((combo_val(s, x) & 7) as u8), ip: s.ip + 1, ..s }
    } else if i.opcode == 6 {
        VmState { b: shr64(s.a, combo_val(s, x)), ip: s.ip + 1, ..s }
    } else {
        VmState { c: shr64(s.a, combo_val(s, x)), ip: s.ip + 1, ..s }
    }
}

/// The VM has halted: the instruction pointer left the program.
pub open spec fn vm_halted(p: Seq<Instr>, s: VmState) -> bool {
    !(0 <= s.ip < p.len())
}

/// Up to `n` steps of the VM; a halted state is left unchanged.
pub open spec fn vm_run(p: Seq<Instr>, s: VmState, n: nat) -> VmState
    decreases n,
{
    if n == 0 || vm_halted(p, s) {
        s
    } else {
        vm_run(p, vm_step(p, s), (n - 1) as nat)
    }
}

/// Running `m + k` steps is running `m` steps and then `k` more.
pub proof fn lemma_vm_run_add(p: Seq<Instr>, s: VmState, m: nat, k: nat)
    ensures
        vm_run(p, s, m + k) == vm_run(p, vm_run(p, s, m), k),
    decreases m,
{
    if m == 0 {
    } else if vm_halted(p, s) {
        lemma_vm_run_halted(p, s, k);
        lemma_vm_run_halted(p, s, m);
        lemma_vm_run_halted(p, s, m + k);
    } else {
        lemma_vm_run_add(p, vm_step(p, s), (m - 1) as nat, k);
    }
}

/// A halted state stays put under `vm_run`.
pub proof fn lemma_vm_run_halted(p: Seq<Instr>, s: VmState, n: nat)
    requires
        vm_halted(p, s),
    ensures
        vm_run(p, s, n) == s,
{
}

/// In a translatable program the instruction pointer never leaves `0 ..= len`.
pub proof fn lemma_vm_ip_bounded(p: Seq<Instr>, s: VmState)
    requires
        prog_wf(p),
        0 <= s.ip < p.len(),
    ensures
        0 <= vm_step(p, s).ip <= p.len(),
{
    assert(instr_wf(p[s.ip], p.len() as nat));
}

fn combo_value(a: u64, b: u64, c: u64, operand: u8) -> (r: u64)
    requires
        operand < 7,
    ensures
        r == combo_of(a, b, c, operand),
{
    if operand <= 3 {
        operand as u64
    } else if operand == 4 {
        a
    } else if operand == 5 {
        b
    } else {
        c
    }
}

/// Total logical right shift, matching `shr64`.
pub fn shr_u64(x: u64, k: u64) -> (r: u64)
    ensures
        r == shr64(x, k),
{
    if k >= 64 {
        0
    } else {
        x >> k
    }
}

/// The naive interpreter: executes `instrs` instruction by instruction for at
/// most `fuel` steps. Returns the final registers and tape exactly when the
/// program halts within `fuel` steps, and `None` when it is still running.
pub fn interpret(instrs: &Vec<Instr>, a: u64, b: u64, c: u64, fuel: u64) -> (r: Option<Outcome>)
    requires
        prog_wf(instrs@),
    ensures
        ({
            let fin = vm_run(instrs@, vm_init(a, b, c), fuel as nat);
            match r {
                Some(o) => vm_halted(instrs@, fin) && o.a == fin.a && o.b == fin.b && o.c == fin.c
                    && o.out@ == fin.out,
                None => !vm_halted(instrs@, fin),
            }
        }),
{
    let ghost p = instrs@;
    let ghost s0 = vm_init(a, b, c);
    let mut ra = a;
    let mut rb = b;
    let mut rc = c;
    let mut ip: usize = 0;
    let mut out: Vec<u8> = Vec::new();
    let mut steps: u64 = 0;
    while ip < instrs.len() && steps < fuel
        invariant
            prog_wf(p),
            p == instrs@,
            steps <= fuel,
            ip <= instrs.len(),
            vm_run(p, s0, steps as nat) == (VmState {
                a: ra,
                b: rb,
                c: rc,
                ip: ip as int,
                out: out@,
            }),
        decreases fuel - steps,
    {
        let ghost st = VmState { a: ra, b: rb, c: rc, ip: ip as int, out: out@ };
        proof {
            assert(instr_wf(p[ip as int], p.len() as nat));
            lemma_vm_run_add(p, s0, steps as nat, 1);
        }
        let i = instrs[ip];
        if i.opcode == 0 {
            let v = combo_value(ra, rb, rc, i.operand);
            ra = shr_u64(ra, v);
            ip = ip + 1;
        } else if i.opcode == 1 {
            rb = rb ^ (i.operand as u64);
            ip = ip + 1;
        } else if i.opcode == 2 {
            let v = combo_value(ra, rb, rc, i.operand);
            rb = v & 7;
            ip = ip + 1;
        } else if i.opcode == 3 {
            if ra != 0 {
                ip = (i.operand / 2) as usize;
            } else {
                ip = ip + 1;
            }
        } else if i.opcode == 4 {
            rb = rb ^ rc;
            ip = ip + 1;
        } else if i.opcode == 5 {
            let v = combo_value(ra, rb, rc, i.operand);
            let masked = v & 7;
            assert(masked < 8) by (bit_vector)
                requires
                    masked == v & 7,
            ;
            out.push(masked as u8);
            ip = ip + 1;
        } else if i.opcode == 6 {
            let v = combo_value(ra, rb, rc, i.operand);
            rb = shr_u64(ra, v);
            ip = ip + 1;
        } else {
            let v = combo_value(ra, rb, rc, i.operand);
            rc = shr_u64(ra, v);
            ip = ip + 1;
        }
        steps = steps + 1;
        proof {
            assert(vm_step(p, st) == (VmState { a: ra, b: rb, c: rc, ip: ip as int, out: out@ }));
            assert(vm_run(p, vm_step(p, st), 0) == vm_step(p, st));
            assert(vm_run(p, st, 1) == vm_step(p, st));
        }
    }
    if ip >= instrs.len() {
        proof {
            lemma_vm_run_add(p, s0, steps as nat, (fuel - steps) as nat);
            lemma_vm_run_halted(p, vm_run(p, s0, steps as nat), (fuel - steps) as nat);
        }
        Some(Outcome { a: ra, b: rb, c: rc, out })
    } else {
        None
    }
}

} // verus!
