//! The target of translation: a flat stream of low-level operations.
//!
//! Each operation mirrors one native instruction the emitter produces for the
//! octal VM: register-to-register and immediate moves, a variable-count right
//! shift whose count is the scratch register, xors, a 3-bit mask, a store to
//! the output tape, and a conditional jump. `m_step` and `m_run` give the
//! stream its semantics; `run_ops` executes it.

use vstd::prelude::*;

verus! {

/// A physical register of the translated code: the three VM registers and one
/// scratch register used for resolved combo operands and shift counts.
#[derive(Clone, Copy, PartialEq, Eq, Structural, Debug)]
pub enum Reg {
    A,
    B,
    C,
    S,
}

/// One low-level operation. `Shr(r)` shifts `r` right by the scratch
/// register. `Out(r)` stores the low byte of `r` on the output tape and
/// advances it. `Jnz(t)` jumps to operation index `t` when register A is
/// nonzero.
#[derive(Clone, Copy, PartialEq, Eq, Structural, Debug)]
pub enum Op {
    MovImm(Reg, u64),
    MovReg(Reg, Reg),
    Shr(Reg),
    XorImm(Reg, u64),
    XorReg(Reg, Reg),
    And7(Reg),
    Out(Reg),
    Jnz(usize),
}

/// Machine state: the four registers, the index of the next operation, and
/// the output tape written so far.
pub ghost struct MState {
    pub a: u64,
    pub b: u64,
    pub c: u64,
    pub s: u64,
    pub pc: int,
    pub out: Seq<u8>,
}

pub open spec fn m_init(a: u64, b: u64, c: u64) -> MState {
    MState { a, b, c, s: 0, pc: 0, out: Seq::empty() }
}

pub open spec fn reg_val(m: MState, r: Reg) -> u64 {
    match r {
        Reg::A => m.a,
        Reg::B => m.b,
        Reg::C => m.c,
        Reg::S => m.s,
    }
}

pub open spec fn with_reg(m: MState, r: Reg, v: u64) -> MState {
    match r {
        Reg::A => MState { a: v, ..m },
        Reg::B => MState { b: v, ..m },
        Reg::C => MState { c: v, ..m },
        Reg::S => MState { s: v, ..m },
    }
}

/// The machine has halted: the next-operation index left the stream.
pub open spec fn m_halted(ops: Seq<Op>, m: MState) -> bool {
    !(0 <= m.pc < ops.len())
}

/// One operation of the stream; a halted state is left unchanged.
pub open spec fn m_step(ops: Seq<Op>, m: MState) -> MState {
    if m_halted(ops, m) {
        m
    } else {
        let next = MState { pc: m.pc + 1, ..m };
        match ops[m.pc] {
            Op::MovImm(r, v) => with_reg(next, r, v),
            Op::MovReg(d, s) => with_reg(next, d, reg_val(m, s)),
            Op::Shr(r) => with_reg(next, r, crate::vm::shr64(reg_val(m, r), m.s)),
            Op::XorImm(r, v) => with_reg(next, r, reg_val(m, r) ^ v),
            Op::XorReg(d, s) => with_reg(next, d, reg_val(m, d) ^ reg_val(m, s)),
            Op::And7(r) => with_reg(next, r, reg_val(m, r) & 7),
            Op::Out(r) => MState { out: m.out.push((reg_val(m, r) & 0xff) as u8), ..next },
            Op::Jnz(t) => if m.a != 0 {
                MState { pc: t as int, ..m }
            } else {
                next
            },
        }
    }
}

/// Up to `n` operations of the stream; a halted state is left unchanged.
pub open spec fn m_run(ops: Seq<Op>, m: MState, n: nat) -> MState
    decreases n,
{
    if n == 0 || m_halted(ops, m) {
        m
    } else {
        m_run(ops, m_step(ops, m), (n - 1) as nat)
    }
}

/// Running `j + k` operations is running `j` and then `k` more.
pub proof fn lemma_m_run_add(ops: Seq<Op>, m: MState, j: nat, k: nat)
    ensures
        m_run(ops, m, j + k) == m_run(ops, m_run(ops, m, j), k),
    decreases j,
{
    if j == 0 {
    } else if m_halted(ops, m) {
    } else {
        lemma_m_run_add(ops, m_step(ops, m), (j - 1) as nat, k);
    }
}

/// A halted state stays put under `m_run`.
pub proof fn lemma_m_run_halted(ops: Seq<Op>, m: MState, n: nat)
    requires
        m_halted(ops, m),
    ensures
        m_run(ops, m, n) == m,
{
}

/// Once the machine halts it never moves again, so longer runs agree with the
/// run that first halted.
pub proof fn lemma_m_halt_stable(ops: Seq<Op>, m: MState, j: nat, k: nat)
    requires
        j <= k,
        m_halted(ops, m_run(ops, m, j)),
    ensures
        m_run(ops, m, k) == m_run(ops, m, j),
{
    lemma_m_run_add(ops, m, j, (k - j) as nat);
    lemma_m_run_halted(ops, m_run(ops, m, j), (k - j) as nat);
}

/// The output tape only grows: whatever a run has written stays in place.
pub proof fn lemma_m_out_monotone(ops: Seq<Op>, m: MState, n: nat)
    ensures
        m_run(ops, m, n).out.len() >= m.out.len(),
        forall|j: int|
            0 <= j < m.out.len() ==> #[trigger] m_run(ops, m, n).out[j] == m.out[j],
    decreases n,
{
    if n == 0 || m_halted(ops, m) {
    } else {
        lemma_m_out_monotone(ops, m_step(ops, m), (n - 1) as nat);
        assert(m_step(ops, m).out.len() >= m.out.len());
        assert(forall|j: int|
            0 <= j < m.out.len() ==> #[trigger] m_step(ops, m).out[j] == m.out[j]);
    }
}

/// Executes the operation stream for at most `fuel` operations, starting from
/// registers `(a, b, c)`, an empty tape and the first operation. Returns the
/// final registers and tape exactly when the stream runs off its end within
/// `fuel` operations, and `None` when it is still running.
pub fn run_ops(ops: &Vec<Op>, a: u64, b: u64, c: u64, fuel: u64) -> (r: Option<crate::vm::Outcome>)
    ensures
        ({
            let fin = m_run(ops@, m_init(a, b, c), fuel as nat);
            match r {
                Some(o) => m_halted(ops@, fin) && o.a == fin.a && o.b == fin.b && o.c == fin.c
                    && o.out@ == fin.out,
                None => !m_halted(ops@, fin),
            }
        }),
{
    let ghost code = ops@;
    let ghost m0 = m_init(a, b, c);
    let mut ra = a;
    let mut rb = b;
    let mut rc = c;
    let mut rs: u64 = 0;
    let mut pc: usize = 0;
    let mut out: Vec<u8> = Vec::new();
    let mut steps: u64 = 0;
    while pc < ops.len() && steps < fuel
        invariant
            code == ops@,
            steps <= fuel,
            m_run(code, m0, steps as nat) == (MState {
                a: ra,
                b: rb,
                c: rc,
                s: rs,
                pc: pc as int,
                out: out@,
            }),
        decreases fuel - steps,
    {
        let ghost st = MState { a: ra, b: rb, c: rc, s: rs, pc: pc as int, out: out@ };
        proof {
            lemma_m_run_add(code, m0, steps as nat, 1);
        }
        let op = ops[pc];
        match op {
            Op::MovImm(r, v) => {
                match r {
                    Reg::A => ra = v,
                    Reg::B => rb = v,
                    Reg::C => rc = v,
                    Reg::S => rs = v,
                }
                pc = pc + 1;
            },
            Op::MovReg(d, s) => {
                let v = match s {
                    Reg::A => ra,
                    Reg::B => rb,
                    Reg::C => rc,
                    Reg::S => rs,
                };
                match d {
                    Reg::A => ra = v,
                    Reg::B => rb = v,
                    Reg::C => rc = v,
                    Reg::S => rs = v,
                }
                pc = pc + 1;
            },
            Op::Shr(r) => {
                let v = match r {
                    Reg::A => ra,
                    Reg::B => rb,
                    Reg::C => rc,
                    Reg::S => rs,
                };
                let w = crate::vm::shr_u64(v, rs);
                match r {
                    Reg::A => ra = w,
                    Reg::B => rb = w,
                    Reg::C => rc = w,
                    Reg::S => rs = w,
                }
                pc = pc + 1;
            },
            Op::XorImm(r, v) => {
                match r {
                    Reg::A => ra = ra ^ v,
                    Reg::B => rb = rb ^ v,
                    Reg::C => rc = rc ^ v,
                    Reg::S => rs = rs ^ v,
                }
                pc = pc + 1;
            },
            Op::XorReg(d, s) => {
                let v = match s {
                    Reg::A => ra,
                    Reg::B => rb,
                    Reg::C => rc,
                    Reg::S => rs,
                };
                match d {
                    Reg::A => ra = ra ^ v,
                    Reg::B => rb = rb ^ v,
                    Reg::C => rc = rc ^ v,
                    Reg::S => rs = rs ^ v,
                }
                pc = pc + 1;
            },
            Op::And7(r) => {
                match r {
                    Reg::A => ra = ra & 7,
                    Reg::B => rb = rb & 7,
                    Reg::C => rc = rc & 7,
                    Reg::S => rs = rs & 7,
                }
                pc = pc + 1;
            },
            Op::Out(r) => {
                let v = match r {
                    Reg::A => ra,
                    Reg::B => rb,
                    Reg::C => rc,
                    Reg::S => rs,
                };
                let low = v & 0xff;
                assert(low < 256) by (bit_vector)
                    requires
                        low == v & 0xff,
                ;
                out.push(low as u8);
                pc = pc + 1;
            },
            Op::Jnz(t) => {
                if ra != 0 {
                    pc = t;
                } else {
                    pc = pc + 1;
                }
            },
        }
        steps = steps + 1;
        proof {
            assert(m_step(code, st) == (MState {
                a: ra,
                b: rb,
                c: rc,
                s: rs,
                pc: pc as int,
                out: out@,
            }));
            assert(m_run(code, m_step(code, st), 0) == m_step(code, st));
            assert(m_run(code, st, 1) == m_step(code, st));
        }
    }
    if pc >= ops.len() {
        proof {
            lemma_m_halt_stable(code, m0, steps as nat, fuel as nat);
        }
        Some(crate::vm::Outcome { a: ra, b: rb, c: rc, out })
    } else {
        None
    }
}

} // verus!
