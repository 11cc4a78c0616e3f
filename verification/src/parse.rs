//! The program reader: turns the program text — three `Register X: <int>`
//! lines, a blank line, and one `Program: d,d,...` line — into three initial
//! register values and an ordered list of instructions.
//!
//! Reading is streaming and digit-by-digit; non-digit bytes separate values.
//! An odd count of program digits leaves an instruction half-read and is the
//! one malformed shape the reader rejects.

use vstd::prelude::*;

use crate::vm::Instr;

verus! {

pub open spec fn is_ascii_digit(c: u8) -> bool {
    48 <= c <= 57
}

/// One step of streaming decimal accumulation, wrapping at 64 bits.
pub open spec fn dec_wrap(acc: u64, d: u64) -> u64 {
    ((acc * 10 + d) % 0x1_0000_0000_0000_0000) as u64
}

/// Streaming read of one integer starting at `i`: digits accumulate, a
/// newline ends the value, any other byte is skipped. Returns the value and
/// the position after the terminating newline (or the end of the text).
pub open spec fn read_int_from(s: Seq<u8>, i: int, acc: u64) -> (u64, int)
    decreases s.len() - i,
{
    if i < 0 || i >= s.len() {
        (acc, s.len() as int)
    } else if is_ascii_digit(s[i]) {
        read_int_from(s, i + 1, dec_wrap(acc, (s[i] - 48) as u64))
    } else if s[i] == 10 {
        (acc, i + 1)
    } else {
        read_int_from(s, i + 1, acc)
    }
}

/// Streaming read of the instruction list starting at `i`: digits pair up
/// into instructions, a newline or the end of the text ends the list, any
/// other byte is skipped. `pending` holds an opcode still waiting for its
/// operand; a list that ends while one is pending is malformed (`None`).
pub open spec fn instrs_from(s: Seq<u8>, i: int, pending: Option<u8>) -> Option<Seq<Instr>>
    decreases s.len() - i,
{
    if i < 0 || i >= s.len() || s[i] == 10 {
        match pending {
            None => Some(Seq::empty()),
            Some(_) => None,
        }
    } else if is_ascii_digit(s[i]) {
        let d = (s[i] - 48) as u8;
        match pending {
            None => instrs_from(s, i + 1, Some(d)),
            Some(d1) => match instrs_from(s, i + 1, None) {
                None => None,
                Some(rest) => Some(seq![Instr { opcode: d1, operand: d }] + rest),
            },
        }
    } else {
        instrs_from(s, i + 1, pending)
    }
}

/// A parsed list holds at most one instruction per remaining byte.
pub proof fn lemma_instrs_from_len(s: Seq<u8>, i: int, pending: Option<u8>)
    requires
        instrs_from(s, i, pending) is Some,
    ensures
        instrs_from(s, i, pending)->Some_0.len() <= if s.len() - i >= 0 {
            s.len() - i
        } else {
            0
        },
    decreases s.len() - i,
{
    if i < 0 || i >= s.len() || s[i] == 10 {
    } else if is_ascii_digit(s[i]) {
        match pending {
            None => lemma_instrs_from_len(s, i + 1, Some((s[i] - 48) as u8)),
            Some(_) => lemma_instrs_from_len(s, i + 1, None),
        }
    } else {
        lemma_instrs_from_len(s, i + 1, pending);
    }
}

/// What the reader produces from the whole text: the three register values,
/// then — after skipping the blank line's newline — the instruction list.
/// `None` is the malformed case: an odd count of program digits.
pub open spec fn parse_program_spec(s: Seq<u8>) -> Option<(u64, u64, u64, Seq<Instr>)> {
    let (a, i1) = read_int_from(s, 0, 0);
    let (b, i2) = read_int_from(s, i1, 0);
    let (c, i3) = read_int_from(s, i2, 0);
    let i4 = if i3 < s.len() {
        i3 + 1
    } else {
        i3
    };
    match instrs_from(s, i4, None) {
        None => None,
        Some(ins) => Some((a, b, c, ins)),
    }
}

/// A parsed program: the initial register values and the instruction list,
/// exactly as the text gives them (an instruction may still hold the digits
/// 8 or 9; translation rejects those).
#[derive(Debug)]
pub struct Program {
    pub a: u64,
    pub b: u64,
    pub c: u64,
    pub instrs: Vec<Instr>,
}

/// The one malformed shape of a program text: an odd count of program
/// digits, which leaves the last instruction without an operand.
#[derive(Clone, Copy, PartialEq, Eq, Structural, Debug)]
pub enum ParseError {
    OddDigitCount,
}

/// Reads one integer as `read_int_from` describes, starting at `from`.
pub fn read_int(s: &[u8], from: usize) -> (r: (u64, usize))
    requires
        from <= s@.len(),
    ensures
        (r.0, r.1 as int) == read_int_from(s@, from as int, 0),
        from <= r.1 <= s@.len(),
{
    let ghost sq = s@;
    let mut i: usize = from;
    let mut acc: u64 = 0;
    while i < s.len()
        invariant
            sq == s@,
            from <= i <= s@.len(),
            read_int_from(sq, from as int, 0) == read_int_from(sq, i as int, acc),
        decreases s@.len() - i,
    {
        let c = s[i];
        if 48 <= c && c <= 57 {
            let d = (c - 48) as u64;
            let next = acc.wrapping_mul(10).wrapping_add(d);
            proof {
                let m = 0x1_0000_0000_0000_0000int;
                vstd::arithmetic::div_mod::lemma_small_mod(d as nat, m as nat);
                vstd::arithmetic::div_mod::lemma_add_mod_noop(acc as int * 10, d as int, m);
                assert(next == dec_wrap(acc, d));
            }
            acc = next;
            i = i + 1;
        } else if c == 10 {
            i = i + 1;
            return (acc, i);
        } else {
            i = i + 1;
        }
    }
    (acc, i)
}

/// Reads the whole program text. Succeeds exactly when the program digits
/// pair up; the parsed values are those of `parse_program_spec`.
pub fn parse_program(input: &[u8]) -> (r: Result<Program, ParseError>)
    ensures
        match r {
            Ok(prog) => parse_program_spec(input@) == Some(
                (prog.a, prog.b, prog.c, prog.instrs@),
            ),
            Err(e) => parse_program_spec(input@) is None && e == ParseError::OddDigitCount,
        },
{
    let ghost sq = input@;
    let (a, i1) = read_int(input, 0);
    let (b, i2) = read_int(input, i1);
    let (c, i3) = read_int(input, i2);
    // Skip the newline of the blank line between registers and program.
    let i4 = if i3 < input.len() {
        i3 + 1
    } else {
        i3
    };
    let mut i: usize = i4;
    let mut pending: Option<u8> = None;
    let mut instrs: Vec<Instr> = Vec::new();
    while i < input.len() && input[i] != 10
        invariant
            sq == input@,
            i4 <= i <= sq.len(),
            match instrs_from(sq, i as int, pending) {
                Some(rest) => instrs_from(sq, i4 as int, None) == Some(instrs@ + rest),
                None => instrs_from(sq, i4 as int, None) is None,
            },
        decreases sq.len() - i,
    {
        let c = input[i];
        if 48 <= c && c <= 57 {
            let d = (c - 48) as u8;
            match pending {
                None => {
                    pending = Some(d);
                },
                Some(d1) => {
                    let ghost before = instrs@;
                    instrs.push(Instr { opcode: d1, operand: d });
                    pending = None;
                    proof {
                        if instrs_from(sq, i as int + 1, None) is Some {
                            let rest = instrs_from(sq, i as int + 1, None)->Some_0;
                            assert(before + (seq![Instr { opcode: d1, operand: d }] + rest)
                                =~= instrs@ + rest);
                        }
                    }
                },
            }
        }
        i = i + 1;
    }
    match pending {
        None => {
            proof {
                assert(instrs_from(sq, i as int, None) == Some(Seq::<Instr>::empty()));
                assert(instrs@ + Seq::<Instr>::empty() =~= instrs@);
            }
            Ok(Program { a, b, c, instrs })
        },
        Some(_) => Err(ParseError::OddDigitCount),
    }
}

} // verus!
