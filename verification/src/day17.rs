//! The whole pipeline for the octal VM puzzle: read the program text,
//! translate the program, execute the translated operation stream, and render
//! the output tape.
//!
//! Execution of a translated program is bounded by `RUN_FUEL` operations; a
//! program still running at that point is reported as such rather than left
//! to spin. The translation-correctness laws in `correct` guarantee the
//! stream's output is the one the reference interpreter would produce.

use vstd::prelude::*;

use crate::correct::lemma_output_masked;
use crate::emit::{compile, compiled_ops};
use crate::machine::{m_halted, m_init, m_run, run_ops};
use crate::parse::{parse_program, parse_program_spec};
use crate::render::{render_output, render_tape};
use crate::vm::prog_wf;
use vstd::string::StringSliceAdditionalSpecFns;

verus! {

/// Operation budget for one execution of a translated program.
pub const RUN_FUEL: u64 = 100_000_000;

/// Solves the puzzle: the comma-separated output tape of the program in
/// `input`, run from its initial register values. `None` exactly when the
/// text is malformed, the program cannot be translated, or the translated
/// program is still running after `RUN_FUEL` operations.
pub fn part1(input: &str) -> (r: Option<String>)
    requires
        input.spec_bytes().len() <= 0x1000_0000,
    ensures
        ({
            let parsed = parse_program_spec(input.spec_bytes());
            match r {
                Some(text) => {
                    &&& parsed is Some
                    &&& prog_wf(parsed->Some_0.3)
                    &&& ({
                        let (a, b, c, ins) = parsed->Some_0;
                        let fin = m_run(compiled_ops(ins), m_init(a, b, c), RUN_FUEL as nat);
                        m_halted(compiled_ops(ins), fin) && text@ == render_tape(fin.out)
                    })
                },
                None => parsed is None || !prog_wf(parsed->Some_0.3) || !m_halted(
                    compiled_ops(parsed->Some_0.3),
                    m_run(
                        compiled_ops(parsed->Some_0.3),
                        m_init(parsed->Some_0.0, parsed->Some_0.1, parsed->Some_0.2),
                        RUN_FUEL as nat,
                    ),
                ),
            }
        }),
{
    let bytes = input.as_bytes();
    let prog = match parse_program(bytes) {
        Ok(p) => p,
        Err(_) => {
            return None;
        },
    };
    proof {
        lemma_parse_len(bytes@);
    }
    let compiled = match compile(&prog.instrs) {
        Ok(c) => c,
        Err(_) => {
            return None;
        },
    };
    let outcome = match run_ops(&compiled.ops, prog.a, prog.b, prog.c, RUN_FUEL) {
        Some(o) => o,
        None => {
            return None;
        },
    };
    proof {
        lemma_output_masked(
            prog.instrs@,
            prog.a,
            prog.b,
            prog.c,
            0nat,
            RUN_FUEL as nat,
        );
    }
    Some(render_output(&outcome.out))
}

/// The instruction list the reader produces is no longer than the text.
proof fn lemma_parse_len(s: Seq<u8>)
    requires
        parse_program_spec(s) is Some,
    ensures
        parse_program_spec(s)->Some_0.3.len() <= s.len(),
{
    let (_a, i1) = crate::parse::read_int_from(s, 0, 0);
    let (_b, i2) = crate::parse::read_int_from(s, i1, 0);
    let (_c, i3) = crate::parse::read_int_from(s, i2, 0);
    let i4 = if i3 < s.len() {
        i3 + 1
    } else {
        i3
    };
    crate::parse::lemma_instrs_from_len(s, i4, None);
}

} // verus!
