use octal_vm::day17;
use octal_vm::emit::{compile, EmitError};
use octal_vm::machine::run_ops;
use octal_vm::parse::{parse_program, ParseError};
use octal_vm::render::render_output;
use octal_vm::vm::{interpret, Instr};

fn ins(opcode: u8, operand: u8) -> Instr {
    Instr { opcode, operand }
}

const REFERENCE_TEXT: &str =
    "Register A: 729\nRegister B: 0\nRegister C: 0\n\nProgram: 0,1,5,4,3,0\n";

#[test]
fn parses_reference_text() {
    let prog = parse_program(REFERENCE_TEXT.as_bytes()).unwrap();
    assert_eq!(prog.a, 729);
    assert_eq!(prog.b, 0);
    assert_eq!(prog.c, 0);
    assert_eq!(prog.instrs, vec![ins(0, 1), ins(5, 4), ins(3, 0)]);
}

#[test]
fn parse_rejects_odd_digit_count() {
    let text = "Register A: 1\nRegister B: 0\nRegister C: 0\n\nProgram: 0,1,5\n";
    assert_eq!(
        parse_program(text.as_bytes()).unwrap_err(),
        ParseError::OddDigitCount
    );
}

#[test]
fn parse_skips_separators_and_drops_trailing_fragment() {
    let text = "Register A: 17\nRegister B: 2\nRegister C: 3\n\nProgram: 1,2,4,1\n";
    let prog = parse_program(text.as_bytes()).unwrap();
    assert_eq!(prog.a, 17);
    assert_eq!(prog.b, 2);
    assert_eq!(prog.c, 3);
    assert_eq!(prog.instrs, vec![ins(1, 2), ins(4, 1)]);
}

#[test]
fn reference_program_output() {
    let out = day17::part1(REFERENCE_TEXT).unwrap();
    assert_eq!(out, "4,6,3,5,6,3,5,2,1,0");
}

#[test]
fn compiled_matches_interpreter_on_reference_program() {
    let prog = parse_program(REFERENCE_TEXT.as_bytes()).unwrap();
    let compiled = compile(&prog.instrs).unwrap();
    let native = run_ops(&compiled.ops, prog.a, prog.b, prog.c, 1_000_000).unwrap();
    let interpreted = interpret(&prog.instrs, prog.a, prog.b, prog.c, 1_000_000).unwrap();
    assert_eq!(native.out, interpreted.out);
    assert_eq!(native.out, vec![4, 6, 3, 5, 6, 3, 5, 2, 1, 0]);
    assert_eq!(native.a, interpreted.a);
    assert_eq!(native.b, interpreted.b);
    assert_eq!(native.c, interpreted.c);
}

#[test]
fn recompilation_is_deterministic() {
    let prog = parse_program(REFERENCE_TEXT.as_bytes()).unwrap();
    let first = compile(&prog.instrs).unwrap();
    let second = compile(&prog.instrs).unwrap();
    assert_eq!(first.ops, second.ops);
    assert_eq!(first.starts, second.starts);
    assert_eq!(first.labels, second.labels);
    let run1 = run_ops(&first.ops, prog.a, prog.b, prog.c, 10_000).unwrap();
    let run2 = run_ops(&second.ops, prog.a, prog.b, prog.c, 10_000).unwrap();
    assert_eq!(run1.out, run2.out);
}

#[test]
fn label_table_registers_both_offsets_of_each_instruction() {
    let instrs = vec![ins(0, 1), ins(5, 4), ins(3, 0)];
    let compiled = compile(&instrs).unwrap();
    assert_eq!(compiled.labels.len(), 6);
    for i in 0..3 {
        assert_eq!(compiled.labels[2 * i], i);
        assert_eq!(compiled.labels[2 * i + 1], i);
    }
    // Positions are strictly increasing: every instruction emits something.
    assert!(compiled.starts[0] < compiled.starts[1]);
    assert!(compiled.starts[1] < compiled.starts[2]);
}

#[test]
fn jump_target_resolves_by_raw_offset() {
    // The jump lands on instruction operand / 2, for odd offsets too.
    let instrs = vec![ins(1, 1), ins(1, 2), ins(3, 3)];
    let compiled = compile(&instrs).unwrap();
    // Raw offsets 2 and 3 both name instruction 1.
    assert_eq!(compiled.labels[2], 1);
    assert_eq!(compiled.labels[3], 1);
    let out = run_ops(&compiled.ops, 0, 0, 0, 100).unwrap();
    assert_eq!(out.b, 1 ^ 2);
}

#[test]
fn terminates_from_a_2024() {
    let instrs = vec![ins(0, 1), ins(5, 4), ins(3, 0)];
    let outcome = interpret(&instrs, 2024, 0, 0, 10_000).unwrap();
    assert_eq!(outcome.a, 0);
    let compiled = compile(&instrs).unwrap();
    let native = run_ops(&compiled.ops, 2024, 0, 0, 100_000).unwrap();
    assert_eq!(native.out, outcome.out);
    assert_eq!(native.a, 0);
}

#[test]
fn single_out_instruction_emits_one_zero() {
    let instrs = vec![ins(5, 0)];
    let outcome = interpret(&instrs, 11, 22, 33, 10).unwrap();
    assert_eq!(outcome.out, vec![0]);
    assert_eq!((outcome.a, outcome.b, outcome.c), (11, 22, 33));
    let compiled = compile(&instrs).unwrap();
    let native = run_ops(&compiled.ops, 11, 22, 33, 10).unwrap();
    assert_eq!(native.out, vec![0]);
    assert_eq!((native.a, native.b, native.c), (11, 22, 33));
}

#[test]
fn out_masks_resolved_operand_to_three_bits() {
    // Register A is far wider than 3 bits; only the low bits reach the tape.
    let instrs = vec![ins(5, 4)];
    let compiled = compile(&instrs).unwrap();
    let native = run_ops(&compiled.ops, 0xdead_beef, 0, 0, 10).unwrap();
    assert_eq!(native.out, vec![(0xdead_beefu64 & 7) as u8]);
    let outcome = interpret(&instrs, 0xdead_beef, 0, 0, 10).unwrap();
    assert_eq!(outcome.out, native.out);
}

#[test]
fn shift_count_reads_register_current_value() {
    // B is updated first; the divide-into-B must shift by the new value.
    let instrs = vec![ins(1, 5), ins(6, 5)];
    let outcome = interpret(&instrs, 1024, 0, 0, 10).unwrap();
    assert_eq!(outcome.b, 1024 >> 5);
    let compiled = compile(&instrs).unwrap();
    let native = run_ops(&compiled.ops, 1024, 0, 0, 10).unwrap();
    assert_eq!(native.b, 1024 >> 5);
}

#[test]
fn shift_saturates_for_large_counts() {
    // Divide A by combo B after B grows far past 63: the shift clears A.
    let instrs = vec![ins(1, 7), ins(0, 5), ins(5, 4)];
    let outcome = interpret(&instrs, u64::MAX, 255, 0, 10).unwrap();
    // B starts at 255, xor 7 gives 248; A >> 248 saturates to zero.
    assert_eq!(outcome.a, 0);
    assert_eq!(outcome.out, vec![0]);
    let compiled = compile(&instrs).unwrap();
    let native = run_ops(&compiled.ops, u64::MAX, 255, 0, 10).unwrap();
    assert_eq!(native.out, vec![0]);
}

#[test]
fn still_running_reports_none() {
    // A tight loop that never halts: jnz back to itself while A is nonzero.
    let instrs = vec![ins(3, 0)];
    assert!(interpret(&instrs, 1, 0, 0, 1_000).is_none());
    let compiled = compile(&instrs).unwrap();
    assert!(run_ops(&compiled.ops, 1, 0, 0, 1_000).is_none());
}

#[test]
fn translation_rejects_undefined_combo() {
    let instrs = vec![ins(0, 7)];
    assert_eq!(
        compile(&instrs).unwrap_err(),
        EmitError::InvalidCombo { index: 0 }
    );
}

#[test]
fn translation_rejects_bad_opcode_and_operand() {
    assert_eq!(
        compile(&vec![ins(8, 0)]).unwrap_err(),
        EmitError::InvalidOpcode { index: 0 }
    );
    assert_eq!(
        compile(&vec![ins(1, 9)]).unwrap_err(),
        EmitError::InvalidOperand { index: 0 }
    );
}

#[test]
fn translation_rejects_unregistered_jump_target() {
    let instrs = vec![ins(3, 4)];
    assert_eq!(
        compile(&instrs).unwrap_err(),
        EmitError::UnregisteredTarget { index: 0 }
    );
}

#[test]
fn translation_reports_first_error() {
    let instrs = vec![ins(1, 1), ins(2, 7), ins(9, 0)];
    assert_eq!(
        compile(&instrs).unwrap_err(),
        EmitError::InvalidCombo { index: 1 }
    );
}

#[test]
fn renders_tape_with_commas() {
    assert_eq!(render_output(&vec![4, 6, 3]), "4,6,3");
    assert_eq!(render_output(&vec![7]), "7");
    assert_eq!(render_output(&vec![]), "");
}

#[test]
fn part1_reports_malformed_text_and_bad_programs() {
    assert!(day17::part1("Register A: 1\nRegister B: 0\nRegister C: 0\n\nProgram: 0\n").is_none());
    assert!(
        day17::part1("Register A: 1\nRegister B: 0\nRegister C: 0\n\nProgram: 0,7\n").is_none()
    );
    // A runaway loop is reported as still running, not left to spin.
    assert!(
        day17::part1("Register A: 1\nRegister B: 0\nRegister C: 0\n\nProgram: 3,0\n").is_none()
    );
}

#[test]
fn every_opcode_behaves() {
    // 2 (modB): B = combo & 7 with combo naming A.
    let outcome = interpret(&vec![ins(2, 4)], 42, 0, 0, 10).unwrap();
    assert_eq!(outcome.b, 42 & 7);
    // 4 (xorC): B ^= C, operand ignored.
    let outcome = interpret(&vec![ins(4, 3)], 0, 12, 10, 10).unwrap();
    assert_eq!(outcome.b, 12 ^ 10);
    // 7 (divC): C = A >> combo literal.
    let outcome = interpret(&vec![ins(7, 2)], 64, 0, 0, 10).unwrap();
    assert_eq!(outcome.c, 16);
    // 0 (divA) with a literal combo operand.
    let outcome = interpret(&vec![ins(0, 2)], 64, 0, 0, 10).unwrap();
    assert_eq!(outcome.a, 16);
    // 2 (modB) with the combo naming B itself: the emitted load is skipped.
    let outcome = interpret(&vec![ins(2, 5)], 0, 100, 0, 10).unwrap();
    assert_eq!(outcome.b, 100 & 7);
    let compiled = compile(&vec![ins(2, 5)]).unwrap();
    assert_eq!(compiled.ops.len(), 1);
    let native = run_ops(&compiled.ops, 0, 100, 0, 10).unwrap();
    assert_eq!(native.b, 100 & 7);
}
