//! The harness's presentation step: the output tape, one 3-bit value per
//! cell, rendered as comma-separated decimal digits.

use vstd::prelude::*;

verus! {

/// The digit character for a 3-bit tape value.
pub open spec fn digit_char(v: u8) -> char {
    if v == 0 {
        '0'
    } else if v == 1 {
        '1'
    } else if v == 2 {
        '2'
    } else if v == 3 {
        '3'
    } else if v == 4 {
        '4'
    } else if v == 5 {
        '5'
    } else if v == 6 {
        '6'
    } else {
        '7'
    }
}

/// The textual form of a tape: its values as digits, separated by commas.
pub open spec fn render_tape(out: Seq<u8>) -> Seq<char>
    decreases out.len(),
{
    if out.len() == 0 {
        Seq::empty()
    } else if out.len() == 1 {
        seq![digit_char(out[0])]
    } else {
        render_tape(out.drop_last()) + seq![',', digit_char(out.last())]
    }
}

fn digit_str(v: u8) -> (r: &'static str)
    requires
        v < 8,
    ensures
        r@ == seq![digit_char(v)],
{
    proof {
        reveal_strlit("0");
        reveal_strlit("1");
        reveal_strlit("2");
        reveal_strlit("3");
        reveal_strlit("4");
        reveal_strlit("5");
        reveal_strlit("6");
        reveal_strlit("7");
    }
    let r: &'static str = if v == 0 {
        "0"
    } else if v == 1 {
        "1"
    } else if v == 2 {
        "2"
    } else if v == 3 {
        "3"
    } else if v == 4 {
        "4"
    } else if v == 5 {
        "5"
    } else if v == 6 {
        "6"
    } else {
        "7"
    };
    proof {
        assert(r@ =~= seq![digit_char(v)]);
    }
    r
}

/// Renders the tape as comma-separated digits.
pub fn render_output(out: &Vec<u8>) -> (r: String)
    requires
        forall|j: int| 0 <= j < out@.len() ==> out@[j] < 8,
    ensures
        r@ == render_tape(out@),
{
    let ghost tape = out@;
    let mut text = String::new();
    let mut i: usize = 0;
    proof {
        reveal_strlit(",");
        assert(text@ =~= render_tape(tape.subrange(0, 0)));
    }
    while i < out.len()
        invariant
            tape == out@,
            i <= tape.len(),
            forall|j: int| 0 <= j < tape.len() ==> tape[j] < 8,
            text@ == render_tape(tape.subrange(0, i as int)),
        decreases tape.len() - i,
    {
        let ghost before = tape.subrange(0, i as int);
        let ghost after = tape.subrange(0, i as int + 1);
        if i > 0 {
            text.append(",");
            proof {
                reveal_strlit(",");
            }
        }
        let d = digit_str(out[i]);
        text.append(d);
        proof {
            assert(after.drop_last() =~= before);
            assert(after.last() == tape[i as int]);
            if i == 0 {
                assert(text@ =~= render_tape(after));
            } else {
                assert(render_tape(after) == render_tape(before) + seq![
                    ',',
                    digit_char(tape[i as int]),
                ]);
                assert(text@ =~= render_tape(after));
            }
        }
        i = i + 1;
    }
    proof {
        assert(tape.subrange(0, tape.len() as int) =~= tape);
    }
    text
}

} // verus!
