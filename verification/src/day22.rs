//! Secret-number puzzle: each line of the input is a starting secret below
//! 2^24; a secret evolves by three xor-and-prune phases per round, and the
//! answer is the sum of everyone's secret after 2000 rounds.

use vstd::prelude::*;

use vstd::string::StringSliceAdditionalSpecFns;

verus! {

pub open spec fn is_digit(c: u8) -> bool {
    48 <= c <= 57
}

/// Mix `b` into `a` and prune to 24 bits.
pub open spec fn prune_mix_spec(a: u32, b: u32) -> u32 {
    (a ^ b) & 16777215
}

/// One round: mix in the secret shifted left 6, right 5, then left 11.
pub open spec fn round_spec(x: u32) -> u32 {
    let x1 = prune_mix_spec(x, x << 6);
    let x2 = prune_mix_spec(x1, x1 >> 5);
    prune_mix_spec(x2, x2 << 11)
}

/// The secret after `n` rounds.
pub open spec fn rounds(x: u32, n: nat) -> u32
    decreases n,
{
    if n == 0 {
        x
    } else {
        rounds(round_spec(x), (n - 1) as nat)
    }
}

/// The text scans cleanly with accumulator `n` at position `i`: every byte is
/// a digit or a newline, accumulation stays below 2^32, and each finished
/// line's value is below 2^24.
pub open spec fn scan_ok(s: Seq<u8>, i: int, n: u32) -> bool
    decreases s.len() - i,
{
    if i < 0 || i >= s.len() {
        true
    } else if s[i] == 10 {
        n < 16777216 && scan_ok(s, i + 1, 0)
    } else {
        &&& is_digit(s[i])
        &&& 10 * n + (s[i] - 48) < 0x1_0000_0000
        &&& scan_ok(s, i + 1, (10 * n + (s[i] - 48)) as u32)
    }
}

/// Sum over each newline-finished line of the 2000th round of its value;
/// digits accumulate into `n`, and a trailing unfinished line is dropped.
pub open spec fn scan_sum(s: Seq<u8>, i: int, n: u32) -> int
    decreases s.len() - i,
{
    if i < 0 || i >= s.len() {
        0
    } else if s[i] == 10 {
        rounds(n, 2000) + scan_sum(s, i + 1, 0)
    } else {
        scan_sum(s, i + 1, (10 * n + (s[i] - 48)) as u32)
    }
}

/// Mixes and prunes, as one phase of a round.
pub fn prune_mix(a: u32, b: u32) -> (r: u32)
    ensures
        r == prune_mix_spec(a, b),
{
    (a ^ b) & 16777215
}

/// One round of secret evolution.
pub fn do_round(x: u32) -> (r: u32)
    ensures
        r == round_spec(x),
{
    let x = prune_mix(x, x << 6u32);
    let x = prune_mix(x, x >> 5u32);
    let x = prune_mix(x, x << 11u32);
    x
}

/// 2000 rounds of secret evolution.
pub fn do2k(x: u32) -> (r: u32)
    ensures
        r == rounds(x, 2000),
{
    let ghost x0 = x;
    let mut x = x;
    let mut i: usize = 0;
    while i < 2000
        invariant
            i <= 2000,
            rounds(x0, 2000) == rounds(x, (2000 - i) as nat),
        decreases 2000 - i,
    {
        x = do_round(x);
        i = i + 1;
    }
    x
}

/// Sum of every line's secret after 2000 rounds.
pub fn part1(input: &str) -> (r: i64)
    requires
        scan_ok(input.spec_bytes(), 0, 0),
        input.spec_bytes().len() <= 0x4000_0000,
    ensures
        r == scan_sum(input.spec_bytes(), 0, 0),
{
    let ghost s = input.spec_bytes();
    let bytes = input.as_bytes();
    let mut index: usize = 0;
    let mut n: u32 = 0;
    let mut sum: i64 = 0;
    while index < bytes.len()
        invariant
            bytes@ == s,
            s.len() <= 0x4000_0000,
            index <= s.len(),
            scan_ok(s, index as int, n),
            scan_sum(s, 0, 0) == sum + scan_sum(s, index as int, n),
            0 <= sum <= index * 0x1_0000_0000,
        decreases s.len() - index,
    {
        let digit = bytes[index];
        index = index + 1;
        if digit == 10 {
            let v = do2k(n);
            sum = sum + (v as i64);
            n = 0;
        } else {
            n = 10 * n + ((digit - 48) as u32);
        }
    }
    sum
}

} // verus!
