//! Location-list puzzle: the text holds rows of two five-digit numbers
//! (columns 0..5 and 8..13 of each 14-byte row). Both columns are sorted;
//! the first answer is the sum of pairwise distances, the second a similarity
//! score — each distinct value of the first column, weighted by how often it
//! appears in the second.

use vstd::prelude::*;

use vstd::seq_lib::lemma_sorted_unique;
use vstd::relations::sorted_by;
use vstd::relations::total_ordering;
use vstd::slice::slice_subrange;
use vstd::string::StringSliceAdditionalSpecFns;

verus! {

pub open spec fn is_digit(c: u8) -> bool {
    48 <= c <= 57
}

/// The five-digit value written at byte offset `off`.
pub open spec fn row_val(s: Seq<u8>, off: int) -> int {
    (s[off] - 48) * 10000 + (s[off + 1] - 48) * 1000 + (s[off + 2] - 48) * 100 + (s[off + 3]
        - 48) * 10 + (s[off + 4] - 48)
}

/// Row `k` carries digits in both number fields.
pub open spec fn row_ok(s: Seq<u8>, k: int) -> bool {
    &&& forall|j: int| 14 * k <= j < 14 * k + 5 ==> is_digit(#[trigger] s[j])
    &&& forall|j: int| 14 * k + 8 <= j < 14 * k + 13 ==> is_digit(#[trigger] s[j])
}

/// Every full 14-byte row is well-formed; a trailing fragment is ignored.
pub open spec fn input_wf(s: Seq<u8>) -> bool {
    forall|k: int| 0 <= k < s.len() as int / 14 ==> #[trigger] row_ok(s, k)
}

/// First column: the value at the head of each row.
pub open spec fn col1(s: Seq<u8>) -> Seq<i32> {
    Seq::new((s.len() / 14) as nat, |k: int| row_val(s, 14 * k) as i32)
}

/// Second column: the value at offset 8 of each row.
pub open spec fn col2(s: Seq<u8>) -> Seq<i32> {
    Seq::new((s.len() / 14) as nat, |k: int| row_val(s, 14 * k + 8) as i32)
}

pub open spec fn i32_leq() -> spec_fn(i32, i32) -> bool {
    (|x: i32, y: i32| x <= y)
}

/// The first column in ascending order.
pub open spec fn sorted1(s: Seq<u8>) -> Seq<i32> {
    col1(s).sort_by(i32_leq())
}

/// The second column in ascending order.
pub open spec fn sorted2(s: Seq<u8>) -> Seq<i32> {
    col2(s).sort_by(i32_leq())
}

pub open spec fn abs_diff(x: i32, y: i32) -> int {
    if x >= y {
        x - y
    } else {
        y - x
    }
}

/// Sum of pairwise distances over the first `n` positions.
pub open spec fn sum_abs_to(s1: Seq<i32>, s2: Seq<i32>, n: int) -> int
    decreases n,
{
    if n <= 0 {
        0
    } else {
        sum_abs_to(s1, s2, n - 1) + abs_diff(s1[n - 1], s2[n - 1])
    }
}

/// How often `x` occurs in `s`.
pub open spec fn count_val(s: Seq<i32>, x: i32) -> int
    decreases s.len(),
{
    if s.len() == 0 {
        0
    } else {
        count_val(s.drop_last(), x) + if s.last() == x {
            1int
        } else {
            0int
        }
    }
}

/// How many elements of `s` are at most `x`.
pub open spec fn count_le(s: Seq<i32>, x: i32) -> int
    decreases s.len(),
{
    if s.len() == 0 {
        0
    } else {
        count_le(s.drop_last(), x) + if s.last() <= x {
            1int
        } else {
            0int
        }
    }
}

/// Position `j` is the first occurrence of its value.
pub open spec fn is_first(s: Seq<i32>, j: int) -> bool {
    j == 0 || s[j - 1] != s[j]
}

/// Similarity score over the first `n` positions of `s1`: each value counts
/// once, at its first occurrence, weighted by its occurrences in `s2`.
pub open spec fn sim_to(s1: Seq<i32>, s2: Seq<i32>, n: int) -> int
    decreases n,
{
    if n <= 0 {
        0
    } else {
        sim_to(s1, s2, n - 1) + if is_first(s1, n - 1) {
            s1[n - 1] * count_val(s2, s1[n - 1])
        } else {
            0int
        }
    }
}

proof fn lemma_count_val_nonneg(s: Seq<i32>, x: i32)
    ensures
        0 <= count_val(s, x) <= s.len(),
    decreases s.len(),
{
    if s.len() > 0 {
        lemma_count_val_nonneg(s.drop_last(), x);
    }
}

proof fn lemma_count_le_bound(s: Seq<i32>, x: i32)
    ensures
        0 <= count_le(s, x) <= s.len(),
    decreases s.len(),
{
    if s.len() > 0 {
        lemma_count_le_bound(s.drop_last(), x);
    }
}

/// Occurrences of `x` itself are among the elements at most `x`.
proof fn lemma_count_le_ge_val(s: Seq<i32>, x: i32)
    ensures
        count_le(s, x) >= count_val(s, x),
    decreases s.len(),
{
    if s.len() > 0 {
        lemma_count_le_ge_val(s.drop_last(), x);
    }
}

/// Raising the threshold past `x` absorbs at least every occurrence of `y`.
proof fn lemma_count_le_step(s: Seq<i32>, x: i32, y: i32)
    requires
        x < y,
    ensures
        count_le(s, y) >= count_le(s, x) + count_val(s, y),
    decreases s.len(),
{
    if s.len() > 0 {
        lemma_count_le_step(s.drop_last(), x, y);
    }
}

/// Counting matches position by position.
proof fn lemma_count_val_prefix(s: Seq<i32>, x: i32, n: int)
    requires
        0 <= n < s.len(),
    ensures
        count_val(s.subrange(0, n + 1), x) == count_val(s.subrange(0, n), x) + if s[n] == x {
            1int
        } else {
            0int
        },
{
    let pre = s.subrange(0, n + 1);
    assert(pre.drop_last() =~= s.subrange(0, n));
    assert(pre.last() == s[n]);
}

/// A sorted rearrangement keeps exactly the original values, so it keeps
/// their bounds.
proof fn lemma_perm_range(orig: Seq<i32>, sorted: Seq<i32>, lo: i32, hi: i32)
    requires
        orig.to_multiset() == sorted.to_multiset(),
        forall|j: int| 0 <= j < orig.len() ==> lo <= #[trigger] orig[j] <= hi,
    ensures
        sorted.len() == orig.len(),
        forall|j: int| 0 <= j < sorted.len() ==> lo <= #[trigger] sorted[j] <= hi,
{
    broadcast use vstd::seq_lib::group_to_multiset_ensures;

    assert(sorted.len() == sorted.to_multiset().len());
    assert(orig.len() == orig.to_multiset().len());
    assert forall|j: int| 0 <= j < sorted.len() implies lo <= #[trigger] sorted[j] <= hi by {
        assert(sorted.to_multiset().count(sorted[j]) > 0);
        assert(orig.contains(sorted[j]));
    }
}

/// Five digits make a value between 0 and 99999, in either column.
proof fn lemma_col_range(s: Seq<u8>)
    requires
        input_wf(s),
    ensures
        forall|j: int| 0 <= j < col1(s).len() ==> 0 <= #[trigger] col1(s)[j] <= 99999,
        forall|j: int| 0 <= j < col2(s).len() ==> 0 <= #[trigger] col2(s)[j] <= 99999,
{
    assert forall|j: int| 0 <= j < col1(s).len() implies 0 <= #[trigger] col1(s)[j] <= 99999 by {
        assert(row_ok(s, j));
        assert(is_digit(s[14 * j]));
        assert(is_digit(s[14 * j + 1]));
        assert(is_digit(s[14 * j + 2]));
        assert(is_digit(s[14 * j + 3]));
        assert(is_digit(s[14 * j + 4]));
    }
    assert forall|j: int| 0 <= j < col2(s).len() implies 0 <= #[trigger] col2(s)[j] <= 99999 by {
        assert(row_ok(s, j));
        assert(is_digit(s[14 * j + 8]));
        assert(is_digit(s[14 * j + 9]));
        assert(is_digit(s[14 * j + 10]));
        assert(is_digit(s[14 * j + 11]));
        assert(is_digit(s[14 * j + 12]));
    }
}

proof fn lemma_i32_total_ordering()
    ensures
        total_ordering(i32_leq()),
{
    let leq = i32_leq();
    assert forall|x: i32, y: i32, z: i32| #![trigger leq(x, y), leq(y, z)]
        leq(x, y) && leq(y, z) implies leq(x, z) by {}
}

/// Relies on radsort::sort: a stable least-significant-digit radix sort that
/// reorders the slice into ascending order; the result holds exactly the
/// input's elements.
#[verifier::external_body]
fn sort_i32(v: &mut Vec<i32>)
    ensures
        sorted_by(final(v)@, i32_leq()),
        final(v)@.to_multiset() == old(v)@.to_multiset(),
{
    radsort::sort(v.as_mut_slice());
}

/// Reads the five-digit number at the head of `bytes`.
pub fn parse_int(bytes: &[u8]) -> (r: i32)
    requires
        bytes@.len() >= 5,
        forall|j: int| 0 <= j < 5 ==> is_digit(#[trigger] bytes@[j]),
    ensures
        r == row_val(bytes@, 0),
        0 <= r <= 99999,
{
    let a = (bytes[0] - 48) as i32 * 10000;
    let b = (bytes[1] - 48) as i32 * 1000;
    let c = (bytes[2] - 48) as i32 * 100;
    let d = (bytes[3] - 48) as i32 * 10;
    let e = (bytes[4] - 48) as i32;
    a + b + c + d + e
}

/// Reads both columns and sorts each, as the puzzle's shared first step.
fn common(input: &[u8]) -> (r: (Vec<i32>, Vec<i32>))
    requires
        input_wf(input@),
        input@.len() <= 294000,
    ensures
        r.0@ == sorted1(input@),
        r.1@ == sorted2(input@),
        r.0@.len() == col1(input@).len(),
        r.1@.len() == col2(input@).len(),
{
    let ghost s = input@;
    let n = input.len() / 14;
    proof {
        assert(14 * (s.len() as int / 14) <= s.len()) by (nonlinear_arith);
    }
    let mut first: Vec<i32> = Vec::new();
    let mut second: Vec<i32> = Vec::new();
    let mut k: usize = 0;
    while k < n
        invariant
            s == input@,
            s.len() <= 294000,
            input_wf(s),
            n == s.len() as int / 14,
            14 * n <= s.len(),
            k <= n,
            first@.len() == k,
            second@.len() == k,
            forall|j: int| 0 <= j < k ==> first@[j] == col1(s)[j],
            forall|j: int| 0 <= j < k ==> second@[j] == col2(s)[j],
        decreases n - k,
    {
        proof {
            assert(row_ok(s, k as int));
            assert(14 * (k as int) + 14 <= 14 * n) by (nonlinear_arith)
                requires
                    k as int + 1 <= n,
            ;
        }
        let r1 = slice_subrange(input, 14 * k, 14 * k + 5);
        let v1 = parse_int(r1);
        let r2 = slice_subrange(input, 14 * k + 8, 14 * k + 13);
        let v2 = parse_int(r2);
        proof {
            assert(r1@ =~= s.subrange(14 * k as int, 14 * k as int + 5));
            assert(r2@ =~= s.subrange(14 * k as int + 8, 14 * k as int + 13));
            assert(v1 == row_val(s, 14 * (k as int)));
            assert(v2 == row_val(s, 14 * (k as int) + 8));
        }
        first.push(v1);
        second.push(v2);
        k = k + 1;
    }
    proof {
        assert(first@ =~= col1(s));
        assert(second@ =~= col2(s));
    }
    sort_i32(&mut first);
    sort_i32(&mut second);
    proof {
        broadcast use vstd::seq_lib::group_to_multiset_ensures;

        lemma_i32_total_ordering();
        col1(s).lemma_sort_by_ensures(i32_leq());
        col2(s).lemma_sort_by_ensures(i32_leq());
        assert(first@.to_multiset() =~= sorted1(s).to_multiset());
        assert(second@.to_multiset() =~= sorted2(s).to_multiset());
        lemma_sorted_unique(first@, sorted1(s), i32_leq());
        lemma_sorted_unique(second@, sorted2(s), i32_leq());
        assert(first@ =~= sorted1(s));
        assert(second@ =~= sorted2(s));
        assert(sorted1(s).len() == sorted1(s).to_multiset().len());
        assert(col1(s).len() == col1(s).to_multiset().len());
        assert(sorted2(s).len() == sorted2(s).to_multiset().len());
        assert(col2(s).len() == col2(s).to_multiset().len());
    }
    (first, second)
}

/// Sum of distances between the two sorted columns, position by position.
pub fn part1(input: &str) -> (r: i32)
    requires
        input_wf(input.spec_bytes()),
        input.spec_bytes().len() <= 294000,
    ensures
        r == sum_abs_to(
            sorted1(input.spec_bytes()),
            sorted2(input.spec_bytes()),
            col1(input.spec_bytes()).len() as int,
        ),
{
    let ghost s = input.spec_bytes();
    let bytes = input.as_bytes();
    let (first, second) = common(bytes);
    let ghost s1 = sorted1(s);
    let ghost s2 = sorted2(s);
    proof {
        lemma_i32_total_ordering();
        col1(s).lemma_sort_by_ensures(i32_leq());
        col2(s).lemma_sort_by_ensures(i32_leq());
        lemma_col_range(s);
        lemma_perm_range(col1(s), s1, 0, 99999);
        lemma_perm_range(col2(s), s2, 0, 99999);
        assert(s.len() as int / 14 <= 21000);
    }
    let n = first.len();
    let mut sum: i32 = 0;
    let mut i: usize = 0;
    while i < n
        invariant
            first@ == s1,
            second@ == s2,
            n == first@.len(),
            n == second@.len(),
            n <= 21000,
            i <= n,
            forall|j: int| 0 <= j < n ==> 0 <= #[trigger] s1[j] <= 99999,
            forall|j: int| 0 <= j < n ==> 0 <= #[trigger] s2[j] <= 99999,
            sum == sum_abs_to(s1, s2, i as int),
            0 <= sum <= 99999 * i,
        decreases n - i,
    {
        let a = first[i];
        let b = second[i];
        let d = if a >= b {
            a - b
        } else {
            b - a
        };
        sum = sum + d;
        i = i + 1;
    }
    sum
}

/// Similarity score: each distinct value of the first column, times the
/// value's occurrence count in the second column.
pub fn part2(input: &str) -> (r: i32)
    requires
        input_wf(input.spec_bytes()),
        input.spec_bytes().len() <= 294000,
    ensures
        r == sim_to(
            sorted1(input.spec_bytes()),
            sorted2(input.spec_bytes()),
            col1(input.spec_bytes()).len() as int,
        ),
{
    let ghost s = input.spec_bytes();
    let bytes = input.as_bytes();
    let (first, second) = common(bytes);
    let ghost s1 = sorted1(s);
    let ghost s2 = sorted2(s);
    proof {
        lemma_i32_total_ordering();
        col1(s).lemma_sort_by_ensures(i32_leq());
        col2(s).lemma_sort_by_ensures(i32_leq());
        lemma_col_range(s);
        lemma_perm_range(col1(s), s1, 0, 99999);
        lemma_perm_range(col2(s), s2, 0, 99999);
        assert(s.len() as int / 14 <= 21000);
    }
    let n = first.len();
    let n2 = second.len();
    let mut sum: i32 = 0;
    let mut i: usize = 0;
    while i < n
        invariant
            first@ == s1,
            second@ == s2,
            n == s1.len(),
            n2 == s2.len(),
            n <= 21000,
            n2 <= 21000,
            i <= n,
            sorted_by(s1, i32_leq()),
            forall|j: int| 0 <= j < n ==> 0 <= #[trigger] s1[j] <= 99999,
            forall|j: int| 0 <= j < n2 ==> 0 <= #[trigger] s2[j] <= 99999,
            sum == sim_to(s1, s2, i as int),
            0 <= sum,
            i > 0 ==> sum <= 99999 * count_le(s2, s1[i - 1]),
        decreases n - i,
    {
        let a = first[i];
        let first_occurrence = i == 0 || first[i - 1] != a;
        if first_occurrence {
            // Count how often `a` occurs in the second column.
            let mut count: i32 = 0;
            let mut j: usize = 0;
            while j < n2
                invariant
                    second@ == s2,
                    n2 == s2.len(),
                    n2 <= 21000,
                    j <= n2,
                    0 <= count <= j,
                    count == count_val(s2.subrange(0, j as int), a),
                decreases n2 - j,
            {
                proof {
                    lemma_count_val_prefix(s2, a, j as int);
                }
                if second[j] == a {
                    count = count + 1;
                }
                j = j + 1;
            }
            proof {
                assert(s2.subrange(0, n2 as int) =~= s2);
                lemma_count_val_nonneg(s2, a);
                lemma_count_le_bound(s2, a);
                lemma_count_le_ge_val(s2, a);
                assert(a * count <= 99999 * count) by (nonlinear_arith)
                    requires
                        0 <= count,
                        0 <= a <= 99999,
                ;
                assert(0 <= a * count) by (nonlinear_arith)
                    requires
                        0 <= count,
                        0 <= a,
                ;
                if i > 0 {
                    let prev = s1[i as int - 1];
                    assert(i32_leq()(prev, a));
                    assert(prev < a);
                    lemma_count_le_step(s2, prev, a);
                }
            }
            sum = sum + a * count;
        } else {
            proof {
                assert(s1[i as int - 1] == s1[i as int]);
            }
        }
        i = i + 1;
    }
    sum
}

} // verus!
