use octal_vm::day1;
use octal_vm::day12::CharSpan;
use octal_vm::day22;

fn day1_input(rows: &[(u32, u32)]) -> String {
    let mut text = String::new();
    for (a, b) in rows {
        text.push_str(&format!("{:05}   {:05}\n", a, b));
    }
    text
}

#[test]
fn day1_distance_sum() {
    let text = day1_input(&[(3, 4), (4, 3), (2, 5), (1, 3), (3, 9), (3, 3)]);
    assert_eq!(day1::part1(&text), 11);
}

#[test]
fn day1_distance_needs_sorting() {
    // Unsorted pairing would give 1 + 1 + 3 + 2 + 6 + 0 = 13, not 11.
    let text = day1_input(&[(3, 4), (4, 3), (2, 5), (1, 3), (3, 9), (3, 3)]);
    assert_ne!(day1::part1(&text), 13);
}

#[test]
fn day1_similarity_counts_each_value_once() {
    // 3 appears three times in the second column (weight 9) and 4 once
    // (weight 4); repeated 3s in the first column add nothing more.
    let text = day1_input(&[(3, 4), (4, 3), (2, 5), (1, 3), (3, 9), (3, 3)]);
    assert_eq!(day1::part2(&text), 13);
}

#[test]
fn day1_single_row() {
    let text = day1_input(&[(12345, 12345)]);
    assert_eq!(day1::part1(&text), 0);
    assert_eq!(day1::part2(&text), 12345);
}

#[test]
fn day1_empty_input() {
    assert_eq!(day1::part1(""), 0);
    assert_eq!(day1::part2(""), 0);
}

#[test]
fn day22_one_round() {
    assert_eq!(day22::do_round(123), 15887950);
}

#[test]
fn day22_ten_rounds() {
    let mut x = 123;
    let expected = [
        15887950, 16495136, 527345, 704524, 1553684, 12683156, 11100544, 12249484, 7753432,
        5908254,
    ];
    for e in expected {
        x = day22::do_round(x);
        assert_eq!(x, e);
    }
}

#[test]
fn day22_sum_after_2000_rounds() {
    assert_eq!(day22::do2k(1), 8685429);
    assert_eq!(day22::part1("1\n10\n100\n2024\n"), 37327623);
}

#[test]
fn day22_trailing_fragment_is_dropped() {
    assert_eq!(day22::part1("1\n10"), 8685429);
}

#[test]
fn char_span_len() {
    let span = CharSpan { ch: b'A', start: 3, end: 9, region: 0 };
    assert_eq!(span.len(), 6);
}

#[test]
fn char_span_overlap() {
    let a = CharSpan { ch: b'A', start: 3, end: 9, region: 0 };
    let b = CharSpan { ch: b'A', start: 7, end: 12, region: 1 };
    assert_eq!(a.overlap(&b), 2);
    assert_eq!(b.overlap(&a), 2);
    let inner = CharSpan { ch: b'A', start: 4, end: 6, region: 2 };
    assert_eq!(a.overlap(&inner), 2);
}
