use legal_learn::data::TextPair;
use legal_learn::eval::{
    are_comparable, comparison_key, evaluate, held_out_pairs, is_comparable, query_rank,
    recall_count,
};

fn bits(numbers: &[f32]) -> Vec<u32> {
    numbers.iter().map(|x| x.to_bits()).collect()
}

fn sorted_rank(numbers: &[f32], query: usize) -> usize {
    let mut sims: Vec<(usize, f32)> = numbers.iter().copied().enumerate().collect();
    sims.sort_by(|a, b| b.1.partial_cmp(&a.1).unwrap());
    sims.iter().position(|(j, _)| *j == query).unwrap() + 1
}

#[test]
fn last_pairs_are_held_out() {
    let pairs = |n: usize| -> Vec<TextPair> {
        (0..n)
            .map(|i| TextPair { anchor: i.to_string(), positive: i.to_string() })
            .collect()
    };
    let held = held_out_pairs(pairs(10), 3);
    let anchors: Vec<&str> = held.iter().map(|p| p.anchor.as_str()).collect();
    assert_eq!(anchors, vec!["7", "8", "9"]);
    assert_eq!(held_out_pairs(pairs(3), 3).len(), 3);
    assert_eq!(held_out_pairs(pairs(3), 100).len(), 3);
    assert_eq!(held_out_pairs(pairs(3), 0).len(), 0);
}

#[test]
fn keys_order_as_the_numbers_do() {
    let numbers = [
        f32::NEG_INFINITY, f32::MIN, -1.5, -1.0, -f32::MIN_POSITIVE, -1e-45, -0.0, 0.0, 1e-45,
        f32::MIN_POSITIVE, 0.999_999_9, 1.0, f32::MAX, f32::INFINITY,
    ];
    for a in numbers {
        for b in numbers {
            let keys = comparison_key(a.to_bits()).partial_cmp(&comparison_key(b.to_bits()));
            assert_eq!(keys, a.partial_cmp(&b), "{a} {b}");
        }
    }
}

#[test]
fn what_is_no_number_cannot_be_compared() {
    assert!(is_comparable(1.0_f32.to_bits()));
    assert!(is_comparable(f32::INFINITY.to_bits()));
    assert!(is_comparable(f32::NEG_INFINITY.to_bits()));
    assert!(!is_comparable(f32::NAN.to_bits()));
    assert!(!is_comparable((-f32::NAN).to_bits()));
    assert!(!is_comparable(0x7f80_0001));
    assert!(are_comparable(&bits(&[0.0, 1.0])));
    assert!(!are_comparable(&bits(&[0.0, f32::NAN])));
    assert!(are_comparable(&vec![]));
}

#[test]
fn rank_is_the_place_in_the_sorted_list() {
    let rows: [&[f32]; 5] = [
        &[0.5],
        &[0.1, 0.9, 0.5, -0.3],
        &[0.5, 0.5, 0.5],
        &[0.0, -0.0, 0.0, 1e-45],
        &[-1.0, 1.0, -1.0, 0.25, 0.25, f32::INFINITY],
    ];
    for row in rows {
        for query in 0..row.len() {
            assert_eq!(query_rank(&bits(row), query), sorted_rank(row, query), "{row:?} {query}");
        }
    }
}

#[test]
fn ranks_are_shared_by_no_two() {
    let row = bits(&[0.5, 0.25, 0.5, 1.0, 0.25]);
    let mut ranks: Vec<usize> = (0..row.len()).map(|i| query_rank(&row, i)).collect();
    assert_eq!(ranks, vec![2, 4, 3, 1, 5]);
    ranks.sort();
    assert_eq!(ranks, vec![1, 2, 3, 4, 5]);
}

#[test]
fn recall_grows_with_the_cut() {
    let ranks = vec![1, 3, 7, 12, 5, 10, 11];
    assert_eq!(recall_count(&ranks, 0), 0);
    assert_eq!(recall_count(&ranks, 1), 1);
    assert_eq!(recall_count(&ranks, 5), 3);
    assert_eq!(recall_count(&ranks, 10), 5);
    assert_eq!(recall_count(&ranks, 100), 7);
    assert_eq!(recall_count(&vec![], 10), 0);
}

#[test]
fn retrieval_counts_the_right_answers() {
    let report = evaluate(&vec![
        bits(&[0.9, 0.1, 0.2]),
        bits(&[0.9, 0.1, 0.2]),
        bits(&[0.9, 0.1, 0.2]),
    ]);
    assert_eq!(report.ranks, vec![1, 3, 2]);
    assert_eq!(report.recall_at_1, 1);
    assert_eq!(report.recall_at_5, 3);
    assert_eq!(report.recall_at_10, 3);
    let empty = evaluate(&vec![]);
    assert!(empty.ranks.is_empty());
    assert_eq!(empty.recall_at_10, 0);
}

#[test]
fn recall_looks_at_the_first_one_five_and_ten() {
    let n = 12;
    let rows: Vec<Vec<u32>> =
        (0..n).map(|_| (0..n).map(|j| (1.0 - j as f32 / 100.0).to_bits()).collect()).collect();
    let report = evaluate(&rows);
    assert_eq!(report.ranks, (1..=12).collect::<Vec<usize>>());
    assert_eq!((report.recall_at_1, report.recall_at_5, report.recall_at_10), (1, 5, 10));
}
