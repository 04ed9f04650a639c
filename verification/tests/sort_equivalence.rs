use soa_sort::columns::DataOriented;
use soa_sort::permutation::apply_permutations;
use soa_sort::record::{new_classics, Classic};
use soa_sort::sort::permutations_unstable_by_key;

#[test]
fn data_oriented_sort_is_valid() {
    let length = 16_000;

    let mut classics = new_classics([42; 32], length);
    let mut data_oriented = DataOriented::new([42; 32], length);

    // before sort
    for i in 0..length {
        let classic = &classics[i];
        assert_eq!(classic.query_index, data_oriented.query_index[i]);
        assert_eq!(classic.distance, data_oriented.distance[i]);
        assert_eq!(classic.attribute, data_oriented.attribute[i]);
        assert_eq!(classic.word_index, data_oriented.word_index[i]);
        assert_eq!(classic.is_exact, data_oriented.is_exact[i]);
    }

    // sort classics
    classics.sort_unstable();

    // sort data oriented
    let permutations = permutations_unstable_by_key(data_oriented.len(), |i| {
        (
            &data_oriented.query_index[i],
            &data_oriented.distance[i],
            &data_oriented.attribute[i],
            &data_oriented.word_index[i],
            &data_oriented.is_exact[i],
        )
    });

    apply_permutations(&permutations, &mut data_oriented.query_index);
    apply_permutations(&permutations, &mut data_oriented.distance);
    apply_permutations(&permutations, &mut data_oriented.attribute);
    apply_permutations(&permutations, &mut data_oriented.word_index);
    apply_permutations(&permutations, &mut data_oriented.is_exact);

    // after sort
    for i in 0..length {
        let classic = &classics[i];
        assert_eq!(classic.query_index, data_oriented.query_index[i]);
        assert_eq!(classic.distance, data_oriented.distance[i]);
        assert_eq!(classic.attribute, data_oriented.attribute[i]);
        assert_eq!(classic.word_index, data_oriented.word_index[i]);
        assert_eq!(classic.is_exact, data_oriented.is_exact[i]);
    }
}

#[test]
fn whole_dataset_sort_matches_row_sort() {
    let length = 16_000;
    let mut classics = new_classics([42; 32], length);
    let mut data_oriented = DataOriented::new([42; 32], length);
    assert_eq!(data_oriented.to_classics(), classics);

    classics.sort_unstable();
    data_oriented.sort_unstable();

    assert_eq!(data_oriented.len(), length);
    assert_eq!(data_oriented.to_classics(), classics);
}

#[test]
fn five_records_with_repeated_query_index() {
    let query_index: Vec<u32> = vec![3, 1, 2, 1, 3];
    let mut classics: Vec<Classic> = query_index
        .iter()
        .map(|&q| Classic {
            query_index: q,
            distance: 7,
            attribute: 9,
            word_index: 11,
            is_exact: true,
        })
        .collect();
    let mut data_oriented = DataOriented {
        query_index: query_index.clone(),
        distance: vec![7; 5],
        attribute: vec![9; 5],
        word_index: vec![11; 5],
        is_exact: vec![true; 5],
    };

    classics.sort_unstable();
    let permutations = permutations_unstable_by_key(data_oriented.len(), |i| data_oriented.key(i));
    apply_permutations(&permutations, &mut data_oriented.query_index);
    apply_permutations(&permutations, &mut data_oriented.distance);
    apply_permutations(&permutations, &mut data_oriented.attribute);
    apply_permutations(&permutations, &mut data_oriented.word_index);
    apply_permutations(&permutations, &mut data_oriented.is_exact);

    assert_eq!(data_oriented.query_index, vec![1, 1, 2, 3, 3]);
    let sorted_queries: Vec<u32> = classics.iter().map(|c| c.query_index).collect();
    assert_eq!(sorted_queries, vec![1, 1, 2, 3, 3]);
    assert_eq!(data_oriented.distance, vec![7; 5]);
    assert_eq!(data_oriented.attribute, vec![9; 5]);
    assert_eq!(data_oriented.word_index, vec![11; 5]);
    assert_eq!(data_oriented.is_exact, vec![true; 5]);
    assert_eq!(data_oriented.to_classics(), classics);
}

#[test]
fn ties_in_the_first_field_are_broken_by_the_later_fields() {
    let mut data_oriented = DataOriented {
        query_index: vec![1, 1, 1, 1, 1, 0],
        distance: vec![2, 2, 2, 2, 1, 9],
        attribute: vec![3, 3, 3, 2, 8, 9],
        word_index: vec![4, 4, 3, 9, 9, 9],
        is_exact: vec![true, false, true, true, true, true],
    };
    let mut classics = data_oriented.to_classics();
    classics.sort_unstable();
    data_oriented.sort_unstable();

    assert_eq!(data_oriented.query_index, vec![0, 1, 1, 1, 1, 1]);
    assert_eq!(data_oriented.distance, vec![9, 1, 2, 2, 2, 2]);
    assert_eq!(data_oriented.attribute, vec![9, 8, 2, 3, 3, 3]);
    assert_eq!(data_oriented.word_index, vec![9, 9, 9, 3, 4, 4]);
    assert_eq!(data_oriented.is_exact, vec![true, true, true, true, false, true]);
    assert_eq!(data_oriented.to_classics(), classics);
}

#[test]
fn sorting_twice_gives_the_same_dataset() {
    let mut once = DataOriented::new([7; 32], 500);
    once.sort_unstable();
    let mut twice = once.clone();
    twice.sort_unstable();
    assert_eq!(once, twice);

    let mut again = DataOriented::new([7; 32], 500);
    again.sort_unstable();
    assert_eq!(once, again);
}

#[test]
fn sorting_a_reversed_dataset_gives_the_same_result() {
    let mut forward = DataOriented::new([3; 32], 300);
    let reversal: Vec<usize> = (0..300).rev().collect();
    let mut backward = forward.clone();
    backward.apply_permutations(&reversal);
    assert_ne!(forward, backward);

    forward.sort_unstable();
    backward.sort_unstable();
    assert_eq!(forward, backward);
}

#[test]
fn sorting_an_empty_dataset_and_a_single_record() {
    let mut empty = DataOriented::new([1; 32], 0);
    assert_eq!(empty.len(), 0);
    empty.sort_unstable();
    assert_eq!(empty.len(), 0);
    assert!(empty.to_classics().is_empty());

    let mut single = DataOriented::new([1; 32], 1);
    let before = single.clone();
    single.sort_unstable();
    assert_eq!(single, before);
}

#[test]
fn sorted_dataset_is_ascending_and_keeps_its_records() {
    let mut data_oriented = DataOriented::new([9; 32], 2_000);
    let mut before = data_oriented.to_classics();
    data_oriented.sort_unstable();
    let after = data_oriented.to_classics();
    for i in 1..after.len() {
        assert!(after[i - 1] <= after[i]);
    }
    before.sort();
    assert_eq!(before, after);
}
