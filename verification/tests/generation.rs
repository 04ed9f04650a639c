use rand::distributions::Standard;
use rand::rngs::StdRng;
use rand::{Rng, SeedableRng};
use soa_sort::columns::DataOriented;
use soa_sort::record::{classics_from_columns, new_classics, Classic};

#[test]
fn columns_hold_what_the_generator_yields() {
    let seed = [42u8; 32];
    let data = DataOriented::new(seed, 1_000);

    let query_index: Vec<u32> = StdRng::from_seed(seed).sample_iter(Standard).take(1_000).collect();
    let distance: Vec<u8> = StdRng::from_seed(seed).sample_iter(Standard).take(1_000).collect();
    let attribute: Vec<u16> = StdRng::from_seed(seed).sample_iter(Standard).take(1_000).collect();
    let word_index: Vec<u16> = StdRng::from_seed(seed).sample_iter(Standard).take(1_000).collect();
    let is_exact: Vec<bool> = StdRng::from_seed(seed).sample_iter(Standard).take(1_000).collect();

    assert_eq!(data.query_index, query_index);
    assert_eq!(data.distance, distance);
    assert_eq!(data.attribute, attribute);
    assert_eq!(data.word_index, word_index);
    assert_eq!(data.is_exact, is_exact);
}

#[test]
fn records_hold_what_the_generator_yields() {
    let seed = [42u8; 32];
    let rng = StdRng::from_seed(seed);
    let mut query_index = rng.clone().sample_iter(Standard);
    let mut distance = rng.clone().sample_iter(Standard);
    let mut attribute = rng.clone().sample_iter(Standard);
    let mut word_index = rng.clone().sample_iter(Standard);
    let mut is_exact = rng.clone().sample_iter(Standard);
    let mut expected = Vec::new();
    for _ in 0..300 {
        expected.push(Classic {
            query_index: query_index.next().unwrap(),
            distance: distance.next().unwrap(),
            attribute: attribute.next().unwrap(),
            word_index: word_index.next().unwrap(),
            is_exact: is_exact.next().unwrap(),
        });
    }
    assert_eq!(new_classics(seed, 300), expected);
}

#[test]
fn generation_gives_the_asked_length() {
    for len in [0usize, 1, 2, 33, 4_096] {
        let data = DataOriented::new([0; 32], len);
        assert_eq!(data.len(), len);
        assert_eq!(data.query_index.len(), len);
        assert_eq!(data.distance.len(), len);
        assert_eq!(data.attribute.len(), len);
        assert_eq!(data.word_index.len(), len);
        assert_eq!(data.is_exact.len(), len);
        assert_eq!(new_classics([0; 32], len).len(), len);
    }
}

#[test]
fn one_seed_gives_one_dataset() {
    assert_eq!(DataOriented::new([42; 32], 512), DataOriented::new([42; 32], 512));
    assert_eq!(new_classics([42; 32], 512), new_classics([42; 32], 512));
}

#[test]
fn different_seeds_give_different_datasets() {
    let a = DataOriented::new([1; 32], 64);
    let b = DataOriented::new([2; 32], 64);
    assert_ne!(a.query_index, b.query_index);
    assert_ne!(a.distance, b.distance);
    assert_ne!(a.attribute, b.attribute);
    assert_ne!(a.is_exact, b.is_exact);
    assert_ne!(new_classics([1; 32], 64), new_classics([2; 32], 64));
}

#[test]
fn generated_values_are_not_the_seed() {
    let seed = [42u8; 32];
    let data = DataOriented::new(seed, 32);
    assert_ne!(data.distance, seed.to_vec());
    assert!(data.query_index.iter().any(|&q| q != 42));
}

#[test]
fn rows_and_columns_of_one_seed_agree() {
    let classics = new_classics([21; 32], 777);
    let data = DataOriented::new([21; 32], 777);
    assert_eq!(data.to_classics(), classics);
    for i in 0..777 {
        assert_eq!(data.key(i), classics[i]);
    }
}

#[test]
fn classics_from_columns_zips_the_fields() {
    let classics = classics_from_columns(&[1, 2], &[3, 4], &[5, 6], &[7, 8], &[true, false]);
    assert_eq!(
        classics,
        vec![
            Classic { query_index: 1, distance: 3, attribute: 5, word_index: 7, is_exact: true },
            Classic { query_index: 2, distance: 4, attribute: 6, word_index: 8, is_exact: false },
        ]
    );
    assert!(classics_from_columns(&[], &[], &[], &[], &[]).is_empty());
}
