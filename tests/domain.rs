use bingo_amida::domain::{AmidaGame, BingoGame};
use bingo_amida::rng::{IRng, MersenneTwister, XorShift};
use std::collections::HashSet;

fn sorted(v: &[u8]) -> Vec<u8> {
    let mut s = v.to_vec();
    s.sort();
    s
}

#[test]
fn test_new_game_initialization() {
    let rng = XorShift::new(123);
    let game = BingoGame::new(75, rng);
    assert_eq!(game.remaining_numbers.len(), 75);
    assert_eq!(game.history.len(), 0);

    let set: HashSet<u8> = game.remaining_numbers.iter().cloned().collect();
    assert_eq!(set.len(), 75);
    assert!(set.contains(&1));
    assert!(set.contains(&75));
}

#[test]
fn test_draw_number() {
    let rng = XorShift::new(123);
    let mut game = BingoGame::new(75, rng);
    let initial_len = game.remaining_numbers.len();

    let num = game.get_next_number();
    assert!(num.is_some());
    assert_eq!(game.remaining_numbers.len(), initial_len - 1);
    assert_eq!(game.history.len(), 1);
    assert_eq!(game.history[0], num.unwrap());

    assert!(game.history.contains(&num.unwrap()));
    assert!(!game.remaining_numbers.contains(&num.unwrap()));
}

#[test]
fn test_draw_all_numbers() {
    let rng = XorShift::new(123);
    let mut game = BingoGame::new(75, rng);

    for _ in 0..75 {
        assert!(game.get_next_number().is_some());
    }

    assert_eq!(game.remaining_numbers.len(), 0);
    assert_eq!(game.history.len(), 75);

    assert!(game.get_next_number().is_none());
}

#[test]
fn test_reset() {
    let rng = XorShift::new(123);
    let mut game = BingoGame::new(75, rng);
    game.get_next_number();
    game.get_next_number();

    assert_ne!(game.remaining_numbers.len(), 75);
    assert_ne!(game.history.len(), 0);

    game.reset();

    assert_eq!(game.remaining_numbers.len(), 75);
    assert_eq!(game.history.len(), 0);
}

#[test]
fn bingo_partition_holds_after_each_draw() {
    let mut game = BingoGame::new(75, XorShift::new(42));
    let all: Vec<u8> = (1..=75).collect();
    for _ in 0..80 {
        let mut both = game.remaining_numbers.clone();
        both.extend_from_slice(&game.history);
        assert_eq!(sorted(&both), all);
        assert_eq!(game.remaining_numbers.len() + game.history.len(), 75);
        game.get_next_number();
    }
}

#[test]
fn bingo_draw_takes_last_remaining() {
    let mut game = BingoGame::new(10, XorShift::new(9));
    let last = *game.remaining_numbers.last().unwrap();
    assert_eq!(game.get_next_number(), Some(last));
    assert_eq!(game.history, vec![last]);
}

#[test]
fn bingo_exhaustion_is_idempotent() {
    let mut game = BingoGame::new(5, XorShift::new(7));
    for _ in 0..5 {
        assert!(game.get_next_number().is_some());
    }
    let history = game.history.clone();
    for _ in 0..3 {
        assert_eq!(game.get_next_number(), None);
        assert_eq!(game.history, history);
        assert!(game.remaining_numbers.is_empty());
    }
}

#[test]
fn bingo_reset_restores_domain_and_order() {
    let fresh = BingoGame::new(75, XorShift::new(123));
    let mut game = BingoGame::new(75, XorShift::new(123));
    for _ in 0..30 {
        game.get_next_number();
    }
    game.reset();
    assert_eq!(game.remaining_numbers.len(), 75);
    assert!(game.history.is_empty());
    assert_eq!(sorted(&game.remaining_numbers), (1..=75).collect::<Vec<u8>>());
    // the generator is rewound, so a reset reproduces the initial order
    assert_eq!(game.remaining_numbers, fresh.remaining_numbers);
}

#[test]
fn bingo_empty_domain() {
    let mut game = BingoGame::new(0, XorShift::new(1));
    assert!(game.remaining_numbers.is_empty());
    assert_eq!(game.get_next_number(), None);
}

#[test]
fn bingo_order_is_fisher_yates_of_generator() {
    let game = BingoGame::new(6, XorShift::new(123));
    let mut rng = XorShift::new(123);
    let mut expected: Vec<u8> = (1..=6).collect();
    for i in (1..6usize).rev() {
        let j = (rng.next() as usize) % (i + 1);
        expected.swap(i, j);
    }
    assert_eq!(game.remaining_numbers, expected);
}

#[test]
fn amida_prizes_are_permutation() {
    let game = AmidaGame::new(8, MersenneTwister::new(5489));
    assert_eq!(game.prizes.len(), 8);
    assert_eq!(sorted(&game.prizes), vec![1, 2, 3, 4, 5, 6, 7, 8]);
    assert!(game.gests.is_empty());
}

#[test]
fn amida_result_gated_on_participant_count() {
    let mut game = AmidaGame::new(3, MersenneTwister::new(1));
    assert!(game.get_result().is_none());
    game.update(vec!["a".to_string(), "b".to_string()]);
    assert!(game.get_result().is_none());
    game.update(vec!["a".to_string(), "b".to_string(), "c".to_string(), "d".to_string()]);
    assert!(game.get_result().is_none());
    assert_eq!(game.gests.len(), 4);
}

#[test]
fn amida_result_pairs_by_position() {
    let mut game = AmidaGame::new(12, MersenneTwister::new(77));
    let prizes_before = game.prizes.clone();
    let names: Vec<String> = (0..12).map(|i| format!("p{}", i)).collect();
    game.update(names.clone());
    assert_eq!(game.prizes, prizes_before);
    let result = game.get_result().unwrap();
    assert_eq!(result.len(), 12);
    for i in 0..12 {
        assert_eq!(result[i].0, game.prizes[i].to_string());
        assert_eq!(result[i].1, names[i]);
    }
    let labels: HashSet<String> = result.iter().map(|p| p.0.clone()).collect();
    assert!(labels.contains("10"));
    assert!(labels.contains("12"));
}

#[test]
fn amida_labels_are_decimal_up_to_three_digits() {
    let mut game = AmidaGame::new(255, XorShift::new(11));
    let names: Vec<String> = (0..255).map(|i| format!("n{}", i)).collect();
    game.update(names);
    let result = game.get_result().unwrap();
    for i in 0..255 {
        assert_eq!(result[i].0, game.prizes[i].to_string());
    }
    let labels: HashSet<String> = result.iter().map(|p| p.0.clone()).collect();
    assert!(labels.contains("1"));
    assert!(labels.contains("100"));
    assert!(labels.contains("255"));
    assert_eq!(labels.len(), 255);
}
