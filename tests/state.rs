use bingo_amida::domain::{AmidaGame, BingoGame};
use bingo_amida::responses::{
    amida_response, amida_result_response, draw_response, reset_response, update_amida_response,
    AmidaRequest,
};
use bingo_amida::rng::{IRng, MersenneTwister, XorShift};
use bingo_amida::state::{new_games, AMIDA_STREAM_OFFSET, BINGO_MAX_NUMBER};

#[test]
fn games_come_from_root_seed_with_offset() {
    let (bingo, amida) = new_games(4321, 8);
    let expected_bingo = BingoGame::new(BINGO_MAX_NUMBER, XorShift::new(4321));
    assert_eq!(bingo.remaining_numbers, expected_bingo.remaining_numbers);
    let mut rng = MersenneTwister::new(4321);
    rng.shift(AMIDA_STREAM_OFFSET);
    let expected_amida = AmidaGame::new(8, rng);
    assert_eq!(amida.prizes, expected_amida.prizes);
    assert_eq!(amida.count, 8);
    assert_eq!(bingo.remaining_numbers.len(), 75);
    assert!(bingo.history.is_empty());
    assert!(amida.gests.is_empty());
}

#[test]
fn draw_and_reset_responses() {
    let mut game = BingoGame::new(2, XorShift::new(3));
    let first = draw_response(&mut game, 9);
    assert!(first.number.is_some());
    assert_eq!(first.history, vec![first.number.unwrap()]);
    assert_eq!(first.message, "Success");
    assert_eq!(first.seed, 9);
    let second = draw_response(&mut game, 9);
    assert_eq!(second.history.len(), 2);
    let over = draw_response(&mut game, 9);
    assert_eq!(over.number, None);
    assert_eq!(over.message, "Game Over");
    assert_eq!(over.history.len(), 2);
    let reset = reset_response(&mut game, 9);
    assert_eq!(reset.number, None);
    assert!(reset.history.is_empty());
    assert_eq!(reset.message, "Game Reset");
    assert_eq!(game.remaining_numbers.len(), 2);
}

#[test]
fn amida_responses() {
    let mut amida = AmidaGame::new(2, MersenneTwister::new(5));
    let empty = amida_result_response(&amida, 1);
    assert!(empty.items.is_empty());
    assert_eq!(empty.message, "Success");
    let names = vec!["x".to_string(), "y".to_string()];
    let updated = update_amida_response(&mut amida, AmidaRequest { items: names.clone() }, 1);
    assert_eq!(updated.items, names);
    assert_eq!(updated.message, "Updated");
    let current = amida_response(&amida, 1);
    assert_eq!(current.items, names);
    assert_eq!(current.message, "Success");
    let result = amida_result_response(&amida, 1);
    assert_eq!(result.items.len(), 2);
    assert_eq!(result.items[0], (amida.prizes[0].to_string(), "x".to_string()));
    assert_eq!(result.items[1], (amida.prizes[1].to_string(), "y".to_string()));
}
