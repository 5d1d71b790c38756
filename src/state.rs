//! The games the server runs: one bingo game and one amida game, built from
//! one root seed. Guarding them with locks is left to the request layer,
//! which owns them.
//!
//! Offset policy: both generators are seeded with the root seed. The bingo
//! generator starts at the beginning of its stream; the amida generator is
//! first shifted past `AMIDA_STREAM_OFFSET` outputs, the number of draws the
//! bingo game's initial shuffle makes, so the two streams never start on
//! shared ground.
use vstd::prelude::*;
use crate::domain::{ascending, AmidaGame, BingoGame};
use crate::rng::{effective_seed, fisher_yates, shuffle_draws, IRng, MersenneTwister, XorShift};
use crate::seed::line_value;

verus! {

/// Largest number of the bingo game.
pub const BINGO_MAX_NUMBER: usize = 75;

/// Number of amida participants when none is configured.
pub const DEFAULT_PRIZE_COUNT: usize = 8;

/// Largest number of amida participants: prize numbers are bytes.
pub const MAX_PRIZE_COUNT: usize = 255;

/// How many outputs the amida generator skips: the draws of the bingo
/// game's initial shuffle of 75 numbers.
pub const AMIDA_STREAM_OFFSET: u64 = 74;

/// The participant count configured by `text`: the number it holds once
/// trimmed, if that is at most `MAX_PRIZE_COUNT`, else `DEFAULT_PRIZE_COUNT`.
pub open spec fn configured_prize_count(text: Seq<u8>) -> nat {
    match line_value(text) {
        Some(v) => if v <= MAX_PRIZE_COUNT {
            v as nat
        } else {
            DEFAULT_PRIZE_COUNT as nat
        },
        None => DEFAULT_PRIZE_COUNT as nat,
    }
}

/// Reads the participant count from the contents of a prize-count file.
pub fn prize_count_from_text(text: &[u8]) -> (r: usize)
    ensures
        r == configured_prize_count(text@),
        r <= MAX_PRIZE_COUNT,
{
    let n = crate::seed::parse_line(text, 0, text.len());
    proof {
        assert(text@.subrange(0, text@.len() as int) =~= text@);
    }
    match n {
        Some(v) => if v as usize <= MAX_PRIZE_COUNT {
            v as usize
        } else {
            DEFAULT_PRIZE_COUNT
        },
        None => DEFAULT_PRIZE_COUNT,
    }
}

/// The two games for root seed `seed`: bingo over `1..=75` shuffled by an
/// XorShift generator from the start of its stream, and amida over
/// `1..=prize_count` shuffled by a Mersenne Twister shifted by
/// `AMIDA_STREAM_OFFSET`.
pub fn new_games(seed: u32, prize_count: usize) -> (r: (BingoGame<XorShift>, AmidaGame<MersenneTwister>))
    requires
        prize_count <= MAX_PRIZE_COUNT,
    ensures
        r.0.wf(),
        r.0.domain_size() == BINGO_MAX_NUMBER,
        r.0.drawn() == Seq::<u8>::empty(),
        r.0.remaining() == fisher_yates(
            ascending(BINGO_MAX_NUMBER as nat),
            Seq::new(
                shuffle_draws(BINGO_MAX_NUMBER as nat),
                |t: int| XorShift::output(effective_seed(seed), t as nat),
            ),
        ),
        r.1.wf(),
        r.1.slots() == prize_count,
        r.1.participants() == Seq::<String>::empty(),
        r.1.prize_order() == fisher_yates(
            ascending(prize_count as nat),
            Seq::new(
                shuffle_draws(prize_count as nat),
                |t: int| MersenneTwister::output(effective_seed(seed), (AMIDA_STREAM_OFFSET + t) as nat),
            ),
        ),
{
    let bingo_rng = XorShift::new(seed);
    let mut amida_rng = MersenneTwister::new(seed);
    amida_rng.shift(AMIDA_STREAM_OFFSET);
    let bingo = BingoGame::new(BINGO_MAX_NUMBER, bingo_rng);
    let amida = AmidaGame::new(prize_count, amida_rng);
    proof {
        assert(crate::rng::upcoming(bingo_rng, shuffle_draws(BINGO_MAX_NUMBER as nat)) =~= Seq::new(
            shuffle_draws(BINGO_MAX_NUMBER as nat),
            |t: int| XorShift::output(effective_seed(seed), t as nat),
        ));
        assert(crate::rng::upcoming(amida_rng, shuffle_draws(prize_count as nat)) =~= Seq::new(
            shuffle_draws(prize_count as nat),
            |t: int| MersenneTwister::output(effective_seed(seed), (AMIDA_STREAM_OFFSET + t) as nat),
        ));
    }
    (bingo, amida)
}

} // verus!
