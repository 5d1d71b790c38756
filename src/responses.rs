//! What each endpoint answers: the response records and the game operation
//! behind each of them.
use vstd::prelude::*;
use vstd::string::*;
use crate::domain::{ascending, decimal, AmidaGame, BingoGame};
use crate::rng::{fisher_yates, shuffle_draws, IRng};

verus! {

/// Answer to a bingo draw or reset.
pub struct NumberResponse {
    /// The number drawn, `None` when the game is over or was reset.
    pub number: Option<u8>,
    /// The numbers drawn so far.
    pub history: Vec<u8>,
    /// Status message.
    pub message: String,
    /// The root seed in use.
    pub seed: u32,
}

/// Request to replace the amida participants.
pub struct AmidaRequest {
    /// Participant names.
    pub items: Vec<String>,
}

/// Answer carrying the current amida participants.
pub struct AmidaResponse {
    /// Participant names.
    pub items: Vec<String>,
    /// Status message.
    pub message: String,
    /// The root seed in use.
    pub seed: u32,
}

/// Answer carrying the amida result.
pub struct AmidaResultResponse {
    /// `(prize number, participant)` pairs by position; empty while the
    /// result is not available.
    pub items: Vec<(String, String)>,
    /// Status message.
    pub message: String,
    /// The root seed in use.
    pub seed: u32,
}

fn copy_numbers(v: &Vec<u8>) -> (r: Vec<u8>)
    ensures
        r@ == v@,
{
    let mut r: Vec<u8> = Vec::new();
    let mut i: usize = 0;
    while i < v.len()
        invariant
            i <= v@.len(),
            r@ == v@.subrange(0, i as int),
        decreases v@.len() - i,
    {
        r.push(v[i]);
        i = i + 1;
        assert(r@ =~= v@.subrange(0, i as int));
    }
    r
}

fn copy_names(v: &Vec<String>) -> (r: Vec<String>)
    ensures
        r@ == v@,
{
    let mut r: Vec<String> = Vec::new();
    let mut i: usize = 0;
    while i < v.len()
        invariant
            i <= v@.len(),
            r@ == v@.subrange(0, i as int),
        decreases v@.len() - i,
    {
        r.push(v[i].clone());
        i = i + 1;
        assert(r@ =~= v@.subrange(0, i as int));
    }
    r
}

/// Draws the next bingo number and reports it with the history: "Success"
/// when a number came out, "Game Over" once none is left.
pub fn draw_response<R: IRng>(game: &mut BingoGame<R>, seed: u32) -> (r: NumberResponse)
    requires
        old(game).wf(),
    ensures
        final(game).wf(),
        final(game).domain_size() == old(game).domain_size(),
        old(game).remaining().len() == 0 ==> {
            &&& r.number is None
            &&& final(game).remaining() == old(game).remaining()
            &&& final(game).drawn() == old(game).drawn()
            &&& r.message@ == "Game Over"@
        },
        old(game).remaining().len() > 0 ==> {
            &&& r.number == Some(old(game).remaining().last())
            &&& final(game).remaining() == old(game).remaining().drop_last()
            &&& final(game).drawn() == old(game).drawn().push(old(game).remaining().last())
            &&& r.message@ == "Success"@
        },
        r.history@ == final(game).drawn(),
        r.seed == seed,
{
    let number = game.get_next_number();
    let history = copy_numbers(game.drawn_numbers());
    let message = match number {
        Some(_) => String::from_str("Success"),
        None => String::from_str("Game Over"),
    };
    NumberResponse { number, history, message, seed }
}

/// Resets the bingo game and reports the empty history with "Game Reset".
pub fn reset_response<R: IRng>(game: &mut BingoGame<R>, seed: u32) -> (r: NumberResponse)
    requires
        old(game).wf(),
    ensures
        final(game).wf(),
        final(game).domain_size() == old(game).domain_size(),
        final(game).drawn() == Seq::<u8>::empty(),
        final(game).remaining() == fisher_yates(
            ascending(old(game).domain_size()),
            Seq::new(
                shuffle_draws(old(game).domain_size()),
                |t: int| R::output(old(game).generator().seed(), t as nat),
            ),
        ),
        final(game).remaining().len() == old(game).domain_size(),
        final(game).remaining().to_multiset() == ascending(old(game).domain_size()).to_multiset(),
        final(game).generator().seed() == old(game).generator().seed(),
        final(game).generator().pos() == shuffle_draws(old(game).domain_size()),
        r.number is None,
        r.history@ == Seq::<u8>::empty(),
        r.message@ == "Game Reset"@,
        r.seed == seed,
{
    game.reset();
    NumberResponse {
        number: None,
        history: Vec::new(),
        message: String::from_str("Game Reset"),
        seed,
    }
}

/// Reports the current amida participants with "Success".
pub fn amida_response<R: IRng>(amida: &AmidaGame<R>, seed: u32) -> (r: AmidaResponse)
    ensures
        r.items@ == amida.participants(),
        r.message@ == "Success"@,
        r.seed == seed,
{
    AmidaResponse {
        items: copy_names(amida.participant_names()),
        message: String::from_str("Success"),
        seed,
    }
}

/// Replaces the amida participants with the requested ones and reports
/// them with "Updated".
pub fn update_amida_response<R: IRng>(amida: &mut AmidaGame<R>, request: AmidaRequest, seed: u32) -> (r: AmidaResponse)
    requires
        old(amida).wf(),
    ensures
        final(amida).wf(),
        final(amida).participants() == request.items@,
        final(amida).slots() == old(amida).slots(),
        final(amida).prize_order() == old(amida).prize_order(),
        final(amida).generator() == old(amida).generator(),
        r.items@ == request.items@,
        r.message@ == "Updated"@,
        r.seed == seed,
{
    amida.update(request.items);
    AmidaResponse {
        items: copy_names(amida.participant_names()),
        message: String::from_str("Updated"),
        seed,
    }
}

/// Reports the amida result with "Success": the `(prize number,
/// participant)` pairs once as many participants as prizes are known, no
/// pairs before.
pub fn amida_result_response<R: IRng>(amida: &AmidaGame<R>, seed: u32) -> (r: AmidaResultResponse)
    requires
        amida.wf(),
    ensures
        amida.participants().len() != amida.slots() ==> r.items@.len() == 0,
        amida.participants().len() == amida.slots() ==> {
            &&& r.items@.len() == amida.slots()
            &&& forall|i: int|
                0 <= i < r.items@.len() ==> {
                    &&& (#[trigger] r.items@[i]).0@ == decimal(amida.prize_order()[i] as nat)
                    &&& r.items@[i].1@ == amida.participants()[i]@
                }
        },
        r.message@ == "Success"@,
        r.seed == seed,
{
    let items = match amida.get_result() {
        Some(pairs) => pairs,
        None => Vec::new(),
    };
    AmidaResultResponse { items, message: String::from_str("Success"), seed }
}

} // verus!
