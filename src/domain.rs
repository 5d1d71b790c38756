//! The two game engines: a bingo draw without replacement and an amida
//! (ladder lottery) prize assignment, each owning its generator.
use vstd::prelude::*;
use vstd::string::StringExecFns;
use crate::rng::{fisher_yates, shuffle_draws, shuffled_by, upcoming, IRng};

verus! {

/// The numbers `1..=n` in ascending order.
pub open spec fn ascending(n: nat) -> Seq<u8> {
    Seq::new(n, |i: int| (i + 1) as u8)
}

/// How often `v` occurs in `1..=n`: once inside the range, never outside.
pub open spec fn domain_count(n: nat, v: u8) -> nat {
    if 1 <= v <= n {
        1
    } else {
        0
    }
}

/// Each value of `1..=n` occurs once in `ascending(n)`, and nothing else does.
pub proof fn lemma_ascending_counts(n: nat)
    requires
        n <= 255,
    ensures
        ascending(n).len() == n,
        forall|v: u8| #[trigger] ascending(n).to_multiset().count(v) == domain_count(n, v),
    decreases n,
{
    broadcast use vstd::seq_lib::group_to_multiset_ensures;
    broadcast use vstd::multiset::group_multiset_axioms;

    if n == 0 {
        assert(ascending(0) =~= Seq::<u8>::empty());
    } else {
        let m = (n - 1) as nat;
        lemma_ascending_counts(m);
        assert(ascending(n) =~= ascending(m).push(n as u8));
    }
}

/// A sequence whose multiset is that of `ascending(n)` holds each of `1..=n`
/// exactly once and nothing else.
pub proof fn lemma_permutation_of_domain(s: Seq<u8>, n: nat)
    requires
        n <= 255,
        s.to_multiset() == ascending(n).to_multiset(),
    ensures
        s.len() == n,
        forall|v: u8| #[trigger] s.to_multiset().count(v) == domain_count(n, v),
        forall|v: u8| #[trigger] s.contains(v) <==> 1 <= v <= n,
        s.no_duplicates(),
{
    broadcast use vstd::seq_lib::group_to_multiset_ensures;

    lemma_ascending_counts(n);
    assert(s.len() == s.to_multiset().len());
    assert(ascending(n).len() == ascending(n).to_multiset().len());
    assert forall|v: u8| #[trigger] s.contains(v) <==> 1 <= v <= n by {
        assert(s.to_multiset().count(v) == domain_count(n, v));
    }
    s.lemma_multiset_has_no_duplicates_conv();
}

/// The vector `1, 2, ..., count`.
fn ascending_numbers(count: usize) -> (r: Vec<u8>)
    requires
        count <= 255,
    ensures
        r@ == ascending(count as nat),
{
    let mut v: Vec<u8> = Vec::new();
    let mut i: usize = 0;
    while i < count
        invariant
            i <= count <= 255,
            v@ == ascending(i as nat),
        decreases count - i,
    {
        v.push((i + 1) as u8);
        i = i + 1;
        assert(v@ =~= ascending(i as nat));
    }
    v
}

/// The decimal digit `d` as a one-character string.
fn digit_text(d: u8) -> (r: &'static str)
    requires
        d < 10,
    ensures
        r@ == seq![(d + 48) as char],
{
    proof {
        reveal_strlit("0");
        reveal_strlit("1");
        reveal_strlit("2");
        reveal_strlit("3");
        reveal_strlit("4");
        reveal_strlit("5");
        reveal_strlit("6");
        reveal_strlit("7");
        reveal_strlit("8");
        reveal_strlit("9");
    }
    if d == 0 {
        "0"
    } else if d == 1 {
        "1"
    } else if d == 2 {
        "2"
    } else if d == 3 {
        "3"
    } else if d == 4 {
        "4"
    } else if d == 5 {
        "5"
    } else if d == 6 {
        "6"
    } else if d == 7 {
        "7"
    } else if d == 8 {
        "8"
    } else {
        "9"
    }
}

/// The decimal notation of `n`, as `u8`'s `to_string` writes it.
fn decimal_string(n: u8) -> (r: String)
    ensures
        r@ == decimal(n as nat),
{
    let mut s = String::new();
    if n >= 100 {
        s.append(digit_text(n / 100));
    }
    if n >= 10 {
        s.append(digit_text((n / 10) % 10));
    }
    s.append(digit_text(n % 10));
    proof {
        reveal_with_fuel(decimal, 3);
        assert((n / 10) / 10 == n / 100);
        assert(s@ =~= decimal(n as nat));
    }
    s
}

/// The decimal notation of `n`, without leading zeros.
pub open spec fn decimal(n: nat) -> Seq<char>
    decreases n,
{
    if n < 10 {
        seq![(n + 48) as char]
    } else {
        decimal(n / 10).push(((n % 10) + 48) as char)
    }
}

/// The amida (ladder lottery) game: a fixed random assignment of prize
/// numbers `1..=count` to participant positions.
pub struct AmidaGame<R: IRng> {
    /// Number of participants and prizes.
    pub count: usize,
    /// Participant names, in position order.
    pub gests: Vec<String>,
    /// Prize number of each position, shuffled once at construction.
    pub prizes: Vec<u8>,
    rng: R,
}

impl<R: IRng> AmidaGame<R> {
    /// The generator the game owns.
    pub closed spec fn generator(&self) -> R {
        self.rng
    }

    /// The number of participants and prizes.
    pub closed spec fn slots(&self) -> nat {
        self.count as nat
    }

    /// The participant names, in position order.
    pub closed spec fn participants(&self) -> Seq<String> {
        self.gests@
    }

    /// The prize number at each position.
    pub closed spec fn prize_order(&self) -> Seq<u8> {
        self.prizes@
    }

    /// The prizes are a permutation of `1..=count` and the generator is sound.
    pub closed spec fn wf(&self) -> bool {
        &&& self.count <= 255
        &&& self.generator().wf()
        &&& self.prizes@.to_multiset() == ascending(self.count as nat).to_multiset()
    }

    /// A game for `count` participants whose prizes are `1..=count` shuffled
    /// with `rng`.
    pub fn new(count: usize, rng: R) -> (r: AmidaGame<R>)
        requires
            count <= 255,
            rng.wf(),
        ensures
            r.wf(),
            r.slots() == count,
            r.participants() == Seq::<String>::empty(),
            r.prize_order() == shuffled_by(ascending(count as nat), rng),
            r.generator().seed() == rng.seed(),
            r.generator().pos() == rng.pos() + shuffle_draws(count as nat),
    {
        let mut game = AmidaGame { count, gests: Vec::new(), prizes: ascending_numbers(count), rng };
        game.shuffle();
        game
    }

    /// Shuffles the prizes with the game's generator.
    fn shuffle(&mut self)
        requires
            old(self).generator().wf(),
        ensures
            final(self).generator().wf(),
            final(self).generator().seed() == old(self).generator().seed(),
            final(self).generator().pos() == old(self).generator().pos() + shuffle_draws(
                old(self).prizes@.len(),
            ),
            final(self).prizes@ == shuffled_by(old(self).prizes@, old(self).generator()),
            final(self).prizes@.to_multiset() == old(self).prizes@.to_multiset(),
            final(self).count == old(self).count,
            final(self).gests == old(self).gests,
    {
        self.rng.shuffle(&mut self.prizes);
    }

    /// The participant names, in position order.
    pub fn participant_names(&self) -> (r: &Vec<String>)
        ensures
            r@ == self.participants(),
    {
        &self.gests
    }

    /// Replaces the participant list as given, whatever its length.
    pub fn update(&mut self, gests: Vec<String>)
        requires
            old(self).wf(),
        ensures
            final(self).wf(),
            final(self).participants() == gests@,
            final(self).slots() == old(self).slots(),
            final(self).prize_order() == old(self).prize_order(),
            final(self).generator() == old(self).generator(),
    {
        self.gests = gests;
    }

    /// The pairs `(prize number, participant)` by position, or `None` while
    /// the number of participants differs from `count`.
    pub fn get_result(&self) -> (r: Option<Vec<(String, String)>>)
        requires
            self.wf(),
        ensures
            r.is_none() <==> self.participants().len() != self.slots(),
            r matches Some(pairs) ==> {
                &&& pairs@.len() == self.slots()
                &&& forall|i: int|
                    0 <= i < pairs@.len() ==> {
                        &&& (#[trigger] pairs@[i]).0@ == decimal(self.prize_order()[i] as nat)
                        &&& pairs@[i].1@ == self.participants()[i]@
                    }
            },
    {
        if self.gests.len() != self.count {
            return None;
        }
        proof {
            lemma_permutation_of_domain(self.prizes@, self.count as nat);
        }
        let mut result: Vec<(String, String)> = Vec::new();
        let mut i: usize = 0;
        while i < self.count
            invariant
                i <= self.count,
                self.gests@.len() == self.count,
                self.prizes@.len() == self.count,
                result@.len() == i,
                forall|k: int|
                    0 <= k < i ==> {
                        &&& (#[trigger] result@[k]).0@ == decimal(self.prizes@[k] as nat)
                        &&& result@[k].1@ == self.gests@[k]@
                    },
            decreases self.count - i,
        {
            let prize = decimal_string(self.prizes[i]);
            let gest = self.gests[i].clone();
            result.push((prize, gest));
            i = i + 1;
        }
        Some(result)
    }
}

/// The prize numbers of a well-formed amida game are a bijection onto
/// `1..=count`: each of those numbers occurs exactly once, and no other.
pub proof fn lemma_prizes_are_permutation<R: IRng>(g: AmidaGame<R>)
    requires
        g.wf(),
    ensures
        g.prize_order().len() == g.slots(),
        forall|v: u8| #[trigger] g.prize_order().to_multiset().count(v) == domain_count(g.slots(), v),
        forall|v: u8| #[trigger] g.prize_order().contains(v) <==> 1 <= v <= g.slots(),
        g.prize_order().no_duplicates(),
{
    lemma_permutation_of_domain(g.prize_order(), g.slots());
}

/// The bingo game: the numbers `1..=count` drawn one at a time, without
/// replacement, in an order fixed by a shuffle.
pub struct BingoGame<R: IRng> {
    count: usize,
    /// Numbers not drawn yet; the next draw takes the last one.
    pub remaining_numbers: Vec<u8>,
    /// Numbers drawn so far, in draw order.
    pub history: Vec<u8>,
    rng: R,
}

impl<R: IRng> BingoGame<R> {
    /// The generator the game owns.
    pub closed spec fn generator(&self) -> R {
        self.rng
    }

    /// The largest number of the game; the domain is `1..=domain_size()`.
    pub closed spec fn domain_size(&self) -> nat {
        self.count as nat
    }

    /// The numbers still to draw, the next one last.
    pub closed spec fn remaining(&self) -> Seq<u8> {
        self.remaining_numbers@
    }

    /// The numbers drawn so far, in draw order.
    pub closed spec fn drawn(&self) -> Seq<u8> {
        self.history@
    }

    /// Remaining and drawn numbers together are a permutation of the domain,
    /// and the generator is sound.
    pub closed spec fn wf(&self) -> bool {
        &&& self.count <= 255
        &&& self.generator().wf()
        &&& (self.remaining_numbers@ + self.history@).to_multiset() == ascending(
            self.count as nat,
        ).to_multiset()
    }

    /// A game over `1..=count` whose draw order is `1..=count` shuffled with
    /// `rng`, with nothing drawn yet.
    pub fn new(count: usize, rng: R) -> (r: BingoGame<R>)
        requires
            count <= 255,
            rng.wf(),
        ensures
            r.wf(),
            r.domain_size() == count,
            r.drawn() == Seq::<u8>::empty(),
            r.remaining() == shuffled_by(ascending(count as nat), rng),
            r.generator().seed() == rng.seed(),
            r.generator().pos() == rng.pos() + shuffle_draws(count as nat),
    {
        let mut game = BingoGame {
            count,
            remaining_numbers: ascending_numbers(count),
            history: Vec::new(),
            rng,
        };
        game.shuffle();
        proof {
            assert(game.remaining_numbers@ + game.history@ =~= game.remaining_numbers@);
        }
        game
    }

    /// Shuffles the remaining numbers with the game's generator.
    fn shuffle(&mut self)
        requires
            old(self).generator().wf(),
        ensures
            final(self).generator().wf(),
            final(self).generator().seed() == old(self).generator().seed(),
            final(self).generator().pos() == old(self).generator().pos() + shuffle_draws(
                old(self).remaining_numbers@.len(),
            ),
            final(self).remaining_numbers@ == shuffled_by(
                old(self).remaining_numbers@,
                old(self).generator(),
            ),
            final(self).remaining_numbers@.to_multiset()
                == old(self).remaining_numbers@.to_multiset(),
            final(self).count == old(self).count,
            final(self).history == old(self).history,
    {
        self.rng.shuffle(&mut self.remaining_numbers);
    }

    /// The numbers drawn so far, in draw order.
    pub fn drawn_numbers(&self) -> (r: &Vec<u8>)
        ensures
            r@ == self.drawn(),
    {
        &self.history
    }

    /// Draws the next number: takes the last remaining number and appends it
    /// to the history. Once nothing remains, returns `None` and changes
    /// nothing.
    pub fn get_next_number(&mut self) -> (r: Option<u8>)
        requires
            old(self).wf(),
        ensures
            final(self).wf(),
            final(self).domain_size() == old(self).domain_size(),
            final(self).generator() == old(self).generator(),
            old(self).remaining().len() == 0 ==> {
                &&& r is None
                &&& final(self).remaining() == old(self).remaining()
                &&& final(self).drawn() == old(self).drawn()
            },
            old(self).remaining().len() > 0 ==> {
                &&& r == Some(old(self).remaining().last())
                &&& final(self).remaining() == old(self).remaining().drop_last()
                &&& final(self).drawn() == old(self).drawn().push(old(self).remaining().last())
            },
    {
        broadcast use vstd::seq_lib::group_to_multiset_ensures;
        broadcast use vstd::seq_lib::lemma_multiset_commutative;

        let ghost rem = self.remaining_numbers@;
        let ghost hist = self.history@;
        if let Some(num) = self.remaining_numbers.pop() {
            self.history.push(num);
            proof {
                assert(rem =~= rem.drop_last().push(num));
                assert(hist.push(num) =~= hist + seq![num]);
                assert(rem.drop_last().push(num) =~= rem.drop_last() + seq![num]);
                assert((rem.drop_last() + hist.push(num)).to_multiset() =~= (rem + hist).to_multiset());
            }
            Some(num)
        } else {
            None
        }
    }

    /// Starts over: every number back in, history cleared, the generator
    /// rewound to its initial state, and the numbers shuffled again, so a
    /// reset always yields the same draw order.
    pub fn reset(&mut self)
        requires
            old(self).wf(),
        ensures
            final(self).wf(),
            final(self).domain_size() == old(self).domain_size(),
            final(self).drawn() == Seq::<u8>::empty(),
            final(self).remaining() == fisher_yates(
                ascending(old(self).domain_size()),
                Seq::new(
                    shuffle_draws(old(self).domain_size()),
                    |t: int| R::output(old(self).generator().seed(), t as nat),
                ),
            ),
            final(self).generator().seed() == old(self).generator().seed(),
            final(self).generator().pos() == shuffle_draws(old(self).domain_size()),
            final(self).remaining().len() == old(self).domain_size(),
            final(self).remaining().to_multiset() == ascending(old(self).domain_size()).to_multiset(),
    {
        self.remaining_numbers = ascending_numbers(self.count);
        self.history.clear();
        self.rng.reset();
        let ghost rewound = self.rng;
        self.shuffle();
        proof {
            assert(self.remaining_numbers@ + self.history@ =~= self.remaining_numbers@);
            lemma_permutation_of_domain(self.remaining_numbers@, self.count as nat);
            assert(upcoming(rewound, shuffle_draws(self.count as nat)) =~= Seq::new(
                shuffle_draws(self.count as nat),
                |t: int| R::output(rewound.seed(), t as nat),
            ));
        }
    }
}

/// In every well-formed bingo state the remaining and drawn numbers partition
/// `1..=domain_size()`: together they hold each number of the domain exactly
/// once and nothing else, and their lengths add up to the domain size.
pub proof fn lemma_domain_partition<R: IRng>(g: BingoGame<R>)
    requires
        g.wf(),
    ensures
        g.remaining().len() + g.drawn().len() == g.domain_size(),
        forall|v: u8|
            #[trigger] (g.remaining() + g.drawn()).to_multiset().count(v) == domain_count(
                g.domain_size(),
                v,
            ),
        forall|v: u8|
            g.remaining().contains(v) || g.drawn().contains(v) <==> 1 <= v <= g.domain_size(),
        (g.remaining() + g.drawn()).no_duplicates(),
{
    broadcast use vstd::seq_lib::group_seq_properties;

    let all = g.remaining() + g.drawn();
    lemma_permutation_of_domain(all, g.domain_size());
    assert forall|v: u8|
        g.remaining().contains(v) || g.drawn().contains(v) <==> 1 <= v <= g.domain_size() by {
        assert(all.contains(v) <==> 1 <= v <= g.domain_size());
    }
}

/// Once every number of the domain has been drawn nothing remains, so by the
/// contract of `get_next_number` every further draw returns `None` and leaves
/// the game unchanged.
pub proof fn lemma_exhausted<R: IRng>(g: BingoGame<R>)
    requires
        g.wf(),
        g.drawn().len() == g.domain_size(),
    ensures
        g.remaining().len() == 0,
{
    lemma_domain_partition(g);
}

/// A reset, whatever was drawn before, leaves the whole domain to draw in a
/// valid order: given the state that `reset` promises (well-formed, nothing
/// drawn), the remaining numbers are each of `1..=domain_size()` exactly once.
pub proof fn lemma_reset_restores_domain<R: IRng>(g: BingoGame<R>)
    requires
        g.wf(),
        g.drawn() == Seq::<u8>::empty(),
    ensures
        g.remaining().len() == g.domain_size(),
        forall|v: u8| #[trigger] g.remaining().contains(v) <==> 1 <= v <= g.domain_size(),
        g.remaining().no_duplicates(),
{
    assert(g.remaining() + g.drawn() =~= g.remaining());
    lemma_permutation_of_domain(g.remaining(), g.domain_size());
}

} // verus!
