//! Deterministic 32-bit pseudo-random generators and the Fisher-Yates shuffle
//! built on top of them.
//!
//! A generator is modelled as a position in a fixed output stream: `seed()`
//! names the stream, `pos()` counts the outputs consumed since construction
//! (or the last reset), and `output(seed, k)` is the `k`-th value of the stream.
use vstd::prelude::*;
use vstd::wrapping::u32_specs;

verus! {

/// Seed used in place of `0`, which would make XorShift stay at zero forever.
pub const DEFAULT_SEED: u32 = 1_234_567_890;

/// The seed a generator actually starts from when asked for `seed`.
pub open spec fn effective_seed(seed: u32) -> u32 {
    if seed == 0 {
        DEFAULT_SEED
    } else {
        seed
    }
}

/// `s` with the elements at `i` and `j` exchanged.
pub open spec fn swap_at(s: Seq<u8>, i: int, j: int) -> Seq<u8> {
    s.update(i, s[j]).update(j, s[i])
}

/// How many draws a Fisher-Yates pass over `len` elements makes.
pub open spec fn shuffle_draws(len: nat) -> nat {
    if len < 2 {
        0
    } else {
        (len - 1) as nat
    }
}

/// `s` after the first `t` steps of a backward Fisher-Yates pass: step `t`
/// (counting from 0) handles position `i = len - 1 - t` and swaps it with
/// position `draws[t] % (i + 1)`.
pub open spec fn fisher_yates_steps(s: Seq<u8>, draws: Seq<u32>, t: nat) -> Seq<u8>
    decreases t,
{
    if t == 0 {
        s
    } else {
        let prev = fisher_yates_steps(s, draws, (t - 1) as nat);
        let i = s.len() - t;
        swap_at(prev, i, (draws[t - 1] as int) % (i + 1))
    }
}

/// The result of a whole Fisher-Yates pass over `s` driven by `draws`.
pub open spec fn fisher_yates(s: Seq<u8>, draws: Seq<u32>) -> Seq<u8> {
    fisher_yates_steps(s, draws, shuffle_draws(s.len()))
}

/// Every step of the pass only exchanges two elements, so the multiset of
/// `s` is kept.
pub proof fn lemma_fisher_yates_steps_multiset(s: Seq<u8>, draws: Seq<u32>, t: nat)
    requires
        t <= shuffle_draws(s.len()),
    ensures
        fisher_yates_steps(s, draws, t).len() == s.len(),
        fisher_yates_steps(s, draws, t).to_multiset() == s.to_multiset(),
    decreases t,
{
    broadcast use vstd::seq_lib::group_to_multiset_ensures;

    if t > 0 {
        lemma_fisher_yates_steps_multiset(s, draws, (t - 1) as nat);
        let prev = fisher_yates_steps(s, draws, (t - 1) as nat);
        let i = s.len() - t;
        let j = (draws[t - 1] as int) % (i + 1);
        let mid = prev.update(i, prev[j]);
        assert(mid.to_multiset() == prev.to_multiset().insert(prev[j]).remove(prev[i]));
        assert(mid[j] == prev[j]);
        assert(mid.update(j, prev[i]).to_multiset() =~= prev.to_multiset());
    }
}

/// A stateful stream of 32-bit pseudo-random values.
pub trait IRng: Sized {
    /// The internal state is the one reached after `pos()` outputs of the
    /// stream named by `seed()`.
    spec fn wf(&self) -> bool;

    /// The seed of the stream (after replacing `0` by `DEFAULT_SEED`).
    spec fn seed(&self) -> u32;

    /// Outputs consumed since construction or the last `reset`.
    spec fn pos(&self) -> nat;

    /// The `k`-th output (counting from 0) of the stream seeded with `seed`.
    spec fn output(seed: u32, k: nat) -> u32;

    /// Advances the state and returns the next value of the stream.
    fn next(&mut self) -> (r: u32)
        requires
            old(self).wf(),
        ensures
            final(self).wf(),
            final(self).seed() == old(self).seed(),
            final(self).pos() == old(self).pos() + 1,
            r == Self::output(old(self).seed(), old(self).pos()),
    ;

    /// Shuffles `v` in place: for `i` from `len - 1` down to `1`, draws
    /// `j = next() % (i + 1)` and swaps `v[i]` with `v[j]`. The modulo makes the
    /// permutation only approximately uniform, which is accepted since the
    /// generator's range is far larger than any `i + 1` used here.
    fn shuffle(&mut self, v: &mut Vec<u8>)
        requires
            old(self).wf(),
        ensures
            final(self).wf(),
            final(self).seed() == old(self).seed(),
            final(self).pos() == old(self).pos() + shuffle_draws(old(v)@.len()),
            final(v)@ == fisher_yates(
                old(v)@,
                Seq::new(
                    shuffle_draws(old(v)@.len()),
                    |t: int| Self::output(old(self).seed(), old(self).pos() + t as nat),
                ),
            ),
            final(v)@.to_multiset() == old(v)@.to_multiset(),
            old(v)@.len() < 2 ==> final(v)@ == old(v)@,
    {
        let ghost s0 = v@;
        let ghost draws = Seq::new(
            shuffle_draws(v@.len()),
            |t: int| Self::output(self.seed(), self.pos() + t as nat),
        );
        proof {
            lemma_fisher_yates_steps_multiset(s0, draws, shuffle_draws(s0.len()));
        }
        let len = v.len();
        if len < 2 {
            return;
        }
        let mut i: usize = len - 1;
        while i >= 1
            invariant
                len == s0.len(),
                len >= 2,
                i < len,
                draws == Seq::new(
                    shuffle_draws(s0.len()),
                    |t: int| Self::output(old(self).seed(), old(self).pos() + t as nat),
                ),
                self.wf(),
                self.seed() == old(self).seed(),
                self.pos() == old(self).pos() + (len - 1 - i),
                v@ == fisher_yates_steps(s0, draws, (len - 1 - i) as nat),
            decreases i,
        {
            proof {
                lemma_fisher_yates_steps_multiset(s0, draws, (len - 1 - i) as nat);
            }
            let r = self.next();
            let j = (r as usize) % (i + 1);
            let a = v[i];
            let b = v[j];
            v[i] = b;
            v[j] = a;
            i = i - 1;
            assert(v@ =~= fisher_yates_steps(s0, draws, (len - 1 - i) as nat));
        }
    }

    /// Discards the next `n` outputs.
    fn shift(&mut self, n: u64)
        requires
            old(self).wf(),
        ensures
            final(self).wf(),
            final(self).seed() == old(self).seed(),
            final(self).pos() == old(self).pos() + n,
    {
        let mut k: u64 = 0;
        while k < n
            invariant
                k <= n,
                self.wf(),
                self.seed() == old(self).seed(),
                self.pos() == old(self).pos() + k,
            decreases n - k,
        {
            self.next();
            k = k + 1;
        }
    }

    /// Returns to the state right after construction.
    fn reset(&mut self)
        requires
            old(self).wf(),
        ensures
            final(self).wf(),
            final(self).seed() == old(self).seed(),
            final(self).pos() == 0,
    ;
}

/// The first `n` outputs still to come from `g`.
pub open spec fn upcoming<R: IRng>(g: R, n: nat) -> Seq<u32> {
    Seq::new(n, |t: int| R::output(g.seed(), g.pos() + t as nat))
}

/// `s` shuffled by a Fisher-Yates pass that draws from `g`.
pub open spec fn shuffled_by<R: IRng>(s: Seq<u8>, g: R) -> Seq<u8> {
    fisher_yates(s, upcoming(g, shuffle_draws(s.len())))
}

/// A generator that is `fresh` advanced by `k` outputs (as `shift(k)` leaves
/// it) yields, from its next call on, exactly the outputs of `fresh` from the
/// `(k + 1)`-th on: shifting by distinct offsets gives streams that do not
/// overlap at their start.
pub proof fn lemma_shift_decorrelation<R: IRng>(fresh: R, shifted: R, k: nat, n: nat)
    requires
        shifted.seed() == fresh.seed(),
        shifted.pos() == fresh.pos() + k,
    ensures
        upcoming(shifted, n) == upcoming(fresh, k + n).subrange(k as int, (k + n) as int),
{
    assert(upcoming(shifted, n) =~= upcoming(fresh, k + n).subrange(k as int, (k + n) as int));
}

/// One XorShift step on a 32-bit state, with wrap-around shifts.
pub open spec fn xorshift_step(x: u32) -> u32 {
    let a = x ^ (x << 13u32);
    let b = a ^ (a >> 17u32);
    b ^ (b << 5u32)
}

/// The XorShift state after `n` steps from `x`.
pub open spec fn xorshift_iter(x: u32, n: nat) -> u32
    decreases n,
{
    if n == 0 {
        x
    } else {
        xorshift_step(xorshift_iter(x, (n - 1) as nat))
    }
}

/// Marsaglia's 13/17/5 XorShift generator on one 32-bit word.
#[derive(Clone)]
pub struct XorShift {
    initial_state: u32,
    state: u32,
    consumed: Ghost<nat>,
}

impl XorShift {
    /// A generator seeded with `seed`, or with `DEFAULT_SEED` when `seed` is 0.
    pub fn new(seed: u32) -> (r: XorShift)
        ensures
            r.wf(),
            r.seed() == effective_seed(seed),
            r.pos() == 0,
    {
        let initial_state = if seed != 0 {
            seed
        } else {
            DEFAULT_SEED
        };
        XorShift { initial_state, state: initial_state, consumed: Ghost(0) }
    }
}

impl IRng for XorShift {
    closed spec fn wf(&self) -> bool {
        &&& self.initial_state != 0
        &&& self.state == xorshift_iter(self.initial_state, self.consumed@)
    }

    closed spec fn seed(&self) -> u32 {
        self.initial_state
    }

    closed spec fn pos(&self) -> nat {
        self.consumed@
    }

    open spec fn output(seed: u32, k: nat) -> u32 {
        xorshift_iter(seed, k + 1)
    }

    fn next(&mut self) -> (r: u32) {
        let mut x = self.state;
        x ^= x << 13u32;
        x ^= x >> 17u32;
        x ^= x << 5u32;
        self.state = x;
        self.consumed = Ghost(self.consumed@ + 1);
        x
    }

    fn reset(&mut self) {
        self.state = self.initial_state;
        self.consumed = Ghost(0);
    }
}

/// Number of words in the Mersenne Twister state.
pub const MT_N: usize = 624;

/// Offset of the word mixed into each position during a twist.
pub const MT_M: usize = 397;

/// Coefficients of the twist matrix.
pub const MATRIX_A: u32 = 0x9908b0df;

/// Most significant bit of a word.
pub const UPPER_MASK: u32 = 0x80000000;

/// Least significant 31 bits of a word.
pub const LOWER_MASK: u32 = 0x7fffffff;

/// Word `i` of the state initialised from `seed` by the MT19937 recurrence
/// `w[i] = 1812433253 * (w[i-1] ^ (w[i-1] >> 30)) + i` (mod 2^32).
pub open spec fn mt_init_word(seed: u32, i: nat) -> u32
    decreases i,
{
    if i == 0 {
        seed
    } else {
        let prev = mt_init_word(seed, (i - 1) as nat);
        u32_specs::wrapping_add(u32_specs::wrapping_mul(1812433253u32, prev ^ (prev >> 30u32)), i as u32)
    }
}

/// The 624 words initialised from `seed`.
pub open spec fn mt_init(seed: u32) -> Seq<u32> {
    Seq::new(MT_N as nat, |i: int| mt_init_word(seed, i as nat))
}

/// The new value of a word during a twist, from its own top bit, the low bits
/// of its successor and the word `MT_M` places further on.
pub open spec fn mt_mix(cur: u32, succ: u32, far: u32) -> u32 {
    let x = (cur & UPPER_MASK) | (succ & LOWER_MASK);
    let x_a = if x & 1u32 != 0 {
        (x >> 1u32) ^ MATRIX_A
    } else {
        x >> 1u32
    };
    far ^ x_a
}

/// `w` after the first `n` positions of a twist were rewritten, in order
/// (later positions read the words already rewritten).
pub open spec fn mt_twist_steps(w: Seq<u32>, n: nat) -> Seq<u32>
    decreases n,
{
    if n == 0 {
        w
    } else {
        let p = mt_twist_steps(w, (n - 1) as nat);
        let i = n - 1;
        p.update(
            i,
            mt_mix(p[i], p[(i + 1) % (MT_N as int)], p[(i + MT_M as int) % (MT_N as int)]),
        )
    }
}

/// A whole twist: all 624 positions rewritten.
pub open spec fn mt_twist(w: Seq<u32>) -> Seq<u32> {
    mt_twist_steps(w, MT_N as nat)
}

/// The MT19937 tempering transform.
pub open spec fn mt_temper(y: u32) -> u32 {
    let y1 = y ^ (y >> 11u32);
    let y2 = y1 ^ ((y1 << 7u32) & 0x9d2c5680u32);
    let y3 = y2 ^ ((y2 << 15u32) & 0xefc60000u32);
    y3 ^ (y3 >> 18u32)
}

/// The words and the cursor after `k` outputs from `seed`: the cursor starts
/// at 624, and a twist happens whenever an output is asked for at 624.
pub open spec fn mt_state(seed: u32, k: nat) -> (Seq<u32>, nat)
    decreases k,
{
    if k == 0 {
        (mt_init(seed), MT_N as nat)
    } else {
        let (w, idx) = mt_state(seed, (k - 1) as nat);
        if idx >= MT_N {
            (mt_twist(w), 1nat)
        } else {
            (w, idx + 1)
        }
    }
}

proof fn lemma_mt_twist_steps_len(w: Seq<u32>, n: nat)
    requires
        n <= MT_N,
        w.len() == MT_N,
    ensures
        mt_twist_steps(w, n).len() == MT_N,
    decreases n,
{
    if n > 0 {
        lemma_mt_twist_steps_len(w, (n - 1) as nat);
    }
}

/// The MT19937 Mersenne Twister.
#[derive(Clone)]
pub struct MersenneTwister {
    initial_seed: u32,
    mt: Vec<u32>,
    index: usize,
    consumed: Ghost<nat>,
}

impl MersenneTwister {
    /// A generator seeded with `seed`, or with `DEFAULT_SEED` when `seed` is 0.
    pub fn new(seed: u32) -> (r: MersenneTwister)
        ensures
            r.wf(),
            r.seed() == effective_seed(seed),
            r.pos() == 0,
    {
        let seed = if seed != 0 {
            seed
        } else {
            DEFAULT_SEED
        };
        let mut rng = MersenneTwister {
            initial_seed: seed,
            mt: vec![0u32; MT_N],
            index: MT_N,
            consumed: Ghost(0),
        };
        rng.initialize(seed);
        rng
    }

    /// Fills the words from `seed` and puts the cursor at the end.
    fn initialize(&mut self, seed: u32)
        requires
            old(self).mt@.len() == MT_N,
        ensures
            final(self).mt@ == mt_init(seed),
            final(self).index == MT_N,
            final(self).initial_seed == old(self).initial_seed,
            final(self).consumed == old(self).consumed,
    {
        self.mt[0] = seed;
        let mut i: usize = 1;
        while i < MT_N
            invariant
                1 <= i <= MT_N,
                self.mt@.len() == MT_N,
                self.initial_seed == old(self).initial_seed,
                self.consumed == old(self).consumed,
                forall|k: int| 0 <= k < i ==> self.mt@[k] == mt_init_word(seed, k as nat),
            decreases MT_N - i,
        {
            let prev = self.mt[i - 1];
            self.mt[i] = 1812433253u32.wrapping_mul(prev ^ (prev >> 30u32)).wrapping_add(
                i as u32,
            );
            i = i + 1;
        }
        self.index = MT_N;
        assert(self.mt@ =~= mt_init(seed));
    }

    /// Rewrites all 624 words and puts the cursor at the start.
    fn twist(&mut self)
        requires
            old(self).mt@.len() == MT_N,
        ensures
            final(self).mt@ == mt_twist(old(self).mt@),
            final(self).index == 0,
            final(self).initial_seed == old(self).initial_seed,
            final(self).consumed == old(self).consumed,
    {
        let mut i: usize = 0;
        while i < MT_N
            invariant
                i <= MT_N,
                old(self).mt@.len() == MT_N,
                self.mt@.len() == MT_N,
                self.mt@ == mt_twist_steps(old(self).mt@, i as nat),
                self.initial_seed == old(self).initial_seed,
                self.consumed == old(self).consumed,
            decreases MT_N - i,
        {
            let x = (self.mt[i] & UPPER_MASK) | (self.mt[(i + 1) % MT_N] & LOWER_MASK);
            let mut x_a = x >> 1u32;
            if x & 1u32 != 0 {
                x_a = x_a ^ MATRIX_A;
            }
            self.mt[i] = self.mt[(i + MT_M) % MT_N] ^ x_a;
            i = i + 1;
            proof {
                lemma_mt_twist_steps_len(old(self).mt@, i as nat);
            }
        }
        self.index = 0;
    }
}

impl IRng for MersenneTwister {
    closed spec fn wf(&self) -> bool {
        &&& self.initial_seed != 0
        &&& self.mt@.len() == MT_N
        &&& self.index <= MT_N
        &&& mt_state(self.initial_seed, self.consumed@) == (self.mt@, self.index as nat)
    }

    closed spec fn seed(&self) -> u32 {
        self.initial_seed
    }

    closed spec fn pos(&self) -> nat {
        self.consumed@
    }

    /// The word consumed by output `k`, tempered.
    open spec fn output(seed: u32, k: nat) -> u32 {
        let (w, idx) = mt_state(seed, k + 1);
        mt_temper(w[idx - 1])
    }

    fn next(&mut self) -> (r: u32) {
        if self.index >= MT_N {
            self.twist();
            proof {
                lemma_mt_twist_steps_len(old(self).mt@, MT_N as nat);
            }
        }
        let mut y = self.mt[self.index];
        self.index = self.index + 1;
        self.consumed = Ghost(self.consumed@ + 1);

        y = y ^ (y >> 11u32);
        y = y ^ ((y << 7u32) & 0x9d2c5680u32);
        y = y ^ ((y << 15u32) & 0xefc60000u32);
        y = y ^ (y >> 18u32);
        y
    }

    fn reset(&mut self) {
        let seed = self.initial_seed;
        self.initialize(seed);
        self.consumed = Ghost(0);
    }
}

proof fn lemma_xorshift_step_nonzero(x: u32)
    requires
        x != 0,
    ensures
        xorshift_step(x) != 0,
{
    let a = x ^ (x << 13u32);
    let b = a ^ (a >> 17u32);
    assert(a != 0) by (bit_vector)
        requires
            x != 0,
            a == x ^ (x << 13u32),
    ;
    assert(b != 0) by (bit_vector)
        requires
            a != 0,
            b == a ^ (a >> 17u32),
    ;
    assert(b ^ (b << 5u32) != 0) by (bit_vector)
        requires
            b != 0,
    ;
}

proof fn lemma_xorshift_iter_nonzero(x: u32, n: nat)
    requires
        x != 0,
    ensures
        xorshift_iter(x, n) != 0,
    decreases n,
{
    if n > 0 {
        lemma_xorshift_iter_nonzero(x, (n - 1) as nat);
        lemma_xorshift_step_nonzero(xorshift_iter(x, (n - 1) as nat));
    }
}

/// Constructing either generator with seed 0 gives the generator seeded with
/// `DEFAULT_SEED`, hence the same stream. That XorShift stream never yields
/// 0. The Mersenne Twister state it starts from is not the all-zero state,
/// whose stream is all zero: word 1 has non-zero low 31 bits, and those are
/// bits that the first twist reads (as the successor of word 0).
pub proof fn lemma_zero_seed_fallback(k: nat)
    ensures
        effective_seed(0) == effective_seed(DEFAULT_SEED),
        XorShift::output(effective_seed(0), k) == XorShift::output(DEFAULT_SEED, k),
        MersenneTwister::output(effective_seed(0), k) == MersenneTwister::output(DEFAULT_SEED, k),
        XorShift::output(effective_seed(0), k) != 0,
        mt_init(effective_seed(0))[1] & LOWER_MASK != 0,
{
    lemma_xorshift_iter_nonzero(DEFAULT_SEED, k + 1);
    let d = DEFAULT_SEED;
    assert(d ^ (d >> 30u32) == 1234567891u32) by (bit_vector)
        requires
            d == 1234567890u32,
    ;
    assert(mt_init_word(d, 0) == d);
    assert(u32_specs::wrapping_mul(1812433253u32, 1234567891u32) == 1735854143u32) by (nonlinear_arith);
    let w1 = mt_init_word(d, 1);
    assert(w1 == 1735854144u32);
    assert(w1 & LOWER_MASK != 0) by (bit_vector)
        requires
            w1 == 1735854144u32,
            LOWER_MASK == 0x7fffffffu32,
    ;
}

} // verus!
