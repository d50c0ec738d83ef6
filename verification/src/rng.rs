//! The Mersenne Twister random number generator, bit for bit as the game's
//! shared and local random sources use it.

use vstd::prelude::*;
use vstd::wrapping::{u32_specs, u64_specs};

verus! {

/// Number of words of generator state.
pub const MT_N: usize = 624;

/// The generator state as a value: the state words, the position of the next word
/// to use, the last value drawn and the number of values drawn.
pub struct RngState {
    pub mt: Seq<u32>,
    pub index: int,
    pub last: i32,
    pub total_count: u64,
}

/// The state word that follows `prev` at position `i` when seeding.
#[verifier::opaque]
pub open spec fn seed_word(prev: u32, i: int) -> u32 {
    u32_specs::wrapping_add(u32_specs::wrapping_mul(1812433253u32, prev ^ (prev >> 30u32)), i as u32)
}

/// The first `n` state words produced from `seed`.
pub open spec fn seed_words(seed: u32, n: nat) -> Seq<u32>
    decreases n,
{
    if n <= 1 {
        seq![seed]
    } else {
        let p = seed_words(seed, (n - 1) as nat);
        p.push(seed_word(p.last(), n - 1))
    }
}

/// The state of a generator seeded with `seed`.
pub open spec fn seeded(seed: i32) -> RngState {
    RngState { mt: seed_words(seed as u32, 624), index: 0, last: 0, total_count: 0 }
}

/// Regenerate state word `i`, the others as they stand.
pub open spec fn twist_word(mt: Seq<u32>, i: int) -> Seq<u32> {
    let y = (mt[i] & 0x8000_0000u32) | (mt[(i + 1) % 624] & 0x7fff_ffffu32);
    let v = mt[(i + 397) % 624] ^ (y >> 1u32);
    mt.update(i, if y & 1u32 == 1u32 { v ^ 0x9908_b0dfu32 } else { v })
}

/// The state after regenerating words 0 to `k - 1` in order.
pub open spec fn twist_prefix(mt: Seq<u32>, k: nat) -> Seq<u32>
    decreases k,
{
    if k == 0 {
        mt
    } else {
        twist_word(twist_prefix(mt, (k - 1) as nat), k - 1)
    }
}

/// The state after a full regeneration of all 624 words.
pub open spec fn twist(mt: Seq<u32>) -> Seq<u32> {
    twist_prefix(mt, 624)
}

/// The tempering of a state word into an output value.
pub open spec fn temper(y0: u32) -> u32 {
    let y1 = y0 ^ (y0 >> 11u32);
    let y2 = y1 ^ ((y1 << 7u32) & 0x9d2c_5680u32);
    let y3 = y2 ^ ((y2 << 15u32) & 0xefc6_0000u32);
    y3 ^ (y3 >> 18u32)
}

/// One draw: the state after it and the value drawn, in 0..2147483647.
pub open spec fn spec_next(s: RngState) -> (RngState, i32) {
    let mt = if s.index == 0 { twist(s.mt) } else { s.mt };
    let v = (temper(mt[s.index]) % 2147483647u32) as i32;
    (RngState { mt, index: (s.index + 1) % 624, last: v, total_count: u64_specs::wrapping_add(s.total_count, 1) }, v)
}

/// A draw in `low..high`: no draw at all when the range holds at most one value.
pub open spec fn spec_next_range(s: RngState, low: i32, high: i32) -> (RngState, i32) {
    let diff = high - low;
    if diff <= 1 {
        (s, low)
    } else {
        let (s2, v) = spec_next(s);
        (s2, (low + (v as int) % diff) as i32)
    }
}

fn next_seed_word(prev: u32, i: u32) -> (w: u32)
    ensures
        w == seed_word(prev, i as int),
{
    proof {
        reveal(seed_word);
    }
    1812433253u32.wrapping_mul(prev ^ (prev >> 30u32)).wrapping_add(i)
}

/// A Mersenne Twister generator.
#[derive(Clone, Debug)]
pub struct MersenneTwister {
    mt: Vec<u32>,
    index: usize,
    last: i32,
    total_count: u64,
}

impl View for MersenneTwister {
    type V = RngState;

    closed spec fn view(&self) -> RngState {
        RngState { mt: self.mt@, index: self.index as int, last: self.last, total_count: self.total_count }
    }
}

impl MersenneTwister {
    /// The generator's state is well formed: 624 words and a position among them.
    pub closed spec fn wf(&self) -> bool {
        self.mt@.len() == 624 && self.index < 624
    }

    /// The last value drawn (0 before any draw).
    pub fn last(&self) -> (r: i32)
        ensures
            r == self@.last,
    {
        self.last
    }

    /// Number of values drawn so far.
    pub fn total_count(&self) -> (r: u64)
        ensures
            r == self@.total_count,
    {
        self.total_count
    }

    /// Seed a generator.
    pub fn new(seed: i32) -> (r: Self)
        ensures
            r.wf(),
            r@ == seeded(seed),
    {
        let mut mt: Vec<u32> = Vec::with_capacity(MT_N);
        mt.push(seed as u32);
        assert(mt@ =~= seed_words(seed as u32, 1));
        let mut i: usize = 1;
        while i < MT_N
            invariant
                1 <= i <= 624,
                mt@.len() == i,
                mt@ == seed_words(seed as u32, i as nat),
            decreases 624 - i,
        {
            let prev = mt[i - 1];
            let w = next_seed_word(prev, i as u32);
            let ghost p = mt@;
            mt.push(w);
            proof {
                assert(p.last() == prev);
                assert(seed_words(seed as u32, (i + 1) as nat) == p.push(seed_word(p.last(), i as int)));
            }
            i += 1;
        }
        MersenneTwister { mt, index: 0, last: 0, total_count: 0 }
    }

    fn generate(&mut self)
        requires
            old(self).wf(),
        ensures
            final(self).wf(),
            final(self).mt@ == twist(old(self).mt@),
            final(self).index == old(self).index,
            final(self).last == old(self).last,
            final(self).total_count == old(self).total_count,
    {
        let mut i: usize = 0;
        while i < MT_N
            invariant
                i <= 624,
                self.mt@.len() == 624,
                self.mt@ == twist_prefix(old(self).mt@, i as nat),
                self.index == old(self).index,
                self.index < 624,
                self.last == old(self).last,
                self.total_count == old(self).total_count,
            decreases 624 - i,
        {
            let y = (self.mt[i] & 0x8000_0000u32) | (self.mt[(i + 1) % MT_N] & 0x7fff_ffffu32);
            let v = self.mt[(i + 397) % MT_N] ^ (y >> 1u32);
            let w = if y & 1u32 == 1u32 { v ^ 0x9908_b0dfu32 } else { v };
            self.mt.set(i, w);
            i += 1;
        }
    }

    /// Draw the next value, in 0..2147483647.
    pub fn next(&mut self) -> (r: i32)
        requires
            old(self).wf(),
        ensures
            final(self).wf(),
            (final(self)@, r) == spec_next(old(self)@),
    {
        if self.index == 0 {
            self.generate();
        }
        let y0 = self.mt[self.index];
        let y1 = y0 ^ (y0 >> 11u32);
        let y2 = y1 ^ ((y1 << 7u32) & 0x9d2c_5680u32);
        let y3 = y2 ^ ((y2 << 15u32) & 0xefc6_0000u32);
        let y = y3 ^ (y3 >> 18u32);
        self.index = (self.index + 1) % MT_N;
        self.total_count = self.total_count.wrapping_add(1);
        self.last = (y % 2147483647u32) as i32;
        self.last
    }

    /// Draw a value in `low..high`; a range of at most one value gives `low` without drawing.
    pub fn next_range(&mut self, low: i32, high: i32) -> (r: i32)
        requires
            old(self).wf(),
            low <= high,
            high - low <= i32::MAX,
        ensures
            final(self).wf(),
            (final(self)@, r) == spec_next_range(old(self)@, low, high),
            low <= r,
            high - low > 1 ==> r < high,
    {
        let diff = high - low;
        if diff <= 1 {
            return low;
        }
        let v = self.next();
        low + v % diff
    }
}


/// A draw lies in `0..2147483647`, and a ranged draw in `low..high`.
pub proof fn lemma_draw_bounds(s: RngState, low: i32, high: i32)
    requires
        low < high,
    ensures
        0 <= spec_next(s).1 < 2147483647,
        low <= spec_next_range(s, low, high).1 < high,
{
    let mt = if s.index == 0 { twist(s.mt) } else { s.mt };
    let t = temper(mt[s.index]);
    assert(t % 2147483647u32 < 2147483647);
}

} // verus!
