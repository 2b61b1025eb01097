//! The xoshiro256+ generator, seeded through splitmix64.
//!
//! Both are pure bit mixing: every output is a function of the state before
//! it, and the state is a function of the seed alone.

use vstd::prelude::*;

verus! {

/// The four state words of the generator, as a mathematical value.
pub struct Words {
    pub s0: u64,
    pub s1: u64,
    pub s2: u64,
    pub s3: u64,
}

/// The increment that splitmix64 adds to its state on every draw.
pub const SPLITMIX_GAMMA: u64 = 0x9e3779b97f4a7c15;

/// `x` rotated left by `k` bits.
pub open spec fn spec_rol64(x: u64, k: u32) -> u64 {
    (x << k) | (x >> ((64 - k) as u32))
}

/// Sum of two words, modulo 2^64.
pub open spec fn wrapping_sum(x: u64, y: u64) -> u64 {
    ((x + y) % 0x1_0000_0000_0000_0000) as u64
}

/// Product of two words, modulo 2^64.
pub open spec fn wrapping_product(x: u64, y: u64) -> u64 {
    ((x * y) % 0x1_0000_0000_0000_0000) as u64
}

/// The output that splitmix64 derives from its state after the increment.
pub open spec fn splitmix_output(z: u64) -> u64 {
    let a = wrapping_product(z ^ (z >> 30), 0xbf58476d1ce4e5b9);
    let b = wrapping_product(a ^ (a >> 27), 0x94d049bb133111eb);
    b ^ (b >> 31)
}

/// The splitmix64 state after `n` draws from `seed`.
pub open spec fn splitmix_state(seed: u64, n: nat) -> u64
    decreases n,
{
    if n == 0 {
        seed
    } else {
        wrapping_sum(splitmix_state(seed, (n - 1) as nat), SPLITMIX_GAMMA)
    }
}

/// The state that a seed expands to: the first four splitmix64 outputs.
pub open spec fn seeded(seed: u64) -> Words {
    Words {
        s0: splitmix_output(splitmix_state(seed, 1)),
        s1: splitmix_output(splitmix_state(seed, 2)),
        s2: splitmix_output(splitmix_state(seed, 3)),
        s3: splitmix_output(splitmix_state(seed, 4)),
    }
}

/// The value that a draw returns in state `w`.
pub open spec fn output(w: Words) -> u64 {
    wrapping_sum(w.s0, w.s3)
}

/// The state that follows `w` after one draw.
pub open spec fn advance(w: Words) -> Words {
    let t = w.s1 << 17;
    let s2 = w.s2 ^ w.s0;
    let s3 = w.s3 ^ w.s1;
    let s1 = w.s1 ^ s2;
    let s0 = w.s0 ^ s3;
    Words { s0, s1, s2: s2 ^ t, s3: spec_rol64(s3, 45) }
}

/// The state reached from `w` after `n` draws.
pub open spec fn state_after(w: Words, n: nat) -> Words
    decreases n,
{
    if n == 0 {
        w
    } else {
        advance(state_after(w, (n - 1) as nat))
    }
}

/// The first `n` values drawn from state `w`, in order.
pub open spec fn stream(w: Words, n: nat) -> Seq<u64> {
    Seq::new(n, |i: int| output(state_after(w, i as nat)))
}

/// Rotates `x` left by `k` bits.
pub fn rol64(x: u64, k: u32) -> (r: u64)
    requires
        0 < k < 64,
    ensures
        r == spec_rol64(x, k),
{
    (x << k) | (x >> (64 - k))
}

/// Draws one value from a splitmix64 state and moves the state on.
pub fn splitmix64(state: &mut u64) -> (r: u64)
    ensures
        *final(state) == wrapping_sum(*old(state), SPLITMIX_GAMMA),
        r == splitmix_output(*final(state)),
{
    *state = state.wrapping_add(0x9e3779b97f4a7c15);
    let mut result: u64 = *state;
    result = (result ^ (result >> 30)).wrapping_mul(0xbf58476d1ce4e5b9);
    result = (result ^ (result >> 27)).wrapping_mul(0x94d049bb133111eb);
    result ^ (result >> 31)
}

/// State of a xoshiro256+ generator.
#[derive(Clone, Copy)]
pub struct Xoshiro256pState([u64; 4]);

impl View for Xoshiro256pState {
    type V = Words;

    closed spec fn view(&self) -> Words {
        Words { s0: self.0[0], s1: self.0[1], s2: self.0[2], s3: self.0[3] }
    }
}

impl Xoshiro256pState {
    /// A generator whose state is expanded from `seed`.
    pub fn new(seed: u64) -> (state: Self)
        ensures
            state@ == seeded(seed),
    {
        let mut seed: u64 = seed;
        let ghost start = seed;
        let a = splitmix64(&mut seed);
        assert(seed == splitmix_state(start, 1)) by {
            reveal_with_fuel(splitmix_state, 2);
        }
        let b = splitmix64(&mut seed);
        assert(seed == splitmix_state(start, 2)) by {
            reveal_with_fuel(splitmix_state, 3);
        }
        let c = splitmix64(&mut seed);
        assert(seed == splitmix_state(start, 3)) by {
            reveal_with_fuel(splitmix_state, 4);
        }
        let d = splitmix64(&mut seed);
        assert(seed == splitmix_state(start, 4)) by {
            reveal_with_fuel(splitmix_state, 5);
        }
        Xoshiro256pState([a, b, c, d])
    }

    /// Returns the next value of the stream and moves the state on.
    pub fn next(&mut self) -> (r: u64)
        ensures
            r == output(old(self)@),
            final(self)@ == advance(old(self)@),
    {
        let res = self.0[0].wrapping_add(self.0[3]);
        let tmp = self.0[1] << 17;
        let s2 = self.0[2] ^ self.0[0];
        let s3 = self.0[3] ^ self.0[1];
        let s1 = self.0[1] ^ s2;
        let s0 = self.0[0] ^ s3;
        self.0 = [s0, s1, s2 ^ tmp, rol64(s3, 45)];
        res
    }
}

impl Default for Xoshiro256pState {
    /// The all-zero state.
    fn default() -> (state: Self)
        ensures
            state@ == (Words { s0: 0, s1: 0, s2: 0, s3: 0 }),
    {
        Xoshiro256pState([0, 0, 0, 0])
    }
}

/// A generator's stream is determined by its state: two generators in the
/// same state draw the same values, however many are drawn, and end in the
/// same state.
pub proof fn lemma_stream_deterministic(a: Xoshiro256pState, b: Xoshiro256pState, n: nat)
    requires
        a@ == b@,
    ensures
        stream(a@, n) == stream(b@, n),
        state_after(a@, n) == state_after(b@, n),
{
}

/// Equal seeds give equal streams.
pub proof fn lemma_seed_determines_stream(seed_a: u64, seed_b: u64, n: nat)
    requires
        seed_a == seed_b,
    ensures
        stream(seeded(seed_a), n) == stream(seeded(seed_b), n),
{
}

/// Drawing one more value appends the output of the state reached so far.
pub proof fn lemma_stream_unfold(w: Words, n: nat)
    ensures
        stream(w, n + 1) == stream(w, n).push(output(state_after(w, n))),
        state_after(w, n + 1) == advance(state_after(w, n)),
{
    assert(stream(w, n + 1) =~= stream(w, n).push(output(state_after(w, n))));
}

} // verus!
