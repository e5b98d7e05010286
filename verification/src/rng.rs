//! SplitMix64: a small reproducible stream, not a security primitive.
use vstd::prelude::*;
use vstd::wrapping::u64_specs;

verus! {

/// The increment that SplitMix64 adds to its state on every draw.
pub const GOLDEN_GAMMA: u64 = 0x9e3779b97f4a7c15;

/// 2^64, the range of one draw.
pub open spec fn draw_range() -> nat {
    0x1_0000_0000_0000_0000
}

/// The state after one draw from `state`.
pub open spec fn advance(state: u64) -> u64 {
    u64_specs::wrapping_add(state, GOLDEN_GAMMA)
}

/// The SplitMix64 output function applied to an advanced state.
pub open spec fn mix(z: u64) -> u64 {
    let z1 = u64_specs::wrapping_mul(z ^ (z >> 30u64), 0xbf58476d1ce4e5b9u64);
    let z2 = u64_specs::wrapping_mul(z1 ^ (z1 >> 27u64), 0x94d049bb133111ebu64);
    z2 ^ (z2 >> 31u64)
}

/// The value drawn from a stream whose state is `state`.
pub open spec fn draw(state: u64) -> u64 {
    mix(advance(state))
}

/// Scales a 64-bit draw into `0..n` by taking the high word of `draw * n`.
pub open spec fn scale(x: u64, n: nat) -> nat {
    (x as nat * n) / draw_range()
}

/// A SplitMix64 stream; the field is its whole state.
#[derive(Clone, Debug)]
pub struct Rng(pub u64);

impl Rng {
    /// Advances the stream and returns the next 64-bit value.
    pub fn next(&mut self) -> (out: u64)
        ensures
            final(self).0 == advance(old(self).0),
            out == mix(final(self).0),
            out == draw(old(self).0),
    {
        self.0 = self.0.wrapping_add(GOLDEN_GAMMA);
        let mut z = self.0;
        z = (z ^ (z >> 30)).wrapping_mul(0xbf58476d1ce4e5b9);
        z = (z ^ (z >> 27)).wrapping_mul(0x94d049bb133111eb);
        z ^ (z >> 31)
    }

    /// Draws an index in `0..n` (always 0 when `n` is 0), using one value of the stream.
    pub fn index(&mut self, n: usize) -> (out: usize)
        ensures
            final(self).0 == advance(old(self).0),
            out as nat == scale(draw(old(self).0), n as nat),
            n > 0 ==> out < n,
            n == 0 ==> out == 0,
    {
        let x = self.next();
        proof {
            assert((x as nat) * (n as nat) <= (u64::MAX as nat) * (u64::MAX as nat)) by (nonlinear_arith)
                requires (x as nat) <= u64::MAX as nat, (n as nat) <= u64::MAX as nat;
        }
        let product: u128 = (x as u128) * (n as u128);
        proof {
            vstd::bits::lemma_u128_shr_is_div(product, 64u128);
            vstd::arithmetic::power2::lemma2_to64_rest();
            lemma_scale_below(x, n as nat);
        }
        let high = product >> 64u32;
        high as usize
    }
}

/// A scaled draw lies below its bound.
pub proof fn lemma_scale_below(x: u64, n: nat)
    ensures
        n > 0 ==> scale(x, n) < n,
        n == 0 ==> scale(x, n) == 0,
{
    if n > 0 {
        assert((x as nat) * n < draw_range() * n) by (nonlinear_arith)
            requires (x as nat) < draw_range(), n > 0;
        vstd::arithmetic::div_mod::lemma_multiply_divide_lt((x as nat * n) as int, draw_range() as int, n as int);
    }
}

} // verus!
