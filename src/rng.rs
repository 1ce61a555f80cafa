use vstd::prelude::*;

verus! {

/// The linear-congruential hash behind every reproducible roll: a 31-bit value
/// derived from a 32-bit seed.
pub open spec fn spec_simple_rand(seed: u32) -> u32 {
    (((seed as int * 1103515245 + 12345) % 0x1_0000_0000) % 0x8000_0000) as u32
}

/// A roll of `simple_rand` stands for the fraction `value / 0x7fff_ffff`; this
/// is whether that fraction is below `percent` hundredths.
pub open spec fn below_percent(value: u32, percent: u64) -> bool {
    value * 100 < percent * 0x7fff_ffff
}

/// Deterministic pseudo-random 31-bit value from a seed.
pub fn simple_rand(seed: u32) -> (r: u32)
    ensures
        r == spec_simple_rand(seed),
        r <= 0x7fff_ffff,
{
    let n = seed.wrapping_mul(1103515245).wrapping_add(12345);
    assert(n & 0x7fff_ffff == n % 0x8000_0000) by (bit_vector);
    proof {
        assert((seed as int * 1103515245) % 0x1_0000_0000 + 12345 == seed as int * 1103515245
            % 0x1_0000_0000 + 12345);
        vstd::arithmetic::div_mod::lemma_add_mod_noop(
            seed as int * 1103515245,
            12345,
            0x1_0000_0000,
        );
    }
    n & 0x7fff_ffff
}

pub fn roll_below_percent(value: u32, percent: u64) -> (r: bool)
    requires
        percent <= 100,
    ensures
        r == below_percent(value, percent),
{
    (value as u64) * 100 < percent * 0x7fff_ffff
}

/// Source of rolls: each roll hashes the counter and advances it by one.
#[derive(Clone, Copy, Debug, PartialEq, Eq, Structural)]
pub struct RandCounter {
    pub counter: u32,
}

impl RandCounter {
    /// The counter value the game starts from.
    pub fn new() -> (r: RandCounter)
        ensures
            r.counter == 54321,
    {
        RandCounter { counter: 54321 }
    }

    /// Next roll, as a 31-bit value.
    pub fn next_roll(&mut self) -> (r: u32)
        ensures
            r == spec_simple_rand(old(self).counter),
            final(self).counter == (old(self).counter + 1) % 0x1_0000_0000,
    {
        let n = self.counter;
        self.counter = self.counter.wrapping_add(1);
        simple_rand(n)
    }
}

} // verus!
