//! Integer noise: a bit-mixing hash of a position and a seed, and its two- and
//! three-dimensional forms. All arithmetic is on 64 bits and wraps.

use vstd::prelude::*;

verus! {

/// First multiplier of the mixing rounds.
pub const BIT_NOISE1: u64 = 0xB5297A4D;

/// Addend of the middle round.
pub const BIT_NOISE2: u64 = 0x68E31DA4;

/// Multiplier of the last round.
pub const BIT_NOISE3: u64 = 0x1B56C4E9;

/// Weight of the second coordinate when a position is folded into one number.
pub const PRIME_Y: u64 = 14536142487739796659;

/// Weight of the third coordinate when a position is folded into one number.
pub const PRIME_Z: u64 = 17330241684369242527;

/// The hash of `position` under `seed`: multiply, add the seed, fold the high
/// bits down, add, fold the low bits up, multiply, fold down again.
pub open spec fn spec_squirrel3(position: u64, seed: u64) -> u64 {
    let a = position.wrapping_mul(BIT_NOISE1).wrapping_add(seed);
    let b = (a ^ (a >> 8)).wrapping_add(BIT_NOISE2);
    let c = (b ^ (b << 8)).wrapping_mul(BIT_NOISE3);
    c ^ (c >> 8)
}

/// The position that stands for the point `(x, y)`.
pub open spec fn spec_fold_2d(x: u64, y: u64) -> u64 {
    x.wrapping_add(y.wrapping_mul(PRIME_Y))
}

/// The position that stands for the point `(x, y, z)`.
pub open spec fn spec_fold_3d(x: u64, y: u64, z: u64) -> u64 {
    x.wrapping_add(y.wrapping_mul(PRIME_Y)).wrapping_add(z.wrapping_mul(PRIME_Z))
}

/// Noise of a point on a line.
pub open spec fn spec_noise_1d(x: u64, seed: u64) -> u64 {
    spec_squirrel3(x, seed)
}

/// Noise of a point in the plane.
pub open spec fn spec_noise_2d(x: u64, y: u64, seed: u64) -> u64 {
    spec_squirrel3(spec_fold_2d(x, y), seed)
}

/// Noise of a point in space.
pub open spec fn spec_noise_3d(x: u64, y: u64, z: u64, seed: u64) -> u64 {
    spec_squirrel3(spec_fold_3d(x, y, z), seed)
}

/// Hashes `position` under `seed`. The result depends on the two arguments
/// alone.
pub fn squirrel3(position: u64, seed: u64) -> (hashed: u64)
    ensures
        hashed == spec_squirrel3(position, seed),
{
    let mut mangled: u64 = position;
    mangled = mangled.wrapping_mul(BIT_NOISE1);
    mangled = mangled.wrapping_add(seed);
    mangled = mangled ^ (mangled >> 8);
    mangled = mangled.wrapping_add(BIT_NOISE2);
    mangled = mangled ^ (mangled << 8);
    mangled = mangled.wrapping_mul(BIT_NOISE3);
    mangled = mangled ^ (mangled >> 8);
    mangled
}

/// Noise of the point `x` on a line.
pub fn noise_1d(x: u64, seed: u64) -> (hashed: u64)
    ensures
        hashed == spec_noise_1d(x, seed),
{
    squirrel3(x, seed)
}

/// Noise of the point `(x, y)` in the plane.
pub fn noise_2d(x: u64, y: u64, seed: u64) -> (hashed: u64)
    ensures
        hashed == spec_noise_2d(x, y, seed),
{
    squirrel3(x.wrapping_add(y.wrapping_mul(PRIME_Y)), seed)
}

/// Noise of the point `(x, y, z)` in space.
pub fn noise_3d(x: u64, y: u64, z: u64, seed: u64) -> (hashed: u64)
    ensures
        hashed == spec_noise_3d(x, y, z, seed),
{
    squirrel3(x.wrapping_add(y.wrapping_mul(PRIME_Y)).wrapping_add(z.wrapping_mul(PRIME_Z)), seed)
}

} // verus!
