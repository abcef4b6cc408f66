//! The FNV-1a rolling hash that fingerprints draw commands for change
//! detection: starting from the seed, each byte is folded in by
//! `hash = (hash ^ byte) * 16777619` in wrapping 32-bit arithmetic.

use vstd::prelude::*;

verus! {

/// The FNV-1a offset basis.
pub const FNV_SEED: u32 = 2166136261;

/// The FNV-1a prime.
pub const FNV_PRIME: u32 = 16777619;

/// Folds one byte into the accumulator.
pub open spec fn fnv_step(h: u32, b: u8) -> u32 {
    (((h ^ (b as u32)) as nat * FNV_PRIME as nat) % 0x1_0000_0000nat) as u32
}

/// Folds the four bytes of `u`, least significant first.
pub open spec fn fnv_u32(h: u32, u: u32) -> u32 {
    fnv_step(
        fnv_step(
            fnv_step(fnv_step(h, (u % 256) as u8), ((u / 256) % 256) as u8),
            ((u / 65536) % 256) as u8,
        ),
        ((u / 16777216) % 256) as u8,
    )
}

/// An `i32` coordinate mapped to the 32-bit pattern that is hashed for it:
/// offset into the non-negative range so every coordinate has a pattern.
pub open spec fn coord_bits(x: i32) -> u32 {
    (x + 0x8000_0000) as u32
}

/// Folds one byte into the accumulator.
pub fn fnv_byte(h: u32, b: u8) -> (r: u32)
    ensures
        r == fnv_step(h, b),
{
    (h ^ (b as u32)).wrapping_mul(FNV_PRIME)
}

/// Folds the four bytes of `u` into the accumulator, least significant first.
pub fn fnv_word(h: u32, u: u32) -> (r: u32)
    ensures
        r == fnv_u32(h, u),
{
    let h = fnv_byte(h, (u % 256) as u8);
    let h = fnv_byte(h, ((u / 256) % 256) as u8);
    let h = fnv_byte(h, ((u / 65536) % 256) as u8);
    fnv_byte(h, ((u / 16777216) % 256) as u8)
}

/// Folds an `i32` coordinate into the accumulator.
pub fn fnv_coord(h: u32, x: i32) -> (r: u32)
    ensures
        r == fnv_u32(h, coord_bits(x)),
{
    let u: u32 = ((x as i64) + 0x8000_0000i64) as u32;
    fnv_word(h, u)
}

} // verus!
