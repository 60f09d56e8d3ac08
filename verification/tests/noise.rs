//! Noise streams.

use rand::{RngCore, SeedableRng};
use rand_chacha::ChaCha8Rng;
use snow_core::floppy::noise::Noise;

#[test]
fn independent_streams() {
    let mut a = Noise::seeded(42);
    let mut b = Noise::seeded(42);
    let mut other = Noise::seeded(43);
    for _ in 0..1000 {
        other.byte();
        assert_eq!(a.byte(), b.byte());
    }
}

#[test]
fn seeded_noise_is_the_low_bytes_of_the_generator() {
    let mut noise = Noise::seeded(7);
    let mut generator = ChaCha8Rng::seed_from_u64(7);
    for _ in 0..100 {
        assert_eq!(noise.byte(), generator.next_u32() as u8);
    }
    assert_eq!(noise.draws, 100);
    for _ in 0..100 {
        assert_eq!(noise.bit(), generator.next_u32() & 1 != 0);
    }
    assert_eq!(noise.draws, 200);
}

#[test]
fn different_seeds_differ() {
    let mut a = Noise::seeded(42);
    let mut b = Noise::seeded(43);
    let first: Vec<u8> = (0..64).map(|_| a.byte()).collect();
    let second: Vec<u8> = (0..64).map(|_| b.byte()).collect();
    assert_ne!(first, second);
}

#[test]
fn unseeded_noise_counts_its_draws() {
    let mut noise = Noise::default();
    let drawn: Vec<u8> = (0..256).map(|_| noise.byte()).collect();
    assert!(drawn.iter().any(|byte| *byte != drawn[0]));
    noise.bit();
    assert_eq!(noise.draws, 257);
    assert!(noise.stream.is_none());
}
