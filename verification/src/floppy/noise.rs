//! Owned noise streams for repeatable device emulation.

use rand::{Rng, RngCore, SeedableRng};
use rand_chacha::ChaCha8Rng;
use vstd::prelude::*;

verus! {

/// The ChaCha8 generator of `rand_chacha`.
#[verifier::external_type_specification]
#[verifier::external_body]
pub struct ExChaCha8Rng(ChaCha8Rng);

/// The words that a generator has still to give, in their order.
pub uninterp spec fn stream_words(stream: ChaCha8Rng) -> Map<nat, u32>;

/// The words that a generator gives that `ChaCha8Rng::seed_from_u64` made.
pub uninterp spec fn chacha8_words(seed: u64) -> Map<nat, u32>;

/// Words without the first few.
pub open spec fn words_after(words: Map<nat, u32>, count: nat) -> Map<nat, u32> {
    Map::new(|i: nat| true, |i: nat| words[i + count])
}

/// `ChaCha8Rng::seed_from_u64` makes a generator whose words depend on the seed alone.
#[verifier::external_body]
fn seeded_stream(seed: u64) -> (stream: ChaCha8Rng)
    ensures
        stream_words(stream) == words_after(chacha8_words(seed), 0),
{
    ChaCha8Rng::seed_from_u64(seed)
}

/// `RngCore::next_u32` gives the generator's next word and moves on to the one after it.
#[verifier::external_body]
fn next_word(stream: &mut ChaCha8Rng) -> (word: u32)
    ensures
        word == stream_words(*old(stream))[0],
        stream_words(*final(stream)) == words_after(stream_words(*old(stream)), 1),
{
    stream.next_u32()
}

/// `Rng::random` on `rand::rng()` gives a byte of the host's entropy. Nothing can be said of it.
#[verifier::external_body]
fn entropy_byte() -> (byte: u8) {
    rand::rng().random()
}

/// ChaCha8 streams are independent of host thread scheduling. Unseeded callers
/// get entropy-backed noise.
#[derive(Clone)]
pub struct Noise {
    pub stream: Option<ChaCha8Rng>,
    pub draws: u64,
}

/// What a noise source has still to give, if it is seeded, and how often it has been drawn from.
pub ghost struct NoiseModel {
    pub words: Option<Map<nat, u32>>,
    pub draws: u64,
}

impl View for Noise {
    type V = NoiseModel;

    open spec fn view(&self) -> NoiseModel {
        NoiseModel {
            words: match self.stream {
                Some(stream) => Some(stream_words(stream)),
                None => None,
            },
            draws: self.draws,
        }
    }
}

/// The byte of noise that a word gives.
#[verifier::allow_in_spec]
pub fn noise_byte(word: u32) -> u8
    returns
        (word & 0xFF) as u8,
{
    (word & 0xFF) as u8
}

/// The bit of noise that a byte gives.
#[verifier::allow_in_spec]
pub fn noise_bit(byte: u8) -> bool
    returns
        byte & 1 != 0,
{
    byte & 1 != 0
}

/// A noise source after one draw.
pub open spec fn drawn(noise: NoiseModel) -> NoiseModel {
    NoiseModel {
        words: match noise.words {
            Some(words) => Some(words_after(words, 1)),
            None => None,
        },
        draws: noise.draws.wrapping_add(1),
    }
}

impl Default for Noise {
    /// A source of the host's entropy.
    fn default() -> (noise: Self)
        ensures
            noise@ == (NoiseModel { words: None, draws: 0 }),
    {
        Noise { stream: None, draws: 0 }
    }
}

impl Noise {
    /// A source whose noise depends on the seed alone.
    pub fn seeded(seed: u64) -> (noise: Self)
        ensures
            noise@ == seeded_noise(seed),
    {
        Noise { stream: Some(seeded_stream(seed)), draws: 0 }
    }

    /// Draw a byte.
    pub fn byte(&mut self) -> (byte: u8)
        ensures
            final(self)@ == drawn(old(self)@),
            old(self)@.words matches Some(words) ==> byte == noise_byte(words[0]),
    {
        self.draws = self.draws.wrapping_add(1);
        match &mut self.stream {
            Some(stream) => noise_byte(next_word(stream)),
            None => entropy_byte(),
        }
    }

    /// Draw a bit.
    pub fn bit(&mut self) -> (bit: bool)
        ensures
            final(self)@ == drawn(old(self)@),
            old(self)@.words matches Some(words) ==> bit == noise_bit(noise_byte(words[0])),
    {
        noise_bit(self.byte())
    }
}

/// A source that has just been seeded.
pub open spec fn seeded_noise(seed: u64) -> NoiseModel {
    NoiseModel { words: Some(words_after(chacha8_words(seed), 0)), draws: 0 }
}

/// A source after a number of draws.
pub open spec fn drawn_times(noise: NoiseModel, count: nat) -> NoiseModel
    decreases count,
{
    if count == 0 {
        noise
    } else {
        drawn(drawn_times(noise, (count - 1) as nat))
    }
}

/// What a seeded source gives at some draw depends on the seed and on how many draws came before,
/// and on nothing else: sources with equal seeds give equal noise, whatever other sources do.
pub proof fn law_seeded_noise_is_repeatable(seed: u64, count: nat)
    ensures
        drawn_times(seeded_noise(seed), count) == (NoiseModel {
            words: Some(words_after(chacha8_words(seed), count)),
            draws: (count % 0x1_0000_0000_0000_0000) as u64,
        }),
        drawn_times(seeded_noise(seed), count).words->0[0] == chacha8_words(seed)[count],
    decreases count,
{
    let words = chacha8_words(seed);
    if count > 0 {
        let before = (count - 1) as nat;
        law_seeded_noise_is_repeatable(seed, before);
        assert(words_after(words_after(words, before), 1) =~= words_after(words, count));
    }
}

/// An unseeded source stays unseeded.
pub proof fn law_unseeded_noise_stays_unseeded(noise: NoiseModel, count: nat)
    requires
        noise.words is None,
    ensures
        drawn_times(noise, count).words is None,
    decreases count,
{
    if count > 0 {
        law_unseeded_noise_stays_unseeded(noise, (count - 1) as nat);
    }
}

/// A draw gives the least significant byte of the next word, and its least significant bit.
pub proof fn law_draws_take_the_lowest_bits(word: u32, byte: u8)
    ensures
        noise_byte(word) == word % 256,
        noise_bit(byte) == (byte % 2 == 1),
        noise_bit(noise_byte(word)) == (word % 2 == 1),
{
    let low = noise_byte(word);
    assert((word & 0xFF) as u8 == word % 256 && (byte & 1 != 0) == (byte % 2 == 1) && (low & 1 != 0)
        == (low % 2 == 1)) by (bit_vector);
}

/// One draw takes one word from a seeded source and counts, in 64 bits.
pub proof fn law_draw_takes_one_word(noise: NoiseModel, at: nat)
    ensures
        drawn(noise).draws == (noise.draws + 1) % 0x1_0000_0000_0000_0000,
        noise.words is Some <==> drawn(noise).words is Some,
        noise.words matches Some(words) ==> drawn(noise).words->0[at] == words[at + 1],
{
}

} // verus!
