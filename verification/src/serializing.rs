//! The two challengers: field elements of a 32-bit and of a 64-bit prime
//! field over a byte transcript.
//!
//! A field is given by its order. Its elements are their canonical
//! representatives, the integers below the order. An extension element is the
//! sequence of its coordinates over the base field.

use crate::grinding::{grind_word, has_witness, passes, try_grind_word};
use crate::transcript::{observe_all, observe_slice, ByteTranscript};
use crate::word::{
    accepts_within, after_draws, bits_sampled, can_sample, check_word_witness,
    coordinates_sampled, observe_word, observe_words, probe_word_witness, sample_below_within,
    sample_coordinates, sample_low_bits, sampled_below, witness_checked, word_observed,
    words_observed,
};
use vstd::arithmetic::power2::pow2;
use vstd::prelude::*;

verus! {

/// The bytes of a word of the 32-bit challenger.
pub const WIDTH_32: usize = 4;

/// The bytes of a word of the 64-bit challenger, and of a digest word.
pub const WIDTH_64: usize = 8;

/// A challenger for a prime field whose order fits in 32 bits.
///
/// **Observing** an element writes its canonical representative as four
/// little-endian bytes and hands each byte to the inner transcript.
///
/// **Sampling** an element draws four bytes at a time, keeps the bits of the
/// least power-of-two mask that covers the order, and takes the first draw
/// that lies below the order. No value is reduced modulo the order, so none
/// is favoured.
#[derive(Debug)]
pub struct SerializingChallenger32<Inner> {
    inner: Inner,
    order: u32,
}

impl<Inner: ByteTranscript> Clone for SerializingChallenger32<Inner> {
    /// The clone stands where this challenger stands, over the same field.
    fn clone(&self) -> (copy: Self)
        ensures
            copy.state() == self.state(),
            copy.order() == self.order(),
    {
        let inner = self.inner.clone();
        proof {
            Inner::clone_keeps_state(&self.inner, &inner);
        }
        SerializingChallenger32 { inner, order: self.order }
    }
}

impl<Inner: ByteTranscript> SerializingChallenger32<Inner> {
    /// Where the inner transcript stands.
    pub closed spec fn state(&self) -> Inner::State {
        self.inner.state()
    }

    /// The order of the field.
    pub closed spec fn order(&self) -> u32 {
        self.order
    }

    /// A challenger for the field of this order, over this transcript.
    pub fn new(inner: Inner, order: u32) -> (challenger: Self)
        ensures
            challenger.state() == inner.state(),
            challenger.order() == order,
    {
        SerializingChallenger32 { inner, order }
    }

    /// Observes a field element.
    pub fn observe(&mut self, value: u32)
        requires
            value < old(self).order(),
        ensures
            final(self).order() == old(self).order(),
            final(self).state() == word_observed::<Inner>(
                old(self).state(),
                value as nat,
                WIDTH_32 as nat,
            ),
    {
        observe_word(&mut self.inner, value as u64, WIDTH_32);
    }

    /// Observes a digest of bytes, byte by byte.
    pub fn observe_hash_bytes<const N: usize>(&mut self, digest: [u8; N])
        ensures
            final(self).order() == old(self).order(),
            final(self).state() == observe_all::<Inner>(old(self).state(), digest@),
    {
        observe_slice(&mut self.inner, digest.as_slice());
    }

    /// Observes a digest of 64-bit words, each as its eight little-endian bytes.
    pub fn observe_hash_words<const N: usize>(&mut self, digest: [u64; N])
        ensures
            final(self).order() == old(self).order(),
            final(self).state() == words_observed::<Inner>(
                old(self).state(),
                digest@,
                WIDTH_64 as nat,
            ),
    {
        observe_words(&mut self.inner, digest.as_slice(), WIDTH_64);
    }

    /// Samples an element of an extension of degree `dimension`: its
    /// coordinates, each sampled by rejection, in their order.
    ///
    /// The caller shows that each rejection search ends.
    pub fn sample(&mut self, dimension: usize) -> (coordinates: Vec<u32>)
        requires
            can_sample::<Inner>(
                old(self).state(),
                old(self).order() as nat,
                WIDTH_32 as nat,
                dimension as nat,
            ),
        ensures
            final(self).order() == old(self).order(),
            coordinates@.len() == dimension,
            forall|i: int| 0 <= i < dimension ==> coordinates@[i] < old(self).order(),
            coordinates@.map_values(|value: u32| value as nat) == coordinates_sampled::<Inner>(
                old(self).state(),
                old(self).order() as nat,
                WIDTH_32 as nat,
                dimension as nat,
            ).0,
            final(self).state() == coordinates_sampled::<Inner>(
                old(self).state(),
                old(self).order() as nat,
                WIDTH_32 as nat,
                dimension as nat,
            ).1,
    {
        let wide = sample_coordinates(&mut self.inner, self.order as u64, WIDTH_32, dimension);
        let mut coordinates: Vec<u32> = Vec::new();
        let mut i: usize = 0;
        while i < dimension
            invariant
                i <= dimension,
                wide@.len() == dimension,
                coordinates@.len() == i,
                forall|j: int| 0 <= j < dimension ==> wide@[j] < self.order,
                forall|j: int| 0 <= j < i ==> coordinates@[j] == wide@[j],
            decreases dimension - i,
        {
            coordinates.push(wide[i] as u32);
            i = i + 1;
        }
        assert(coordinates@.map_values(|value: u32| value as nat) =~= wide@.map_values(
            |value: u64| value as nat,
        ));
        coordinates
    }

    /// Samples one element of the base field by rejection, giving up after
    /// `attempts` draws: the element where one of the first `attempts` draws
    /// is accepted, nothing where all of them are rejected.
    pub fn sample_base_within(&mut self, attempts: usize) -> (value: Option<u32>)
        ensures
            final(self).order() == old(self).order(),
            value.is_some() == accepts_within::<Inner>(
                old(self).state(),
                old(self).order() as nat,
                WIDTH_32 as nat,
                attempts as nat,
            ),
            value matches Some(found) ==> found < old(self).order() && (
                found as nat,
                final(self).state(),
            ) == sampled_below::<Inner>(
                old(self).state(),
                old(self).order() as nat,
                WIDTH_32 as nat,
            ),
            value is None ==> final(self).state() == after_draws::<Inner>(
                old(self).state(),
                WIDTH_32 as nat,
                attempts as nat,
            ),
    {
        match sample_below_within(&mut self.inner, self.order as u64, WIDTH_32, attempts) {
            Some(found) => Some(found as u32),
            None => None,
        }
    }

    /// Samples `bits` bits: the low bits of one draw.
    pub fn sample_bits(&mut self, bits: usize) -> (low: usize)
        requires
            bits < usize::BITS,
            pow2(bits as nat) <= old(self).order(),
        ensures
            final(self).order() == old(self).order(),
            low < pow2(bits as nat),
            (low as nat, final(self).state()) == bits_sampled::<Inner>(
                old(self).state(),
                WIDTH_32 as nat,
                bits as nat,
            ),
    {
        sample_low_bits(&mut self.inner, bits, WIDTH_32)
    }

    /// Tests a proof-of-work witness on this challenger, which moves on: the
    /// witness is observed, `bits` bits are sampled, and the witness passes
    /// where all of them are zero.
    pub fn check_witness(&mut self, bits: usize, witness: u32) -> (passed: bool)
        requires
            bits < usize::BITS,
            pow2(bits as nat) <= old(self).order(),
            witness < old(self).order(),
        ensures
            final(self).order() == old(self).order(),
            (passed, final(self).state()) == witness_checked::<Inner>(
                old(self).state(),
                WIDTH_32 as nat,
                bits as nat,
                witness as nat,
            ),
    {
        check_word_witness(&mut self.inner, bits, witness as u64, WIDTH_32)
    }

    /// Tests a proof-of-work witness on a clone: this challenger stays where
    /// it is, and the same question has the same answer every time.
    pub fn witness_passes(&self, bits: usize, witness: u32) -> (passed: bool)
        requires
            bits < usize::BITS,
            pow2(bits as nat) <= self.order(),
            witness < self.order(),
        ensures
            passed == passes::<Inner>(self.state(), WIDTH_32 as nat, bits as nat, witness as nat),
    {
        probe_word_witness(&self.inner, bits, witness as u64, WIDTH_32)
    }
}

impl<Inner: ByteTranscript + Send + Sync> SerializingChallenger32<Inner> {
    /// Searches the whole field for a proof-of-work witness. Where there is
    /// one, it is tested on this challenger, which moves on by that one test,
    /// and returned. Where there is none, nothing is returned and the
    /// challenger stays where it is.
    pub fn try_grind(&mut self, bits: usize) -> (found: Option<u32>)
        requires
            bits < usize::BITS,
            pow2(bits as nat) < old(self).order(),
        ensures
            final(self).order() == old(self).order(),
            found.is_some() == has_witness::<Inner>(
                old(self).state(),
                old(self).order() as nat,
                WIDTH_32 as nat,
                bits as nat,
            ),
            found matches Some(witness) ==> witness < old(self).order()
                && witness_checked::<Inner>(
                old(self).state(),
                WIDTH_32 as nat,
                bits as nat,
                witness as nat,
            ) == (true, final(self).state()),
            found is None ==> final(self).state() == old(self).state(),
    {
        match try_grind_word(&mut self.inner, self.order as u64, bits, WIDTH_32) {
            Some(witness) => Some(witness as u32),
            None => None,
        }
    }

    /// Searches the whole field for a proof-of-work witness, tests it on this
    /// challenger, which moves on by that one test, and returns it. Which
    /// witness is returned where several pass is left open.
    ///
    /// The caller shows that there is a witness.
    pub fn grind(&mut self, bits: usize) -> (witness: u32)
        requires
            bits < usize::BITS,
            pow2(bits as nat) < old(self).order(),
            has_witness::<Inner>(
                old(self).state(),
                old(self).order() as nat,
                WIDTH_32 as nat,
                bits as nat,
            ),
        ensures
            final(self).order() == old(self).order(),
            witness < old(self).order(),
            witness_checked::<Inner>(
                old(self).state(),
                WIDTH_32 as nat,
                bits as nat,
                witness as nat,
            ) == (true, final(self).state()),
    {
        grind_word(&mut self.inner, self.order as u64, bits, WIDTH_32) as u32
    }
}

/// A challenger for a prime field whose order fits in 64 bits.
///
/// **Observing** an element writes its canonical representative as eight
/// little-endian bytes and hands each byte to the inner transcript.
///
/// **Sampling** an element draws eight bytes at a time, keeps the bits of the
/// least power-of-two mask that covers the order, and takes the first draw
/// that lies below the order. No value is reduced modulo the order, so none
/// is favoured.
#[derive(Debug)]
pub struct SerializingChallenger64<Inner> {
    inner: Inner,
    order: u64,
}

impl<Inner: ByteTranscript> Clone for SerializingChallenger64<Inner> {
    /// The clone stands where this challenger stands, over the same field.
    fn clone(&self) -> (copy: Self)
        ensures
            copy.state() == self.state(),
            copy.order() == self.order(),
    {
        let inner = self.inner.clone();
        proof {
            Inner::clone_keeps_state(&self.inner, &inner);
        }
        SerializingChallenger64 { inner, order: self.order }
    }
}

impl<Inner: ByteTranscript> SerializingChallenger64<Inner> {
    /// Where the inner transcript stands.
    pub closed spec fn state(&self) -> Inner::State {
        self.inner.state()
    }

    /// The order of the field.
    pub closed spec fn order(&self) -> u64 {
        self.order
    }

    /// A challenger for the field of this order, over this transcript.
    pub fn new(inner: Inner, order: u64) -> (challenger: Self)
        ensures
            challenger.state() == inner.state(),
            challenger.order() == order,
    {
        SerializingChallenger64 { inner, order }
    }

    /// Observes a field element.
    pub fn observe(&mut self, value: u64)
        requires
            value < old(self).order(),
        ensures
            final(self).order() == old(self).order(),
            final(self).state() == word_observed::<Inner>(
                old(self).state(),
                value as nat,
                WIDTH_64 as nat,
            ),
    {
        observe_word(&mut self.inner, value, WIDTH_64);
    }

    /// Observes a digest of bytes, byte by byte.
    pub fn observe_hash_bytes<const N: usize>(&mut self, digest: [u8; N])
        ensures
            final(self).order() == old(self).order(),
            final(self).state() == observe_all::<Inner>(old(self).state(), digest@),
    {
        observe_slice(&mut self.inner, digest.as_slice());
    }

    /// Observes a digest of 64-bit words, each as its eight little-endian bytes.
    pub fn observe_hash_words<const N: usize>(&mut self, digest: [u64; N])
        ensures
            final(self).order() == old(self).order(),
            final(self).state() == words_observed::<Inner>(
                old(self).state(),
                digest@,
                WIDTH_64 as nat,
            ),
    {
        observe_words(&mut self.inner, digest.as_slice(), WIDTH_64);
    }

    /// Samples an element of an extension of degree `dimension`: its
    /// coordinates, each sampled by rejection, in their order.
    ///
    /// The caller shows that each rejection search ends.
    pub fn sample(&mut self, dimension: usize) -> (coordinates: Vec<u64>)
        requires
            can_sample::<Inner>(
                old(self).state(),
                old(self).order() as nat,
                WIDTH_64 as nat,
                dimension as nat,
            ),
        ensures
            final(self).order() == old(self).order(),
            coordinates@.len() == dimension,
            forall|i: int| 0 <= i < dimension ==> coordinates@[i] < old(self).order(),
            coordinates@.map_values(|value: u64| value as nat) == coordinates_sampled::<Inner>(
                old(self).state(),
                old(self).order() as nat,
                WIDTH_64 as nat,
                dimension as nat,
            ).0,
            final(self).state() == coordinates_sampled::<Inner>(
                old(self).state(),
                old(self).order() as nat,
                WIDTH_64 as nat,
                dimension as nat,
            ).1,
    {
        sample_coordinates(&mut self.inner, self.order, WIDTH_64, dimension)
    }

    /// Samples one element of the base field by rejection, giving up after
    /// `attempts` draws: the element where one of the first `attempts` draws
    /// is accepted, nothing where all of them are rejected.
    pub fn sample_base_within(&mut self, attempts: usize) -> (value: Option<u64>)
        ensures
            final(self).order() == old(self).order(),
            value.is_some() == accepts_within::<Inner>(
                old(self).state(),
                old(self).order() as nat,
                WIDTH_64 as nat,
                attempts as nat,
            ),
            value matches Some(found) ==> found < old(self).order() && (
                found as nat,
                final(self).state(),
            ) == sampled_below::<Inner>(
                old(self).state(),
                old(self).order() as nat,
                WIDTH_64 as nat,
            ),
            value is None ==> final(self).state() == after_draws::<Inner>(
                old(self).state(),
                WIDTH_64 as nat,
                attempts as nat,
            ),
    {
        match sample_below_within(&mut self.inner, self.order, WIDTH_64, attempts) {
            Some(found) => Some(found),
            None => None,
        }
    }

    /// Samples `bits` bits: the low bits of one draw.
    pub fn sample_bits(&mut self, bits: usize) -> (low: usize)
        requires
            bits < usize::BITS,
            pow2(bits as nat) <= old(self).order(),
        ensures
            final(self).order() == old(self).order(),
            low < pow2(bits as nat),
            (low as nat, final(self).state()) == bits_sampled::<Inner>(
                old(self).state(),
                WIDTH_64 as nat,
                bits as nat,
            ),
    {
        sample_low_bits(&mut self.inner, bits, WIDTH_64)
    }

    /// Tests a proof-of-work witness on this challenger, which moves on: the
    /// witness is observed, `bits` bits are sampled, and the witness passes
    /// where all of them are zero.
    pub fn check_witness(&mut self, bits: usize, witness: u64) -> (passed: bool)
        requires
            bits < usize::BITS,
            pow2(bits as nat) <= old(self).order(),
            witness < old(self).order(),
        ensures
            final(self).order() == old(self).order(),
            (passed, final(self).state()) == witness_checked::<Inner>(
                old(self).state(),
                WIDTH_64 as nat,
                bits as nat,
                witness as nat,
            ),
    {
        check_word_witness(&mut self.inner, bits, witness, WIDTH_64)
    }

    /// Tests a proof-of-work witness on a clone: this challenger stays where
    /// it is, and the same question has the same answer every time.
    pub fn witness_passes(&self, bits: usize, witness: u64) -> (passed: bool)
        requires
            bits < usize::BITS,
            pow2(bits as nat) <= self.order(),
            witness < self.order(),
        ensures
            passed == passes::<Inner>(self.state(), WIDTH_64 as nat, bits as nat, witness as nat),
    {
        probe_word_witness(&self.inner, bits, witness, WIDTH_64)
    }
}

impl<Inner: ByteTranscript + Send + Sync> SerializingChallenger64<Inner> {
    /// Searches the whole field for a proof-of-work witness. Where there is
    /// one, it is tested on this challenger, which moves on by that one test,
    /// and returned. Where there is none, nothing is returned and the
    /// challenger stays where it is.
    pub fn try_grind(&mut self, bits: usize) -> (found: Option<u64>)
        requires
            bits < usize::BITS,
            pow2(bits as nat) < old(self).order(),
        ensures
            final(self).order() == old(self).order(),
            found.is_some() == has_witness::<Inner>(
                old(self).state(),
                old(self).order() as nat,
                WIDTH_64 as nat,
                bits as nat,
            ),
            found matches Some(witness) ==> witness < old(self).order()
                && witness_checked::<Inner>(
                old(self).state(),
                WIDTH_64 as nat,
                bits as nat,
                witness as nat,
            ) == (true, final(self).state()),
            found is None ==> final(self).state() == old(self).state(),
    {
        match try_grind_word(&mut self.inner, self.order, bits, WIDTH_64) {
            Some(witness) => Some(witness),
            None => None,
        }
    }

    /// Searches the whole field for a proof-of-work witness, tests it on this
    /// challenger, which moves on by that one test, and returns it. Which
    /// witness is returned where several pass is left open.
    ///
    /// The caller shows that there is a witness.
    pub fn grind(&mut self, bits: usize) -> (witness: u64)
        requires
            bits < usize::BITS,
            pow2(bits as nat) < old(self).order(),
            has_witness::<Inner>(
                old(self).state(),
                old(self).order() as nat,
                WIDTH_64 as nat,
                bits as nat,
            ),
        ensures
            final(self).order() == old(self).order(),
            witness < old(self).order(),
            witness_checked::<Inner>(
                old(self).state(),
                WIDTH_64 as nat,
                bits as nat,
                witness as nat,
            ) == (true, final(self).state()),
    {
        grind_word(&mut self.inner, self.order, bits, WIDTH_64)
    }
}

} // verus!
