//! The proof-of-work search: a witness is a field element after which the
//! transcript samples nothing but zero bits.

use crate::transcript::ByteTranscript;
use crate::word::{check_word_witness, probe_word_witness, witness_checked};
use p3_maybe_rayon::prelude::{IntoParallelIterator, ParIterExt};
use vstd::arithmetic::power2::lemma2_to64;
use vstd::prelude::*;

verus! {

/// The witness passes the test with `bits` bits in this state.
pub open spec fn passes<T: ByteTranscript>(
    state: T::State,
    width: nat,
    bits: nat,
    witness: nat,
) -> bool {
    witness_checked::<T>(state, width, bits, witness).0
}

/// Some element of the field of this order passes the test in this state.
pub open spec fn has_witness<T: ByteTranscript>(
    state: T::State,
    order: nat,
    width: nat,
    bits: nat,
) -> bool {
    exists|witness: nat| witness < order && passes::<T>(state, width, bits, witness)
}

/// With no bits asked for, every witness passes, in every state.
pub proof fn lemma_zero_bits_pass<T: ByteTranscript>(state: T::State, width: nat, witness: nat)
    ensures
        passes::<T>(state, width, 0, witness),
{
    lemma2_to64();
}

/// With no bits asked for, a field with at least one element has a witness.
pub proof fn lemma_zero_bits_has_witness<T: ByteTranscript>(
    state: T::State,
    order: nat,
    width: nat,
)
    requires
        order > 0,
    ensures
        has_witness::<T>(state, order, width, 0),
{
    lemma_zero_bits_pass::<T>(state, width, 0);
}

/// `into_par_iter` and `find_any` of `p3_maybe_rayon`, over the candidates
/// `0..order` and with the test on a clone as the predicate.
///
/// Believed of them: every candidate below the order is offered to the
/// predicate until one is found; what comes back is a candidate for which the
/// predicate held, and nothing comes back only where it held for none. Which
/// of several passing candidates comes back is not said. (Without the
/// `parallel` feature of that crate the two are `into_iter` and
/// `Iterator::find`, and the first comes back.)
#[verifier::external_body]
fn find_any_witness<T: ByteTranscript + Send + Sync>(
    transcript: &T,
    order: u64,
    bits: usize,
    width: usize,
) -> (found: Option<u64>)
    requires
        width <= 8,
        bits < usize::BITS,
    ensures
        found matches Some(witness) ==> witness < order && passes::<T>(
            transcript.state(),
            width as nat,
            bits as nat,
            witness as nat,
        ),
        found is None ==> forall|witness: nat|
            witness < order ==> !passes::<T>(
                transcript.state(),
                width as nat,
                bits as nat,
                witness,
            ),
{
    (0..order).into_par_iter().find_any(
        |witness| probe_word_witness(transcript, bits, *witness, width),
    )
}

/// Searches all of the field for a witness and, where there is one, tests it
/// on the transcript itself, which moves on by that one test. Where there is
/// none, the transcript stays where it is.
pub fn try_grind_word<T: ByteTranscript + Send + Sync>(
    transcript: &mut T,
    order: u64,
    bits: usize,
    width: usize,
) -> (found: Option<u64>)
    requires
        width <= 8,
        bits < usize::BITS,
    ensures
        found.is_some() == has_witness::<T>(
            old(transcript).state(),
            order as nat,
            width as nat,
            bits as nat,
        ),
        found matches Some(witness) ==> witness < order && witness_checked::<T>(
            old(transcript).state(),
            width as nat,
            bits as nat,
            witness as nat,
        ) == (true, final(transcript).state()),
        found is None ==> final(transcript).state() == old(transcript).state(),
{
    match find_any_witness(transcript, order, bits, width) {
        Some(witness) => {
            let passed = check_word_witness(transcript, bits, witness, width);
            assert(passed);
            Some(witness)
        },
        None => None,
    }
}

/// Searches all of the field for a witness, tests it on the transcript
/// itself, and returns it. Which witness is found where there are several is
/// left open.
///
/// The caller shows that there is a witness.
pub fn grind_word<T: ByteTranscript + Send + Sync>(
    transcript: &mut T,
    order: u64,
    bits: usize,
    width: usize,
) -> (witness: u64)
    requires
        width <= 8,
        bits < usize::BITS,
        has_witness::<T>(old(transcript).state(), order as nat, width as nat, bits as nat),
    ensures
        witness < order,
        witness_checked::<T>(
            old(transcript).state(),
            width as nat,
            bits as nat,
            witness as nat,
        ) == (true, final(transcript).state()),
{
    match try_grind_word(transcript, order, bits, width) {
        Some(witness) => witness,
        None => {
            assert(false);
            0
        },
    }
}

} // verus!
