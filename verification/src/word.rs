//! Field elements on a byte transcript, for words of up to eight bytes.
//!
//! A word is the canonical representative of a field element, written in
//! `width` little-endian bytes. Everything here is shared by the 32-bit and
//! the 64-bit challenger, which differ in `width` alone.

use crate::encoding::{decode_le, encode_le, le_bytes, le_value};
use crate::sampling::{low_bits, mask_of, masked, reduce, sampling_mask};
use crate::transcript::{observe_all, observe_slice, sample_all, sample_vec, ByteTranscript};
use vstd::arithmetic::power2::pow2;
use vstd::prelude::*;

verus! {

/// The state after a word was absorbed: its bytes, least significant first.
pub open spec fn word_observed<T: ByteTranscript>(
    state: T::State,
    value: nat,
    width: nat,
) -> T::State {
    observe_all::<T>(state, le_bytes(value, width))
}

/// The word that is drawn in a state, and the state after that: `width` bytes
/// are squeezed and read as a little-endian number.
pub open spec fn drawn<T: ByteTranscript>(state: T::State, width: nat) -> (nat, T::State) {
    let (bytes, next) = sample_all::<T>(state, width);
    (le_value(bytes), next)
}

/// The state after `count` words were drawn.
pub open spec fn after_draws<T: ByteTranscript>(
    state: T::State,
    width: nat,
    count: nat,
) -> T::State
    decreases count,
{
    if count == 0 {
        state
    } else {
        drawn::<T>(after_draws::<T>(state, width, (count - 1) as nat), width).1
    }
}

/// The draw with this index, counted from zero, reduced to the bits of the
/// mask of `order`.
pub open spec fn candidate<T: ByteTranscript>(
    state: T::State,
    order: nat,
    width: nat,
    index: nat,
) -> nat {
    masked(drawn::<T>(after_draws::<T>(state, width, index), width).0, order)
}

/// The draw with this index is the first whose candidate lies below the order.
pub open spec fn first_accepted<T: ByteTranscript>(
    state: T::State,
    order: nat,
    width: nat,
    index: nat,
) -> bool {
    &&& candidate::<T>(state, order, width, index) < order
    &&& forall|earlier: nat|
        earlier < index ==> candidate::<T>(state, order, width, earlier) >= order
}

/// Some draw gives a candidate below the order, so rejection sampling ends.
pub open spec fn accepts_eventually<T: ByteTranscript>(
    state: T::State,
    order: nat,
    width: nat,
) -> bool {
    exists|index: nat| candidate::<T>(state, order, width, index) < order
}

/// One of the first `attempts` draws gives a candidate below the order.
pub open spec fn accepts_within<T: ByteTranscript>(
    state: T::State,
    order: nat,
    width: nat,
    attempts: nat,
) -> bool {
    exists|index: nat| index < attempts && candidate::<T>(state, order, width, index) < order
}

/// The number of draws that are rejected before one is accepted.
pub open spec fn rejections<T: ByteTranscript>(state: T::State, order: nat, width: nat) -> nat {
    choose|index: nat| first_accepted::<T>(state, order, width, index)
}

/// The element that rejection sampling gives in a state, and the state after
/// that: the first candidate below the order, with every draw up to it used up.
pub open spec fn sampled_below<T: ByteTranscript>(
    state: T::State,
    order: nat,
    width: nat,
) -> (nat, T::State) {
    let index = rejections::<T>(state, order, width);
    (candidate::<T>(state, order, width, index), after_draws::<T>(state, width, index + 1))
}

/// The `bits` low bits of the word drawn in a state, and the state after that.
pub open spec fn bits_sampled<T: ByteTranscript>(
    state: T::State,
    width: nat,
    bits: nat,
) -> (nat, T::State) {
    let (word, next) = drawn::<T>(state, width);
    (word % pow2(bits), next)
}

/// Whether a witness passes the proof-of-work test in a state, and the state
/// after the test: the witness is absorbed, `bits` bits are sampled, and the
/// witness passes where all of them are zero.
pub open spec fn witness_checked<T: ByteTranscript>(
    state: T::State,
    width: nat,
    bits: nat,
    witness: nat,
) -> (bool, T::State) {
    let (low, next) = bits_sampled::<T>(word_observed::<T>(state, witness, width), width, bits);
    (low == 0, next)
}

/// The state after the words were absorbed one by one, first to last.
pub open spec fn words_observed<T: ByteTranscript>(
    state: T::State,
    words: Seq<u64>,
    width: nat,
) -> T::State
    decreases words.len(),
{
    if words.len() == 0 {
        state
    } else {
        word_observed::<T>(
            words_observed::<T>(state, words.drop_last(), width),
            words.last() as nat,
            width,
        )
    }
}

/// The `count` elements that rejection sampling gives one after the other,
/// and the state after the last.
pub open spec fn coordinates_sampled<T: ByteTranscript>(
    state: T::State,
    order: nat,
    width: nat,
    count: nat,
) -> (Seq<nat>, T::State)
    decreases count,
{
    if count == 0 {
        (Seq::empty(), state)
    } else {
        let (values, middle) = coordinates_sampled::<T>(state, order, width, (count - 1) as nat);
        let (value, next) = sampled_below::<T>(middle, order, width);
        (values.push(value), next)
    }
}

/// Rejection sampling ends for each of `count` elements in a row.
pub open spec fn can_sample<T: ByteTranscript>(
    state: T::State,
    order: nat,
    width: nat,
    count: nat,
) -> bool
    decreases count,
{
    count == 0 || (can_sample::<T>(state, order, width, (count - 1) as nat)
        && accepts_eventually::<T>(
        coordinates_sampled::<T>(state, order, width, (count - 1) as nat).1,
        order,
        width,
    ))
}

/// The bytes of the words, each written in `width` bytes, one word after the other.
pub open spec fn words_bytes(words: Seq<u64>, width: nat) -> Seq<u8>
    decreases words.len(),
{
    if words.len() == 0 {
        Seq::empty()
    } else {
        words_bytes(words.drop_last(), width) + le_bytes(words.last() as nat, width)
    }
}

/// Absorbing words is absorbing their bytes: nothing marks where one word
/// ends and the next begins.
pub proof fn lemma_words_observed_as_bytes<T: ByteTranscript>(
    state: T::State,
    words: Seq<u64>,
    width: nat,
)
    ensures
        words_observed::<T>(state, words, width) == observe_all::<T>(
            state,
            words_bytes(words, width),
        ),
    decreases words.len(),
{
    if words.len() > 0 {
        lemma_words_observed_as_bytes::<T>(state, words.drop_last(), width);
        crate::transcript::lemma_observe_all_concat::<T>(
            state,
            words_bytes(words.drop_last(), width),
            le_bytes(words.last() as nat, width),
        );
    }
}

/// Where `count` elements can be sampled, fewer can.
pub proof fn lemma_can_sample_fewer<T: ByteTranscript>(
    state: T::State,
    order: nat,
    width: nat,
    count: nat,
    fewer: nat,
)
    requires
        can_sample::<T>(state, order, width, count),
        fewer <= count,
    ensures
        can_sample::<T>(state, order, width, fewer),
    decreases count,
{
    if fewer < count {
        lemma_can_sample_fewer::<T>(state, order, width, (count - 1) as nat, fewer);
    }
}

/// Sampling `count` elements gives `count` elements.
pub proof fn lemma_coordinates_sampled_len<T: ByteTranscript>(
    state: T::State,
    order: nat,
    width: nat,
    count: nat,
)
    ensures
        coordinates_sampled::<T>(state, order, width, count).0.len() == count,
    decreases count,
{
    if count > 0 {
        lemma_coordinates_sampled_len::<T>(state, order, width, (count - 1) as nat);
    }
}

/// Only one draw can be the first that is accepted.
pub proof fn lemma_first_accepted_unique<T: ByteTranscript>(
    state: T::State,
    order: nat,
    width: nat,
    a: nat,
    b: nat,
)
    requires
        first_accepted::<T>(state, order, width, a),
        first_accepted::<T>(state, order, width, b),
    ensures
        a == b,
{
}

/// Where rejection sampling ends, the draw that `rejections` counts up to is
/// the first that is accepted.
pub proof fn lemma_rejections<T: ByteTranscript>(state: T::State, order: nat, width: nat)
    requires
        accepts_eventually::<T>(state, order, width),
    ensures
        first_accepted::<T>(state, order, width, rejections::<T>(state, order, width)),
{
    let some = choose|index: nat| candidate::<T>(state, order, width, index) < order;
    lemma_first_accepted_exists::<T>(state, order, width, some);
}

/// One of the first `attempts` draws is accepted exactly where rejection
/// sampling ends after fewer than `attempts` rejections.
pub proof fn lemma_accepts_within<T: ByteTranscript>(
    state: T::State,
    order: nat,
    width: nat,
    attempts: nat,
)
    ensures
        accepts_within::<T>(state, order, width, attempts) <==> accepts_eventually::<T>(
            state,
            order,
            width,
        ) && rejections::<T>(state, order, width) < attempts,
{
    if accepts_within::<T>(state, order, width, attempts) {
        lemma_rejections::<T>(state, order, width);
    }
    if accepts_eventually::<T>(state, order, width) {
        lemma_rejections::<T>(state, order, width);
    }
}

proof fn lemma_first_accepted_exists<T: ByteTranscript>(
    state: T::State,
    order: nat,
    width: nat,
    bound: nat,
)
    requires
        candidate::<T>(state, order, width, bound) < order,
    ensures
        exists|index: nat| first_accepted::<T>(state, order, width, index),
    decreases bound,
{
    if first_accepted::<T>(state, order, width, bound) {
    } else {
        let earlier = choose|earlier: nat|
            earlier < bound && candidate::<T>(state, order, width, earlier) < order;
        lemma_first_accepted_exists::<T>(state, order, width, earlier);
    }
}

/// What rejection sampling gives is an element of the field.
pub proof fn lemma_sampled_below_in_field<T: ByteTranscript>(
    state: T::State,
    order: nat,
    width: nat,
)
    requires
        accepts_eventually::<T>(state, order, width),
    ensures
        sampled_below::<T>(state, order, width).0 < order,
{
    lemma_rejections::<T>(state, order, width);
}

/// Every coordinate that is sampled is an element of the field.
pub proof fn lemma_coordinates_in_field<T: ByteTranscript>(
    state: T::State,
    order: nat,
    width: nat,
    count: nat,
    i: int,
)
    requires
        can_sample::<T>(state, order, width, count),
        0 <= i < count,
    ensures
        coordinates_sampled::<T>(state, order, width, count).0[i] < order,
    decreases count,
{
    let fewer = (count - 1) as nat;
    lemma_coordinates_sampled_len::<T>(state, order, width, fewer);
    if i < fewer {
        lemma_coordinates_in_field::<T>(state, order, width, fewer, i);
    } else {
        lemma_sampled_below_in_field::<T>(
            coordinates_sampled::<T>(state, order, width, fewer).1,
            order,
            width,
        );
    }
}

/// Replay: where a verifier starts in the state in which the prover
/// started and observes what the prover observed, it samples what the
/// prover sampled and ends where the prover ended.
pub proof fn lemma_replay<T: ByteTranscript>(
    prover: T::State,
    verifier: T::State,
    observations: Seq<u64>,
    order: nat,
    width: nat,
    count: nat,
    bits: nat,
)
    requires
        prover == verifier,
    ensures
        coordinates_sampled::<T>(
            words_observed::<T>(prover, observations, width),
            order,
            width,
            count,
        ) == coordinates_sampled::<T>(
            words_observed::<T>(verifier, observations, width),
            order,
            width,
            count,
        ),
        bits_sampled::<T>(words_observed::<T>(prover, observations, width), width, bits)
            == bits_sampled::<T>(words_observed::<T>(verifier, observations, width), width, bits),
{
}

/// Absorbs a word as `width` little-endian bytes.
pub fn observe_word<T: ByteTranscript>(transcript: &mut T, value: u64, width: usize)
    ensures
        final(transcript).state() == word_observed::<T>(
            old(transcript).state(),
            value as nat,
            width as nat,
        ),
{
    let bytes = encode_le(value, width);
    observe_slice(transcript, bytes.as_slice());
}

/// Draws a word of `width` bytes.
pub fn draw_word<T: ByteTranscript>(transcript: &mut T, width: usize) -> (word: u64)
    requires
        width <= 8,
    ensures
        (word as nat, final(transcript).state()) == drawn::<T>(
            old(transcript).state(),
            width as nat,
        ),
{
    let bytes = sample_vec(transcript, width);
    decode_le(bytes.as_slice())
}

/// Samples one element of the field of this order by rejection: words are
/// drawn until one, reduced under the mask of the order, lies below the order.
///
/// The caller shows that some draw will be accepted; on a transcript that
/// never yields one the search would not end.
pub fn sample_below<T: ByteTranscript>(transcript: &mut T, order: u64, width: usize) -> (value:
    u64)
    requires
        width <= 8,
        accepts_eventually::<T>(old(transcript).state(), order as nat, width as nat),
    ensures
        (value as nat, final(transcript).state()) == sampled_below::<T>(
            old(transcript).state(),
            order as nat,
            width as nat,
        ),
        value < order,
{
    let mask: u64 = sampling_mask(order);
    let ghost start = transcript.state();
    let ghost limit: nat = choose|index: nat|
        candidate::<T>(start, order as nat, width as nat, index) < order;
    let ghost mut count: nat = 0;
    loop
        invariant
            width <= 8,
            mask == mask_of(order as nat),
            count <= limit,
            start == old(transcript).state(),
            candidate::<T>(start, order as nat, width as nat, limit) < order,
            transcript.state() == after_draws::<T>(start, width as nat, count),
            forall|earlier: nat|
                earlier < count ==> candidate::<T>(start, order as nat, width as nat, earlier)
                    >= order,
        decreases limit - count,
    {
        let word: u64 = draw_word(transcript, width);
        match reduce(word, mask, order) {
            Some(value) => {
                proof {
                    assert(transcript.state() == after_draws::<T>(
                        start,
                        width as nat,
                        count + 1,
                    ));
                    lemma_first_accepted_unique::<T>(
                        start,
                        order as nat,
                        width as nat,
                        count,
                        rejections::<T>(start, order as nat, width as nat),
                    );
                }
                return value;
            },
            None => {
                proof {
                    count = count + 1;
                }
            },
        }
    }
}

/// Samples one element as `sample_below` does, but gives up after `attempts`
/// draws: it returns the element where one of the first `attempts` draws is
/// accepted, and nothing where all of them are rejected, with as many draws
/// used up.
pub fn sample_below_within<T: ByteTranscript>(
    transcript: &mut T,
    order: u64,
    width: usize,
    attempts: usize,
) -> (value: Option<u64>)
    requires
        width <= 8,
    ensures
        value.is_some() == accepts_within::<T>(
            old(transcript).state(),
            order as nat,
            width as nat,
            attempts as nat,
        ),
        value matches Some(found) ==> found < order && (found as nat, final(transcript).state())
            == sampled_below::<T>(old(transcript).state(), order as nat, width as nat),
        value is None ==> final(transcript).state() == after_draws::<T>(
            old(transcript).state(),
            width as nat,
            attempts as nat,
        ),
{
    let mask: u64 = sampling_mask(order);
    let ghost start = transcript.state();
    let mut count: usize = 0;
    while count < attempts
        invariant
            width <= 8,
            mask == mask_of(order as nat),
            count <= attempts,
            start == old(transcript).state(),
            transcript.state() == after_draws::<T>(start, width as nat, count as nat),
            forall|earlier: nat|
                earlier < count ==> candidate::<T>(start, order as nat, width as nat, earlier)
                    >= order,
        decreases attempts - count,
    {
        let word: u64 = draw_word(transcript, width);
        match reduce(word, mask, order) {
            Some(found) => {
                proof {
                    assert(transcript.state() == after_draws::<T>(
                        start,
                        width as nat,
                        (count + 1) as nat,
                    ));
                    lemma_first_accepted_unique::<T>(
                        start,
                        order as nat,
                        width as nat,
                        count as nat,
                        rejections::<T>(start, order as nat, width as nat),
                    );
                }
                return Some(found);
            },
            None => {
                count = count + 1;
            },
        }
    }
    None
}

/// Samples the `bits` low bits of one word.
pub fn sample_low_bits<T: ByteTranscript>(transcript: &mut T, bits: usize, width: usize) -> (low:
    usize)
    requires
        width <= 8,
        bits < usize::BITS,
    ensures
        (low as nat, final(transcript).state()) == bits_sampled::<T>(
            old(transcript).state(),
            width as nat,
            bits as nat,
        ),
        low < pow2(bits as nat),
{
    let word: u64 = draw_word(transcript, width);
    low_bits(word, bits)
}

/// Tests a proof-of-work witness on the transcript itself, which moves on.
pub fn check_word_witness<T: ByteTranscript>(
    transcript: &mut T,
    bits: usize,
    witness: u64,
    width: usize,
) -> (passed: bool)
    requires
        width <= 8,
        bits < usize::BITS,
    ensures
        (passed, final(transcript).state()) == witness_checked::<T>(
            old(transcript).state(),
            width as nat,
            bits as nat,
            witness as nat,
        ),
{
    observe_word(transcript, witness, width);
    sample_low_bits(transcript, bits, width) == 0
}

/// Tests a proof-of-work witness on a clone, so that the transcript stays
/// where it is.
pub fn probe_word_witness<T: ByteTranscript>(
    transcript: &T,
    bits: usize,
    witness: u64,
    width: usize,
) -> (passed: bool)
    requires
        width <= 8,
        bits < usize::BITS,
    ensures
        passed == witness_checked::<T>(
            transcript.state(),
            width as nat,
            bits as nat,
            witness as nat,
        ).0,
{
    let mut fork = transcript.clone();
    proof {
        T::clone_keeps_state(transcript, &fork);
    }
    check_word_witness(&mut fork, bits, witness, width)
}

/// Absorbs the words of a slice, first to last, each as `width` bytes.
pub fn observe_words<T: ByteTranscript>(transcript: &mut T, words: &[u64], width: usize)
    ensures
        final(transcript).state() == words_observed::<T>(
            old(transcript).state(),
            words@,
            width as nat,
        ),
{
    let mut i: usize = 0;
    while i < words.len()
        invariant
            i <= words@.len(),
            transcript.state() == words_observed::<T>(
                old(transcript).state(),
                words@.take(i as int),
                width as nat,
            ),
        decreases words@.len() - i,
    {
        assert(words@.take(i + 1).drop_last() =~= words@.take(i as int));
        observe_word(transcript, words[i], width);
        i = i + 1;
    }
    assert(words@.take(i as int) =~= words@);
}

/// Samples `count` elements of the field of this order, one after the other.
pub fn sample_coordinates<T: ByteTranscript>(
    transcript: &mut T,
    order: u64,
    width: usize,
    count: usize,
) -> (values: Vec<u64>)
    requires
        width <= 8,
        can_sample::<T>(old(transcript).state(), order as nat, width as nat, count as nat),
    ensures
        values@.len() == count,
        forall|i: int| 0 <= i < count ==> values@[i] < order,
        values@.map_values(|value: u64| value as nat) == coordinates_sampled::<T>(
            old(transcript).state(),
            order as nat,
            width as nat,
            count as nat,
        ).0,
        final(transcript).state() == coordinates_sampled::<T>(
            old(transcript).state(),
            order as nat,
            width as nat,
            count as nat,
        ).1,
{
    let mut values: Vec<u64> = Vec::new();
    let mut i: usize = 0;
    while i < count
        invariant
            i <= count,
            width <= 8,
            values@.len() == i,
            can_sample::<T>(old(transcript).state(), order as nat, width as nat, count as nat),
            forall|j: int| 0 <= j < i ==> values@[j] < order,
            values@.map_values(|value: u64| value as nat) == coordinates_sampled::<T>(
                old(transcript).state(),
                order as nat,
                width as nat,
                i as nat,
            ).0,
            transcript.state() == coordinates_sampled::<T>(
                old(transcript).state(),
                order as nat,
                width as nat,
                i as nat,
            ).1,
        decreases count - i,
    {
        proof {
            lemma_can_sample_fewer::<T>(
                old(transcript).state(),
                order as nat,
                width as nat,
                count as nat,
                (i + 1) as nat,
            );
        }
        let ghost before = values@;
        let value = sample_below(transcript, order, width);
        values.push(value);
        assert(values@.map_values(|value: u64| value as nat) =~= before.map_values(
            |value: u64| value as nat,
        ).push(value as nat));
        i = i + 1;
    }
    values
}

} // verus!
