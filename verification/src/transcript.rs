//! The byte transcript that the challengers are built on, and its model.

use vstd::prelude::*;

verus! {

/// A transcript over bytes: it absorbs bytes and squeezes bytes, and what it
/// squeezes is decided by everything that happened to it before.
///
/// The model is a state machine. `state` is where a transcript stands,
/// `observed` and `sampled` are its two transitions. An implementation
/// promises that its methods follow the transitions, and that a clone stands
/// where the transcript stands that it was cloned from.
///
/// These promises are taken on trust: what is proved of the challengers holds
/// over the implementations that keep them.
pub trait ByteTranscript: Sized + Clone {
    /// Where a transcript can stand.
    type State;

    /// Where this transcript stands.
    spec fn state(&self) -> Self::State;

    /// The state after a byte was absorbed.
    spec fn observed(state: Self::State, byte: u8) -> Self::State;

    /// The byte that is squeezed in a state, and the state after that.
    spec fn sampled(state: Self::State) -> (u8, Self::State);

    /// A clone stands where the transcript stands that it was cloned from.
    proof fn clone_keeps_state(transcript: &Self, copy: &Self)
        requires
            cloned(*transcript, *copy),
        ensures
            copy.state() == transcript.state(),
    ;

    /// Absorbs one byte.
    fn observe(&mut self, byte: u8)
        ensures
            final(self).state() == Self::observed(old(self).state(), byte),
    ;

    /// Squeezes one byte.
    fn sample(&mut self) -> (byte: u8)
        ensures
            (byte, final(self).state()) == Self::sampled(old(self).state()),
    ;
}

/// The state after the bytes were absorbed one by one, first to last.
pub open spec fn observe_all<T: ByteTranscript>(state: T::State, bytes: Seq<u8>) -> T::State
    decreases bytes.len(),
{
    if bytes.len() == 0 {
        state
    } else {
        T::observed(observe_all::<T>(state, bytes.drop_last()), bytes.last())
    }
}

/// The `count` bytes squeezed one after the other, and the state after the last.
pub open spec fn sample_all<T: ByteTranscript>(state: T::State, count: nat) -> (Seq<u8>, T::State)
    decreases count,
{
    if count == 0 {
        (Seq::empty(), state)
    } else {
        let (bytes, middle) = sample_all::<T>(state, (count - 1) as nat);
        let (byte, next) = T::sampled(middle);
        (bytes.push(byte), next)
    }
}

/// Absorbing one string and then another is absorbing the two joined.
pub proof fn lemma_observe_all_concat<T: ByteTranscript>(
    state: T::State,
    first: Seq<u8>,
    second: Seq<u8>,
)
    ensures
        observe_all::<T>(observe_all::<T>(state, first), second) == observe_all::<T>(
            state,
            first + second,
        ),
    decreases second.len(),
{
    if second.len() > 0 {
        lemma_observe_all_concat::<T>(state, first, second.drop_last());
        assert((first + second).drop_last() =~= first + second.drop_last());
    }
}

/// Absorbs the bytes of a slice, first to last.
pub fn observe_slice<T: ByteTranscript>(transcript: &mut T, bytes: &[u8])
    ensures
        final(transcript).state() == observe_all::<T>(old(transcript).state(), bytes@),
{
    let mut i: usize = 0;
    while i < bytes.len()
        invariant
            i <= bytes@.len(),
            transcript.state() == observe_all::<T>(old(transcript).state(), bytes@.take(i as int)),
        decreases bytes@.len() - i,
    {
        assert(bytes@.take(i + 1).drop_last() =~= bytes@.take(i as int));
        transcript.observe(bytes[i]);
        i = i + 1;
    }
    assert(bytes@.take(i as int) =~= bytes@);
}

/// Squeezes `count` bytes, in the order in which they come.
pub fn sample_vec<T: ByteTranscript>(transcript: &mut T, count: usize) -> (bytes: Vec<u8>)
    ensures
        (bytes@, final(transcript).state()) == sample_all::<T>(
            old(transcript).state(),
            count as nat,
        ),
        bytes@.len() == count,
{
    let mut bytes: Vec<u8> = Vec::new();
    let mut i: usize = 0;
    while i < count
        invariant
            i <= count,
            bytes@.len() == i,
            (bytes@, transcript.state()) == sample_all::<T>(old(transcript).state(), i as nat),
        decreases count - i,
    {
        let byte = transcript.sample();
        bytes.push(byte);
        i = i + 1;
    }
    bytes
}

} // verus!
