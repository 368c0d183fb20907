use field_challenger::grinding::{grind_word, try_grind_word};
use field_challenger::transcript::{observe_slice, sample_vec};
use field_challenger::word::{
    check_word_witness, draw_word, observe_word, observe_words, probe_word_witness, sample_below,
    sample_below_within, sample_coordinates, sample_low_bits,
};
use field_challenger::ByteTranscript;

/// A transcript that keeps what it observed and squeezes a script, starting
/// over at its end. Its state model is never run, so it is left empty.
#[derive(Clone, Debug, PartialEq)]
struct Recorder {
    seen: Vec<u8>,
    script: Vec<u8>,
    next: usize,
}

impl Recorder {
    fn new(script: &[u8]) -> Self {
        Recorder { seen: Vec::new(), script: script.to_vec(), next: 0 }
    }
}

impl ByteTranscript for Recorder {
    type State = ();

    fn state(&self) {}

    fn observed(_state: (), _byte: u8) {}

    fn sampled(_state: ()) -> (u8, ()) {
        (0, ())
    }

    fn clone_keeps_state(_transcript: &Self, _copy: &Self) {}

    fn observe(&mut self, byte: u8) {
        self.seen.push(byte);
    }

    fn sample(&mut self) -> u8 {
        let byte = self.script[self.next % self.script.len()];
        self.next += 1;
        byte
    }
}

/// A transcript whose bytes depend on what it observed.
#[derive(Clone, Debug, PartialEq)]
struct Chain {
    link: u8,
}

impl ByteTranscript for Chain {
    type State = ();

    fn state(&self) {}

    fn observed(_state: (), _byte: u8) {}

    fn sampled(_state: ()) -> (u8, ()) {
        (0, ())
    }

    fn clone_keeps_state(_transcript: &Self, _copy: &Self) {}

    fn observe(&mut self, byte: u8) {
        self.link = self.link.wrapping_mul(31).wrapping_add(byte).wrapping_add(7);
    }

    fn sample(&mut self) -> u8 {
        self.link = self.link.wrapping_mul(17).wrapping_add(1);
        self.link
    }
}

/// What the test of a witness must give, worked out on the chain by hand.
fn passes_by_hand(start: &Chain, bits: u32, witness: u64, width: usize) -> bool {
    let mut chain = start.clone();
    for byte in witness.to_le_bytes().into_iter().take(width) {
        chain.observe(byte);
    }
    let mut draw = [0u8; 8];
    for byte in draw.iter_mut().take(width) {
        *byte = chain.sample();
    }
    u64::from_le_bytes(draw) & ((1 << bits) - 1) == 0
}

#[test]
fn observe_slice_hands_over_the_bytes_in_order() {
    let mut recorder = Recorder::new(&[0]);
    observe_slice(&mut recorder, &[3, 1, 2]);
    observe_slice(&mut recorder, &[]);
    observe_slice(&mut recorder, &[9]);
    assert_eq!(recorder.seen, vec![3, 1, 2, 9]);
    assert_eq!(recorder.next, 0);
}

#[test]
fn sample_vec_takes_the_bytes_in_order() {
    let mut recorder = Recorder::new(&[1, 2, 3, 4, 5, 6]);
    assert_eq!(sample_vec(&mut recorder, 4), vec![1, 2, 3, 4]);
    assert_eq!(sample_vec(&mut recorder, 0), Vec::<u8>::new());
    assert_eq!(sample_vec(&mut recorder, 3), vec![5, 6, 1]);
    assert_eq!(recorder.next, 7);
    assert!(recorder.seen.is_empty());
}

#[test]
fn observe_word_writes_the_width_in_bytes() {
    let mut recorder = Recorder::new(&[0]);
    observe_word(&mut recorder, 0x0102_0304, 4);
    assert_eq!(recorder.seen, vec![4, 3, 2, 1]);

    let mut recorder = Recorder::new(&[0]);
    observe_word(&mut recorder, 0x0102_0304, 8);
    assert_eq!(recorder.seen, vec![4, 3, 2, 1, 0, 0, 0, 0]);

    let mut recorder = Recorder::new(&[0]);
    observe_word(&mut recorder, 12, 4);
    observe_word(&mut recorder, 0xffff_ffff_0000_0000, 8);
    assert_eq!(recorder.seen, vec![12, 0, 0, 0, 0, 0, 0, 0, 0xff, 0xff, 0xff, 0xff]);
}

#[test]
fn observe_words_writes_word_after_word() {
    let mut recorder = Recorder::new(&[0]);
    observe_words(&mut recorder, &[0x0201, 0x0403, 5], 8);
    assert_eq!(
        recorder.seen,
        vec![1, 2, 0, 0, 0, 0, 0, 0, 3, 4, 0, 0, 0, 0, 0, 0, 5, 0, 0, 0, 0, 0, 0, 0]
    );
    observe_words(&mut recorder, &[], 8);
    assert_eq!(recorder.seen.len(), 24);
}

#[test]
fn draw_word_reads_the_width_in_bytes() {
    let mut recorder = Recorder::new(&[1, 2, 3, 4, 5, 6, 7, 8, 9, 10, 11, 12]);
    assert_eq!(draw_word(&mut recorder, 4), 0x0403_0201);
    assert_eq!(draw_word(&mut recorder, 8), 0x0c0b_0a09_0807_0605);
    assert_eq!(draw_word(&mut recorder, 1), 1);
    assert_eq!(draw_word(&mut recorder, 0), 0);
    assert_eq!(draw_word(&mut recorder, 3), 0x04_0302);
    assert_eq!(recorder.next, 16);
}

#[test]
fn sample_below_uses_up_the_rejected_draws_and_no_more() {
    let mut recorder = Recorder::new(&[15, 2, 9, 0, 9, 0, 0, 0, 1, 0, 0, 0]);
    assert_eq!(sample_below(&mut recorder, 13, 4), 9);
    assert_eq!(recorder.next, 8);
    assert!(recorder.seen.is_empty());

    let mut recorder = Recorder::new(&[13, 14, 15, 0x2f, 0x3c, 0x40]);
    assert_eq!(sample_below(&mut recorder, 13, 1), 12);
    assert_eq!(recorder.next, 5);
}

#[test]
fn sample_below_over_a_power_of_two_rejects_only_the_top() {
    // The order 16 has the mask 15, so nothing is rejected.
    let mut recorder = Recorder::new(&[0xff, 0x10, 0x07]);
    assert_eq!(sample_below(&mut recorder, 16, 1), 15);
    assert_eq!(sample_below(&mut recorder, 16, 1), 0);
    // The order 17 has the mask 31: of 17..=31 nothing is accepted.
    let mut recorder = Recorder::new(&[0xff, 0x11, 0x30]);
    assert_eq!(sample_below(&mut recorder, 17, 1), 16);
    assert_eq!(recorder.next, 3);
}

#[test]
fn sample_below_within_counts_its_draws() {
    let script = [15, 0, 0, 0, 14, 0, 0, 0, 13, 0, 0, 0, 12, 0, 0, 0];
    let mut recorder = Recorder::new(&script);
    assert_eq!(sample_below_within(&mut recorder, 13, 4, 3), None);
    assert_eq!(recorder.next, 12);

    let mut recorder = Recorder::new(&script);
    assert_eq!(sample_below_within(&mut recorder, 13, 4, 4), Some(12));
    assert_eq!(recorder.next, 16);

    let mut recorder = Recorder::new(&script);
    assert_eq!(sample_below_within(&mut recorder, 13, 4, 0), None);
    assert_eq!(recorder.next, 0);

    // One that accepts at once leaves the other attempts unused.
    let mut recorder = Recorder::new(&[7, 0, 0, 0]);
    assert_eq!(sample_below_within(&mut recorder, 13, 4, usize::MAX), Some(7));
    assert_eq!(recorder.next, 4);
}

#[test]
fn sample_coordinates_gives_one_element_after_the_other() {
    let mut recorder = Recorder::new(&[1, 0xee, 2, 0xff, 0x1d, 3]);
    assert_eq!(sample_coordinates(&mut recorder, 13, 1, 3), vec![1, 2, 3]);
    assert_eq!(recorder.next, 6);
    assert_eq!(sample_coordinates(&mut recorder, 13, 1, 0), Vec::<u64>::new());
    assert_eq!(recorder.next, 6);
}

#[test]
fn sample_low_bits_draws_one_word() {
    let mut recorder = Recorder::new(&[0xb6, 0xff, 0, 0, 0x01, 0x02, 0x03, 0x04]);
    assert_eq!(sample_low_bits(&mut recorder, 3, 4), 6);
    assert_eq!(recorder.next, 4);
    assert_eq!(sample_low_bits(&mut recorder, 20, 4), 0x3_0201);
    assert_eq!(recorder.next, 8);
    assert_eq!(sample_low_bits(&mut recorder, 0, 8), 0);
    assert_eq!(recorder.next, 16);
}

#[test]
fn check_word_witness_observes_and_then_samples() {
    let mut recorder = Recorder::new(&[0xf8, 0, 0, 0, 0xf4, 0, 0, 0]);
    assert!(check_word_witness(&mut recorder, 3, 0x0a0b, 4));
    assert_eq!(recorder.seen, vec![0x0b, 0x0a, 0, 0]);
    assert_eq!(recorder.next, 4);
    assert!(!check_word_witness(&mut recorder, 3, 1, 4));
    assert_eq!(recorder.seen, vec![0x0b, 0x0a, 0, 0, 1, 0, 0, 0]);
    assert_eq!(recorder.next, 8);
}

#[test]
fn probe_word_witness_leaves_the_transcript_alone() {
    let recorder = Recorder::new(&[0xf8, 0, 0, 0, 0xf4, 0, 0, 0]);
    let before = recorder.clone();
    assert!(probe_word_witness(&recorder, 3, 5, 4));
    assert!(probe_word_witness(&recorder, 3, 5, 4));
    assert!(!probe_word_witness(&recorder, 4, 5, 4));
    assert_eq!(recorder, before);

    let chain = Chain { link: 3 };
    for witness in 0..300 {
        for bits in 0..6 {
            assert_eq!(
                probe_word_witness(&chain, bits, witness, 4),
                passes_by_hand(&chain, bits as u32, witness, 4)
            );
        }
    }
    assert_eq!(chain, Chain { link: 3 });
}

#[test]
fn try_grind_word_finds_a_witness_exactly_where_there_is_one() {
    for link in 0..40 {
        for bits in 0..8 {
            for width in [4, 8] {
                let start = Chain { link };
                let passing: Vec<u64> = (0..97)
                    .filter(|&witness| passes_by_hand(&start, bits, witness, width))
                    .collect();
                let mut chain = start.clone();
                match try_grind_word(&mut chain, 97, bits as usize, width) {
                    Some(witness) => {
                        assert!(passing.contains(&witness));
                        // The transcript went through the test of that witness.
                        let mut expected = start.clone();
                        assert!(check_word_witness(&mut expected, bits as usize, witness, width));
                        assert_eq!(chain, expected);
                    }
                    None => {
                        assert!(passing.is_empty());
                        assert_eq!(chain, start);
                    }
                }
            }
        }
    }
}

#[test]
fn grind_word_returns_a_witness_below_the_order() {
    let start = Chain { link: 11 };
    let mut chain = start.clone();
    let witness = grind_word(&mut chain, 251, 4, 4);
    assert!(witness < 251);
    assert!(passes_by_hand(&start, 4, witness, 4));
    assert!(probe_word_witness(&start, 4, witness, 4));
}

#[test]
fn grind_word_with_no_bits_takes_any_candidate() {
    for link in 0..=255 {
        let start = Chain { link };
        let mut chain = start.clone();
        let witness = grind_word(&mut chain, 13, 0, 4);
        assert!(witness < 13);
        let mut expected = start.clone();
        assert!(check_word_witness(&mut expected, 0, witness, 4));
        assert_eq!(chain, expected);
    }
}
