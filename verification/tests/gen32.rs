use randomize::gen32::{next_bool, next_bounded, next_i32, next_u16, next_u64, next_u8};
use randomize::{BoundedRandU32, Gen32, PCG32};

/// Replays a fixed list of words, over and over.
#[derive(Clone)]
struct Replay {
    words: Vec<u32>,
    at: usize,
}

impl Gen32 for Replay {
    fn output(&self) -> u32 {
        self.words[self.at % self.words.len()]
    }

    fn successor(&self) -> Self {
        Replay { words: self.words.clone(), at: self.at + 1 }
    }

    fn next_u32(&mut self) -> u32 {
        let w = self.output();
        self.at += 1;
        w
    }
}

#[test]
fn replay_source_yields_its_words() {
    let mut r = Replay { words: vec![7, 8, 9], at: 0 };
    assert_eq!(r.next_u32(), 7);
    assert_eq!(r.next_u32(), 8);
    assert_eq!(r.next_u32(), 9);
    assert_eq!(r.next_u32(), 7);
}

#[test]
fn simple_values_are_cut_from_the_word() {
    let mut g = Replay { words: vec![0x1234_5678, 0x8000_0000, 0x7FFF_FFFF, 0xFFFF_FFFF], at: 0 };
    assert_eq!(next_u8(&mut g), 0x12);
    assert_eq!(next_u8(&mut g), 0x80);
    assert_eq!(next_u16(&mut g), 0x7FFF);
    assert_eq!(next_u16(&mut g), 0xFFFF);
    assert_eq!(next_i32(&mut g), 0x1234_5678);
    assert_eq!(next_i32(&mut g), i32::MIN);
    assert_eq!(next_i32(&mut g), i32::MAX);
    assert_eq!(next_i32(&mut g), -1);
    assert!(!next_bool(&mut g));
    assert!(next_bool(&mut g));
    assert!(!next_bool(&mut g));
    assert!(next_bool(&mut g));
    assert_eq!(g.at, 12);
}

#[test]
fn wide_value_takes_the_low_half_first() {
    let mut g = Replay { words: vec![0x1111_2222, 0x3333_4444, 5, 6], at: 0 };
    assert_eq!(next_u64(&mut g), 0x3333_4444_1111_2222);
    assert_eq!(next_u64(&mut g), 0x0000_0006_0000_0005);
    assert_eq!(g.at, 4);
}

#[test]
fn next_bounded_places_as_the_sampler_does() {
    let mut g = Replay {
        words: vec![0, 1, 0x2AAA_AAAB, 0x2AAA_AAAC, 0x8000_0000, 0x8000_0001, 0xFFFF_FFFF, 0x5555_5556],
        at: 0,
    };
    assert_eq!(next_bounded(&mut g, 6), 0);
    assert_eq!(g.at, 2);
    assert_eq!(next_bounded(&mut g, 6), 1);
    assert_eq!(next_bounded(&mut g, 6), 3);
    assert_eq!(next_bounded(&mut g, 6), 5);
    assert_eq!(next_bounded(&mut g, 6), 2);
    assert_eq!(g.at, 8);
    let mut a = PCG32::seed(12, 21);
    let mut b = a.clone();
    for bound in 1..400u32 {
        assert_eq!(next_bounded(&mut a, bound), BoundedRandU32::new(bound).sample(&mut b));
        assert_eq!(a.state, b.state);
    }
}
