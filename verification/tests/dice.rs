use randomize::{ExplodingDie, Gen32, StandardDie, PCG32};

/// Replays a fixed list of words, over and over.
#[derive(Clone)]
struct Replay {
    words: Vec<u32>,
    at: usize,
}

impl Gen32 for Replay {
    fn output(&self) -> u32 {
        self.words[self.at % self.words.len()]
    }

    fn successor(&self) -> Self {
        Replay { words: self.words.clone(), at: self.at + 1 }
    }

    fn next_u32(&mut self) -> u32 {
        let w = self.output();
        self.at += 1;
        w
    }
}

/// A word that a die with `faces` faces shows as `roll`.
fn word_for(faces: u32, roll: u32) -> u32 {
    ((((roll - 1) as u64) << 32) / faces as u64) as u32 + 2
}

fn showing(rolls: &[(u32, u32)]) -> Replay {
    Replay { words: rolls.iter().map(|&(faces, roll)| word_for(faces, roll)).collect(), at: 0 }
}

#[test]
fn sides_are_kept() {
    assert_eq!(StandardDie::new(6).sides(), 6);
    assert_eq!(StandardDie::new(1).sides(), 1);
    assert_eq!(StandardDie::new(0x7FFF_FFFF).sides(), i32::MAX);
    assert_eq!(StandardDie::new(0x8000_0000).sides(), i32::MIN);
    assert_eq!(StandardDie::new(u32::MAX).sides(), -1);
    assert_eq!(ExplodingDie::new(12).sides(), 12);
    assert_eq!(ExplodingDie::new(u32::MAX).sides(), -1);
}

#[test]
fn standard_die_shows_one_more_than_the_place() {
    let d6 = StandardDie::new(6);
    let mut g = showing(&[(6, 1), (6, 2), (6, 3), (6, 4), (6, 5), (6, 6)]);
    for expected in 1..=6 {
        assert_eq!(d6.sample(&mut g), expected);
    }
    let mut g = Replay { words: vec![0, 0, 0xFFFF_FFFF], at: 0 };
    assert_eq!(d6.sample(&mut g), 6);
    assert_eq!(g.at, 3);
    let mut g = PCG32::seed(5, 5);
    let d20 = StandardDie::new(20);
    for _ in 0..5000 {
        assert!((1..=20).contains(&d20.sample(&mut g)));
    }
}

#[test]
fn exploding_die_without_an_explosion_shows_its_second_roll() {
    // the roll that ends the run is dropped, the next one is the result
    let x6 = ExplodingDie::new(6);
    let mut g = showing(&[(6, 3), (6, 5)]);
    assert_eq!(x6.sample(&mut g), 5);
    assert_eq!(g.at, 2);
    // a highest face as the last roll is taken as it is
    let mut g = showing(&[(6, 1), (6, 6)]);
    assert_eq!(x6.sample(&mut g), 6);
}

#[test]
fn exploding_die_adds_one_more_than_its_faces_for_each_explosion() {
    let x6 = ExplodingDie::new(6);
    let mut g = showing(&[(6, 6), (6, 6), (6, 2), (6, 4)]);
    assert_eq!(x6.sample(&mut g), 7 + 7 + 4);
    assert_eq!(g.at, 4);
    let x4 = ExplodingDie::new(4);
    let mut g = showing(&[(4, 4), (4, 1), (4, 1)]);
    assert_eq!(x4.sample(&mut g), 5 + 1);
}
