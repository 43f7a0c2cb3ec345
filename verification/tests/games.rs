use randomize::games::{
    after_sundown, dice, rn_bounded_luck, rn_exponential_decay, rn_z, step_ed4,
};
use randomize::{Gen32, PCG32};

/// Replays a fixed list of words, over and over.
#[derive(Clone)]
struct Replay {
    words: Vec<u32>,
    at: usize,
}

impl Gen32 for Replay {
    fn output(&self) -> u32 {
        self.words[self.at % self.words.len()]
    }

    fn successor(&self) -> Self {
        Replay { words: self.words.clone(), at: self.at + 1 }
    }

    fn next_u32(&mut self) -> u32 {
        let w = self.output();
        self.at += 1;
        w
    }
}

/// A word that the sampler for `count` places at `place`.
fn word_at(count: u32, place: u32) -> u32 {
    (((place as u64) << 32) / count as u64) as u32 + 2
}

/// Words that dice with the given faces show as the given rolls.
fn showing(rolls: &[(u32, u32)]) -> Replay {
    Replay { words: rolls.iter().map(|&(faces, roll)| word_at(faces, roll - 1)).collect(), at: 0 }
}

/// Words that the sampler places as given, for the given bounds.
fn placing(places: &[(u32, u32)]) -> Replay {
    Replay { words: places.iter().map(|&(count, place)| word_at(count, place)).collect(), at: 0 }
}

#[test]
fn dice_sums_its_rolls() {
    let mut g = showing(&[(6, 2), (6, 4), (6, 6)]);
    assert_eq!(dice(&mut g, 3, 6), 12);
    assert_eq!(g.at, 3);
    let mut g = showing(&[(4, 1), (4, 3)]);
    assert_eq!(dice(&mut g, -2, 4), -4);
    assert_eq!(g.at, 2);
}

#[test]
fn dice_without_rolls() {
    let mut g = showing(&[(6, 2)]);
    assert_eq!(dice(&mut g, 5, 0), 0);
    assert_eq!(dice(&mut g, 5, -3), 0);
    assert_eq!(dice(&mut g, 5, 1), 5);
    assert_eq!(dice(&mut g, -7, 1), -7);
    assert_eq!(dice(&mut g, 0, 6), 0);
    assert_eq!(g.at, 0);
}

#[test]
fn dice_stay_in_their_range() {
    let mut g = PCG32::seed(8, 8);
    for _ in 0..2000 {
        let pos = dice(&mut g, 3, 6);
        assert!((3..=18).contains(&pos));
        let neg = dice(&mut g, -2, 4);
        assert!((-8..=-2).contains(&neg));
    }
}

#[test]
fn sundown_pool_counts_fives_and_sixes() {
    let mut g = showing(&[(6, 5), (6, 1), (6, 6), (6, 4)]);
    assert_eq!(after_sundown(&mut g, 4), 2);
    assert_eq!(g.at, 4);
    let mut g = showing(&[(6, 6), (6, 6), (6, 2)]);
    assert_eq!(after_sundown(&mut g, -3), -2);
    assert_eq!(g.at, 3);
    assert_eq!(after_sundown(&mut g, 0), 0);
    assert_eq!(g.at, 3);
}

#[test]
fn step_rolls_the_dice_of_its_row() {
    // each exploding roll takes two rolls where nothing explodes: the first
    // is dropped, the second is the result
    let mut g = showing(&[(4, 1), (4, 3)]);
    assert_eq!(step_ed4(&mut g, 3), 3);
    let mut g = showing(&[(6, 1), (6, 5)]);
    assert_eq!(step_ed4(&mut g, 4), 5);
    let mut g = showing(&[(8, 1), (8, 7)]);
    assert_eq!(step_ed4(&mut g, 5), 7);
    let mut g = showing(&[(10, 1), (10, 9)]);
    assert_eq!(step_ed4(&mut g, 6), 9);
    let mut g = showing(&[(12, 1), (12, 11)]);
    assert_eq!(step_ed4(&mut g, 7), 11);
    let mut g = showing(&[(6, 1), (6, 3), (6, 2), (6, 5)]);
    assert_eq!(step_ed4(&mut g, 8), 8);
    let mut g = showing(&[(8, 1), (8, 7), (6, 2), (6, 5)]);
    assert_eq!(step_ed4(&mut g, 9), 12);
    let mut g = showing(&[(8, 1), (8, 7), (8, 2), (8, 1)]);
    assert_eq!(step_ed4(&mut g, 10), 8);
    let mut g = showing(&[(10, 1), (10, 9), (8, 2), (8, 1)]);
    assert_eq!(step_ed4(&mut g, 11), 10);
    let mut g = showing(&[(10, 1), (10, 9), (10, 2), (10, 3)]);
    assert_eq!(step_ed4(&mut g, 12), 12);
    let mut g = showing(&[(12, 1), (12, 7), (10, 1), (10, 9)]);
    assert_eq!(step_ed4(&mut g, 13), 16);
    assert_eq!(g.at, 4);
}

#[test]
fn low_steps_take_off_and_stay_positive() {
    let mut g = showing(&[(4, 1), (4, 2)]);
    assert_eq!(step_ed4(&mut g, 1), 1);
    let mut g = showing(&[(4, 1), (4, 4)]);
    assert_eq!(step_ed4(&mut g, 1), 2);
    let mut g = showing(&[(4, 1), (4, 1)]);
    assert_eq!(step_ed4(&mut g, 2), 1);
    let mut g = showing(&[(4, 1), (4, 4)]);
    assert_eq!(step_ed4(&mut g, 2), 3);
}

#[test]
fn high_steps_roll_twelve_sided_dice_first() {
    let mut g = showing(&[(12, 2), (12, 5), (12, 3), (12, 11)]);
    assert_eq!(step_ed4(&mut g, 14), 16);
    assert_eq!(g.at, 4);
    // 20 is one twelve-sided die and the row 13
    let mut g = showing(&[(12, 2), (12, 5), (12, 1), (12, 7), (10, 1), (10, 9)]);
    assert_eq!(step_ed4(&mut g, 20), 21);
    assert_eq!(g.at, 6);
    // 21 is two twelve-sided dice and the row 7
    let mut g = showing(&[(12, 2), (12, 5), (12, 1), (12, 7), (12, 1), (12, 9)]);
    assert_eq!(step_ed4(&mut g, 21), 21);
    assert_eq!(g.at, 6);
}

#[test]
fn step_zero_and_negative_steps() {
    let mut g = showing(&[(4, 1), (4, 3)]);
    assert_eq!(step_ed4(&mut g, 0), 0);
    assert_eq!(g.at, 0);
    assert_eq!(step_ed4(&mut g, -3), -3);
    assert_eq!(g.at, 2);
    let mut g = showing(&[(12, 2), (12, 5), (12, 3), (12, 11)]);
    assert_eq!(step_ed4(&mut g, -14), -16);
}

#[test]
fn decay_counts_the_zeros_before_another_value() {
    let mut g = placing(&[(4, 0), (4, 0), (4, 3), (4, 1)]);
    assert_eq!(rn_exponential_decay(&mut g, 4), 3);
    assert_eq!(g.at, 3);
    assert_eq!(rn_exponential_decay(&mut g, 4), 1);
    assert_eq!(g.at, 4);
}

#[test]
fn luck_moves_the_value_and_keeps_it_in_range() {
    // no luck: the value as it is sampled, and no second draw
    let mut g = placing(&[(10, 7)]);
    assert_eq!(rn_bounded_luck(&mut g, 10, 0), 7);
    assert_eq!(g.at, 1);
    // luck 1 is too little to count below 16
    let mut g = placing(&[(10, 7)]);
    assert_eq!(rn_bounded_luck(&mut g, 10, 1), 7);
    assert_eq!(g.at, 1);
    // luck 5 is an adjustment of 2, applied unless the second draw is 0
    let mut g = placing(&[(10, 7), (39, 1)]);
    assert_eq!(rn_bounded_luck(&mut g, 10, 5), 5);
    assert_eq!(g.at, 2);
    let mut g = placing(&[(10, 7), (39, 0)]);
    assert_eq!(rn_bounded_luck(&mut g, 10, 5), 7);
    // bad luck pushes up, as far as the range goes
    let mut g = placing(&[(10, 9), (39, 20)]);
    assert_eq!(rn_bounded_luck(&mut g, 10, -5), 9);
    let mut g = placing(&[(10, 3), (39, 20)]);
    assert_eq!(rn_bounded_luck(&mut g, 10, -5), 5);
    // above 15 the luck counts in full
    let mut g = placing(&[(20, 5), (67, 66)]);
    assert_eq!(rn_bounded_luck(&mut g, 20, 30), 0);
    let mut g = placing(&[(20, 15), (40, 1)]);
    assert_eq!(rn_bounded_luck(&mut g, 20, 3), 12);
}

#[test]
fn z_scales_up_or_down() {
    // factor (1000 + 500) * 2; the coin says up
    let mut g = placing(&[(1000, 500), (4, 0), (4, 2)]);
    g.words.push(0x8000_0000);
    assert_eq!(rn_z(&mut g, -7), -21);
    assert_eq!(g.at, 4);
    // the coin says down: 10 * 1000 / 3000, towards zero for either sign
    let mut g = placing(&[(1000, 500), (4, 0), (4, 2)]);
    g.words.push(0x7FFF_FFFF);
    assert_eq!(rn_z(&mut g, 10), 3);
    let mut g = placing(&[(1000, 500), (4, 0), (4, 2)]);
    g.words.push(0x7FFF_FFFF);
    assert_eq!(rn_z(&mut g, -10), -3);
    // the count is capped at 5
    let mut g = placing(&[(1000, 0), (4, 0), (4, 0), (4, 0), (4, 0), (4, 0), (4, 0), (4, 1)]);
    g.words.push(0x8000_0000);
    assert_eq!(rn_z(&mut g, 3), 15);
    // a result too large for 32 bits wraps
    let mut g = placing(&[(1000, 0), (4, 0), (4, 1)]);
    g.words.push(0x8000_0000);
    assert_eq!(rn_z(&mut g, i32::MAX), -2);
}
