use randomize::{
    ieee754_random_f32_bits, ieee754_random_f64_bits, next_binary_exp_distr32, Gen32, PCG32,
};

/// Replays a fixed list of words, over and over.
#[derive(Clone)]
struct Replay {
    words: Vec<u32>,
    at: usize,
}

impl Replay {
    fn of(words: &[u32]) -> Self {
        Replay { words: words.to_vec(), at: 0 }
    }
}

impl Gen32 for Replay {
    fn output(&self) -> u32 {
        self.words[self.at % self.words.len()]
    }

    fn successor(&self) -> Self {
        Replay { words: self.words.clone(), at: self.at + 1 }
    }

    fn next_u32(&mut self) -> u32 {
        let w = self.output();
        self.at += 1;
        w
    }
}

#[test]
fn binary_exp_counts_trailing_zeros() {
    let mut g = Replay::of(&[1, 2, 8, 0x8000_0000, 0xFFFF_FFFF, 0x0101_0000]);
    assert_eq!(next_binary_exp_distr32(&mut g), 0);
    assert_eq!(next_binary_exp_distr32(&mut g), 1);
    assert_eq!(next_binary_exp_distr32(&mut g), 3);
    assert_eq!(next_binary_exp_distr32(&mut g), 31);
    assert_eq!(next_binary_exp_distr32(&mut g), 0);
    assert_eq!(next_binary_exp_distr32(&mut g), 16);
    assert_eq!(g.at, 6);
}

#[test]
fn binary_exp_counts_32_for_each_zero_word() {
    let mut g = Replay::of(&[0, 0, 8, 0, 1]);
    assert_eq!(next_binary_exp_distr32(&mut g), 67);
    assert_eq!(g.at, 3);
    assert_eq!(next_binary_exp_distr32(&mut g), 32);
    assert_eq!(g.at, 5);
}

#[test]
fn single_bits_of_chosen_words() {
    // all bits set: mantissa full, lowest rest bit set, exponent -1
    let mut g = Replay::of(&[0xFFFF_FFFF]);
    assert_eq!(ieee754_random_f32_bits(&mut g, false), 0x3F7F_FFFF);
    assert_eq!(g.at, 1);
    // mantissa zero, coin set, lowest rest bit set: exponent 0, the number 1.0
    let mut g = Replay::of(&[0x0000_0003]);
    let bits = ieee754_random_f32_bits(&mut g, false);
    assert_eq!(bits, 0x3F80_0000);
    assert_eq!(f32::from_bits(bits), 1.0);
    // mantissa zero, coin set, rest bits clear: 8 and the draw of 2 are taken off
    let mut g = Replay::of(&[0x0000_0001, 0x0000_0004]);
    let bits = ieee754_random_f32_bits(&mut g, false);
    assert_eq!(bits, 0x3A80_0000);
    assert_eq!(f32::from_bits(bits), 0.0009765625);
    assert_eq!(g.at, 2);
    // mantissa one, coin clear, third rest bit set: exponent -3
    let mut g = Replay::of(&[0x0000_0208]);
    let bits = ieee754_random_f32_bits(&mut g, false);
    assert_eq!(bits, (124 << 23) | 1);
}

#[test]
fn single_bits_with_a_sign() {
    // lowest bit is the sign; coin clear; rest clear: 7 and a draw of 0 are taken off
    let mut g = Replay::of(&[0x0000_0001, 0x0000_0001]);
    let bits = ieee754_random_f32_bits(&mut g, true);
    assert_eq!(bits, 0xBB80_0000);
    assert_eq!(f32::from_bits(bits), -0.00390625);
    // no sign; coin (second bit) set with a zero mantissa; rest bit 0 set: exponent 0
    let mut g = Replay::of(&[0x0000_0006]);
    let bits = ieee754_random_f32_bits(&mut g, true);
    assert_eq!(f32::from_bits(bits), 1.0);
    // the same with the sign
    let mut g = Replay::of(&[0x0000_0007]);
    let bits = ieee754_random_f32_bits(&mut g, true);
    assert_eq!(f32::from_bits(bits), -1.0);
    let mut g = Replay::of(&[0xFFFF_FFFE]);
    assert_eq!(ieee754_random_f32_bits(&mut g, true), 0x3F7F_FFFF);
}

#[test]
fn single_exponent_is_drawn_anew_when_out_of_range() {
    // mantissa 1, no coin, rest clear; then three zero words and 23 trailing
    // zeros make the draw 119, the exponent -128: thrown away. The draw of 4
    // that follows gives the exponent -5.
    let mut g = Replay::of(&[0x0000_0200, 0, 0, 0, 0x0080_0000, 0x0000_0010]);
    let bits = ieee754_random_f32_bits(&mut g, false);
    assert_eq!(bits, (122 << 23) | 1);
    assert_eq!(g.at, 6);
    // with the draw 118 the exponent is -127, the lowest that is kept
    let mut g = Replay::of(&[0x0000_0200, 0, 0, 0, 0x0040_0000, 0x0000_0010]);
    let bits = ieee754_random_f32_bits(&mut g, false);
    assert_eq!(bits, 1);
    assert_eq!(g.at, 5);
}

#[test]
fn double_bits_of_chosen_words() {
    let mut g = Replay::of(&[0xFFFF_FFFF, 0xFFFF_FFFF]);
    assert_eq!(ieee754_random_f64_bits(&mut g, false), 0x3FEF_FFFF_FFFF_FFFF);
    assert_eq!(g.at, 2);
    // the first word is the high half: a mantissa of 2^51, exponent -1 from the second
    let mut g = Replay::of(&[0x8000_0000, 0x0000_0002]);
    let bits = ieee754_random_f64_bits(&mut g, false);
    assert_eq!(bits, (1022u64 << 52) | (1 << 51));
    assert_eq!(f64::from_bits(bits), 0.75);
    // mantissa zero, coin and lowest rest bit set: 1.0
    let mut g = Replay::of(&[0, 3]);
    assert_eq!(f64::from_bits(ieee754_random_f64_bits(&mut g, false)), 1.0);
    // signed: sign bit from the lowest bit, coin the second
    let mut g = Replay::of(&[0, 7]);
    assert_eq!(f64::from_bits(ieee754_random_f64_bits(&mut g, true)), -1.0);
    // rest clear: 11 and a draw of 1 are taken off the exponent 0
    let mut g = Replay::of(&[0, 1, 2]);
    let bits = ieee754_random_f64_bits(&mut g, false);
    assert_eq!(f64::from_bits(bits), 1.0 / 4096.0);
    assert_eq!(g.at, 3);
}

#[test]
fn unit_numbers_stay_in_their_range() {
    let mut g = PCG32::seed(2024, 11);
    for _ in 0..20_000 {
        let x = f32::from_bits(ieee754_random_f32_bits(&mut g, false));
        assert!((0.0..=1.0).contains(&x));
        let x = f32::from_bits(ieee754_random_f32_bits(&mut g, true));
        assert!((-1.0..=1.0).contains(&x));
        let x = f64::from_bits(ieee754_random_f64_bits(&mut g, false));
        assert!((0.0..=1.0).contains(&x));
        let x = f64::from_bits(ieee754_random_f64_bits(&mut g, true));
        assert!((-1.0..=1.0).contains(&x));
    }
}

#[test]
fn each_lower_exponent_is_half_as_likely() {
    let mut g = PCG32::seed(7, 7);
    let trials = 200_000;
    let mut by_exponent = [0u32; 8];
    for _ in 0..trials {
        let bits = ieee754_random_f32_bits(&mut g, false);
        let exponent = (bits >> 23) & 0xFF;
        if (119..=126).contains(&exponent) {
            by_exponent[(126 - exponent) as usize] += 1;
        }
    }
    let mut expected = trials as f64 / 2.0;
    for &seen in &by_exponent {
        let tolerance = 6.0 * expected.sqrt();
        assert!((seen as f64 - expected).abs() < tolerance);
        expected /= 2.0;
    }
}
