use randomize::formulas::{lcg64_step, xsh_rr_u64_to_u32, PCG_MUL_64};
use randomize::{Gen32, Pcg32, PCG32, PCG32K};

#[test]
fn test_ext_add() {
    let mut x = PCG32K::<2> { state: 0, ext: [u32::MAX, 0] };
    x.ext_add(1);
    assert_eq!(x.ext[0], 0);
    assert_eq!(x.ext[1], 1);
    //
    let mut x = PCG32K::<3> { state: 0, ext: [u32::MAX, u32::MAX, 0] };
    x.ext_add(1);
    assert_eq!(x.ext[0], 0);
    assert_eq!(x.ext[1], 0);
    assert_eq!(x.ext[2], 1);
}

#[test]
fn ext_add_drops_the_carry_off_the_top() {
    let mut x = PCG32K::<2> { state: 9, ext: [u32::MAX, u32::MAX] };
    x.ext_add(1);
    assert_eq!(x.ext, [0, 0]);
    assert_eq!(x.state, 9);
    let mut x = PCG32K::<1> { state: 0, ext: [u32::MAX - 1] };
    x.ext_add(5);
    assert_eq!(x.ext, [3]);
    let mut x = PCG32K::<0> { state: 0, ext: [] };
    x.ext_add(5);
    assert_eq!(x.ext, []);
}

#[test]
fn ext_add_adds_to_the_number_that_the_words_spell() {
    let mut x = PCG32K::<3> { state: 0, ext: [0xFFFF_FFF0, 7, 1] };
    x.ext_add(0x20);
    assert_eq!(x.ext, [0x10, 8, 1]);
    let mut x = PCG32K::<3> { state: 0, ext: [5, u32::MAX, 1] };
    x.ext_add(u32::MAX);
    assert_eq!(x.ext, [4, 0, 2]);
    let mut x = PCG32K::<3> { state: 0, ext: [5, 6, 7] };
    x.ext_add(0);
    assert_eq!(x.ext, [5, 6, 7]);
}

#[test]
fn pcg32_seed_has_its_exact_value() {
    let g = PCG32::seed(0, 0);
    assert_eq!(g.inc, 1);
    assert_eq!(g.state, PCG_MUL_64.wrapping_add(1));
    let g = PCG32::seed(42, 54);
    assert_eq!(g.inc, 109);
    assert_eq!(g.state, 85u64.wrapping_mul(PCG_MUL_64).wrapping_add(109));
    // the top bit of either input is shifted out
    let g = PCG32::seed(1 << 63, 1 << 63);
    assert_eq!(g.inc, 1);
    assert_eq!(g.state, PCG_MUL_64.wrapping_add(1));
}

#[test]
fn pcg32_next_permutes_the_old_state() {
    let mut g = PCG32::new(0x853c_49e6_748f_ea9b, 0xda3e_39cb_94b9_5bdb);
    for _ in 0..100 {
        let old = g.state;
        let out = g.next_u32();
        assert_eq!(out, xsh_rr_u64_to_u32(old));
        assert_eq!(g.state, lcg64_step(PCG_MUL_64, g.inc, old));
        assert_eq!(g.inc, 0xda3e_39cb_94b9_5bdb);
    }
}

#[test]
fn pcg32_jump_is_as_many_calls() {
    for n in [0u64, 1, 2, 17, 1000] {
        let mut stepped = PCG32::seed(7, 9);
        for _ in 0..n {
            stepped.next_u32();
        }
        let mut jumped = PCG32::seed(7, 9);
        jumped.jump(n);
        assert_eq!(jumped.state, stepped.state);
        assert_eq!(jumped.inc, stepped.inc);
        assert_eq!(jumped.next_u32(), stepped.next_u32());
    }
}

#[test]
fn pcg32_jump_back_by_the_opposite() {
    let mut g = PCG32::seed(1, 2);
    let start = g.state;
    g.jump(123_456);
    g.jump(123_456u64.wrapping_neg());
    assert_eq!(g.state, start);
}

#[test]
fn same_seed_gives_the_same_ten_thousand_outputs() {
    let mut a = PCG32::seed(0xABCD, 0x1234);
    let mut b = PCG32::seed(0xABCD, 0x1234);
    for _ in 0..10_000 {
        assert_eq!(a.next_u32(), b.next_u32());
    }
    let mut a = PCG32K::<4>::seed(5, [1, 2, 3, 4]);
    let mut b = PCG32K::<4>::seed(5, [1, 2, 3, 4]);
    for _ in 0..10_000 {
        assert_eq!(a.next_u32(), b.next_u32());
    }
    let mut a = Pcg32::seed(5, 6);
    let mut b = Pcg32::seed(5, 6);
    for _ in 0..10_000 {
        assert_eq!(a.next_u32(), b.next_u32());
    }
}

#[test]
fn a_generator_rebuilt_from_its_fields_goes_on_alike() {
    let mut g = PCG32::seed(99, 3);
    for _ in 0..10 {
        g.next_u32();
    }
    let (state, inc) = (g.state, g.inc);
    let mut again = PCG32::new(state, inc);
    for _ in 0..1000 {
        assert_eq!(g.next_u32(), again.next_u32());
    }
}

#[test]
fn sealed_generator_round_trips_through_a_pair() {
    let mut g = Pcg32::seed(99, 3);
    for _ in 0..10 {
        g.next_u32();
    }
    let pair: [u64; 2] = g.clone().into();
    let mut again = Pcg32::from(pair);
    assert_eq!(again, g);
    for _ in 0..1000 {
        assert_eq!(g.next_u32(), again.next_u32());
    }
    let back: [u64; 2] = Pcg32::from([11, 13]).into();
    assert_eq!(back, [11, 13]);
}

#[test]
fn seed_42_on_stream_54_gives_the_published_outputs() {
    // The outputs that the authors of PCG publish for their 32-bit demo.
    let mut g = Pcg32::seed(42, 54);
    assert_eq!(g.next_u32(), 0xa15c02b7);
    assert_eq!(g.next_u32(), 0x7b47f409);
    assert_eq!(g.next_u32(), 0xba1d3330);
    assert_eq!(g.next_u32(), 0x83d2f293);
    assert_eq!(g.next_u32(), 0xbfa4784b);
    assert_eq!(g.next_u32(), 0xcbed606e);
}

#[test]
fn sealed_generator_jump_is_as_many_calls() {
    let mut stepped = Pcg32::seed(7, 9);
    for _ in 0..500 {
        stepped.next_u32();
    }
    let mut jumped = Pcg32::seed(7, 9);
    jumped.jump(500);
    assert_eq!(jumped, stepped);
}

#[test]
fn pcg32k_seed_steps_every_extension_word() {
    let g = PCG32K::<3>::seed(0, [0, 1, u32::MAX]);
    assert_eq!(g.state, PCG_MUL_64.wrapping_add(1));
    let mul = PCG_MUL_64 as u32;
    assert_eq!(mul, 0x4C95_7F2D);
    assert_eq!(g.ext, [1, mul.wrapping_add(1), u32::MAX.wrapping_mul(mul).wrapping_add(1)]);
}

#[test]
fn pcg32k_without_extension_is_the_plain_permutation() {
    let mut g = PCG32K::<0>::new(12345, []);
    for _ in 0..100 {
        let old = g.state;
        assert_eq!(g.next_u32(), xsh_rr_u64_to_u32(old));
        assert_eq!(g.state, lcg64_step(PCG_MUL_64, 1, old));
    }
}

#[test]
fn pcg32k_mixes_in_the_word_that_the_state_selects() {
    let ext = [0x1111_1111u32, 0x2222_2222, 0x4444_4444];
    let mut g = PCG32K::<3>::new(0xFEED_FACE_CAFE_BEEF, ext);
    for _ in 0..100 {
        let old = g.state;
        let out = g.next_u32();
        assert_eq!(out, xsh_rr_u64_to_u32(old) ^ ext[(old % 3) as usize]);
        assert_eq!(g.ext, ext);
    }
}

/// The inverse of an odd number modulo 2^64.
fn inverse(a: u64) -> u64 {
    let mut x: u64 = a;
    for _ in 0..6 {
        x = x.wrapping_mul(2u64.wrapping_sub(a.wrapping_mul(x)));
    }
    x
}

#[test]
fn pcg32k_counts_up_when_the_new_state_is_zero() {
    // the state from which one step leads to zero
    let before_zero = inverse(PCG_MUL_64).wrapping_mul(1u64.wrapping_neg());
    assert_eq!(lcg64_step(PCG_MUL_64, 1, before_zero), 0);
    let mut g = PCG32K::<2>::new(before_zero, [u32::MAX, 7]);
    let out = g.next_u32();
    // the output is made with the array as it was
    let word = [u32::MAX, 7][(before_zero % 2) as usize];
    assert_eq!(out, xsh_rr_u64_to_u32(before_zero) ^ word);
    assert_eq!(g.state, 0);
    assert_eq!(g.ext, [0, 8]);
    // the step away from zero leaves the array alone
    g.next_u32();
    assert_eq!(g.state, 1);
    assert_eq!(g.ext, [0, 8]);
}

#[test]
fn trait_and_inherent_calls_agree() {
    fn through_trait<G: Gen32>(g: &mut G) -> u32 {
        g.next_u32()
    }
    let mut a = PCG32::seed(3, 4);
    let mut b = a.clone();
    assert_eq!(through_trait(&mut a), b.next_u32());
    let mut a = PCG32K::<2>::seed(3, [9, 9]);
    let mut b = a.clone();
    assert_eq!(through_trait(&mut a), b.next_u32());
    let mut a = Pcg32::seed(3, 4);
    let mut b = a.clone();
    assert_eq!(through_trait(&mut a), b.next_u32());
}

#[test]
fn generators_from_the_operating_system_differ() {
    let a = PCG32::from_getrandom().expect("the operating system has random bytes");
    let b = PCG32::from_getrandom().expect("the operating system has random bytes");
    assert_eq!(a.inc % 2, 1);
    assert_eq!(b.inc % 2, 1);
    assert!(a.state != b.state || a.inc != b.inc);
    assert!(!(a.state == 0 && a.inc == 1));
    let c = PCG32K::<8>::from_getrandom().expect("the operating system has random bytes");
    assert!(c.ext != [0u32; 8]);
    let mut d = c.clone();
    d.scramble_ext_array().expect("the operating system has random bytes");
    assert_eq!(d.state, c.state);
    assert!(d.ext != c.ext);
}

#[test]
fn from_entropy_uses_the_words_as_they_are() {
    let g = PCG32::from_entropy([5, 8]);
    assert_eq!((g.state, g.inc), (5, 9));
    let g = PCG32::from_entropy([0, 7]);
    assert_eq!((g.state, g.inc), (0, 7));
}

#[test]
fn scrambling_no_extension_words_succeeds_without_a_change() {
    let mut g = PCG32K::<0>::new(77, []);
    assert!(g.scramble_ext_array().is_ok());
    assert_eq!(g.state, 77);
    assert_eq!(g.ext, []);
}
