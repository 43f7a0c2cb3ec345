use randomize::formulas::{
    lcg128_jump, lcg128_step, lcg32_jump, lcg32_step, lcg64_jump, lcg64_step, xsh_rr_u64_to_u32,
    xsl_rr_rr_64_64, xsl_rr_u128_to_u64, PCG_MUL_64,
};

const MUL_128: u128 = 47026247687942121848144207491837523525;

#[test]
fn steps_have_their_exact_values() {
    assert_eq!(lcg32_step(5, 7, 3), 22);
    assert_eq!(lcg32_step(2, 1, 0x8000_0000), 1);
    assert_eq!(lcg32_step(u32::MAX, u32::MAX, u32::MAX), 0);
    assert_eq!(lcg64_step(PCG_MUL_64, 1, 0), 1);
    assert_eq!(lcg64_step(PCG_MUL_64, 1, 1), 6364136223846793006);
    assert_eq!(lcg64_step(2, 3, 0x8000_0000_0000_0000), 3);
    assert_eq!(lcg128_step(3, 4, 5), 19);
    assert_eq!(lcg128_step(2, 9, 1u128 << 127), 9);
}

#[test]
fn jump_is_repeated_step_32() {
    for &(mul, add, start) in &[(1664525u32, 1013904223u32, 0u32), (5, 7, 3), (0, 9, 1), (2, 0, 77)] {
        let mut walked = start;
        for n in 0..200u32 {
            assert_eq!(lcg32_jump(mul, add, start, n), walked);
            walked = lcg32_step(mul, add, walked);
        }
    }
}

#[test]
fn jump_is_repeated_step_64() {
    for &(mul, add, start) in &[(PCG_MUL_64, 1442695040888963407u64, 0u64), (PCG_MUL_64, 2, 99), (4, 1, 3)] {
        let mut walked = start;
        for n in 0..200u64 {
            assert_eq!(lcg64_jump(mul, add, start, n), walked);
            walked = lcg64_step(mul, add, walked);
        }
    }
}

#[test]
fn jump_is_repeated_step_128() {
    let mut walked = 12345u128;
    for n in 0..200u128 {
        assert_eq!(lcg128_jump(MUL_128, 117, 12345, n), walked);
        walked = lcg128_step(MUL_128, 117, walked);
    }
}

#[test]
fn jump_by_one_is_one_step() {
    for state in [0u64, 1, 42, u64::MAX, 0xDEAD_BEEF_0BAD_F00D] {
        assert_eq!(lcg64_jump(PCG_MUL_64, 7, state, 1), lcg64_step(PCG_MUL_64, 7, state));
        assert_eq!(lcg64_jump(PCG_MUL_64, 7, state, 0), state);
    }
    assert_eq!(lcg32_jump(9, 4, 11, 1), lcg32_step(9, 4, 11));
    assert_eq!(lcg128_jump(9, 4, 11, 1), lcg128_step(9, 4, 11));
}

#[test]
fn jumps_compose() {
    let pairs = [(0u64, 0u64), (1, 1), (3, 1000), (123_456_789, 987_654_321), (1 << 40, (1 << 50) + 17)];
    for &(d1, d2) in &pairs {
        for state in [0u64, 5, u64::MAX] {
            let two = lcg64_jump(PCG_MUL_64, 11, lcg64_jump(PCG_MUL_64, 11, state, d1), d2);
            assert_eq!(two, lcg64_jump(PCG_MUL_64, 11, state, d1 + d2));
        }
    }
    let two = lcg32_jump(1664525, 3, lcg32_jump(1664525, 3, 8, 70_000), 1_000_000);
    assert_eq!(two, lcg32_jump(1664525, 3, 8, 1_070_000));
    let two = lcg128_jump(MUL_128, 3, lcg128_jump(MUL_128, 3, 8, 1 << 70), 12345);
    assert_eq!(two, lcg128_jump(MUL_128, 3, 8, (1 << 70) + 12345));
}

#[test]
fn jump_across_the_whole_period_comes_back() {
    // with an odd increment a full period of 2^32 steps is 2^32 - 1 and one more
    let state = 0x1234_5678u32;
    let nearly = lcg32_jump(1664525, 1013904223, state, u32::MAX);
    assert_eq!(lcg32_step(1664525, 1013904223, nearly), state);
}

#[test]
fn xsh_rr_follows_its_formula() {
    assert_eq!(xsh_rr_u64_to_u32(0), 0);
    // top 5 bits zero: no rotation; kept bits are bits 27..59 of the folded state
    assert_eq!(xsh_rr_u64_to_u32(1 << 27), 1);
    assert_eq!(xsh_rr_u64_to_u32(1 << 45), (1 << 18) | 1);
    // rotation by 1 moves bit 0 of the kept word to the top
    let state = (1u64 << 59) | (1 << 27);
    assert_eq!(xsh_rr_u64_to_u32(state), 0x8000_2000);
    let mut s = 0x853c_49e6_748f_ea9bu64;
    for _ in 0..1000 {
        let expected = ((((s >> 18) ^ s) >> 27) as u32).rotate_right((s >> 59) as u32);
        assert_eq!(xsh_rr_u64_to_u32(s), expected);
        s = s.wrapping_mul(PCG_MUL_64).wrapping_add(0xda3e_39cb_94b9_5bdb);
    }
}

#[test]
fn xsl_rr_follows_its_formula() {
    assert_eq!(xsl_rr_u128_to_u64(0), 0);
    assert_eq!(xsl_rr_u128_to_u64(5), 5);
    assert_eq!(xsl_rr_u128_to_u64((7u128 << 64) | 5), 2);
    let mut s = 0x0123_4567_89ab_cdef_fedc_ba98_7654_3210u128;
    for _ in 0..1000 {
        let expected = ((s ^ (s >> 64)) as u64).rotate_right((s >> 122) as u32);
        assert_eq!(xsl_rr_u128_to_u64(s), expected);
        s = s.wrapping_mul(MUL_128).wrapping_add(99);
    }
}

#[test]
fn xsl_rr_rr_follows_its_formula() {
    assert_eq!(xsl_rr_rr_64_64(0), 0);
    let mut s = 0x853c_49e6_748f_ea9bu64;
    for _ in 0..1000 {
        let rot1 = (s >> 59) as u32;
        let high = (s >> 32) as u32;
        let low = s as u32;
        let new_low = (high ^ low).rotate_right(rot1);
        let new_high = high.rotate_right(new_low & 31);
        assert_eq!(xsl_rr_rr_64_64(s), ((new_high as u64) << 32) | new_low as u64);
        s = s.wrapping_mul(PCG_MUL_64).wrapping_add(1);
    }
}
