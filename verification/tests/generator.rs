use pink072::bytes::{
    copy_bytes, get_u16_le, get_u32_be, get_u64_le, put_u16_le, put_u32_be, put_u64_le,
    write_u64_le, zero_bytes,
};
use pink072::cover::generate_cover;
use pink072::png::{adler32, crc32};
use pink072::rng::{generate_permutation, seed9_to_u64, xorshift64};
use pink072::COVER_LEN;

fn seed() -> [u8; 9] {
    [0x12, 0x34, 0x56, 0x78, 0x9A, 0xBC, 0xDE, 0xF0, 0x11]
}

#[test]
fn xorshift_steps() {
    let mut state = 1u64;
    assert_eq!(xorshift64(&mut state), 0x4082_2041);
    assert_eq!(state, 0x4082_2041);
    assert_eq!(xorshift64(&mut state), 0x1000_4106_0C01_1441);
    assert_eq!(state, 0x1000_4106_0C01_1441);

    let mut other = 0x0123_4567_89AB_CDEFu64;
    assert_eq!(xorshift64(&mut other), 0x3F28_00D6_569E_01B4);
}

#[test]
fn xorshift_keeps_zero() {
    let mut state = 0u64;
    assert_eq!(xorshift64(&mut state), 0);
    assert_eq!(state, 0);
}

#[test]
fn seed_expansion() {
    assert_eq!(seed9_to_u64(&seed()), 0xF0DE_BC9A_7856_BC12);
    assert_eq!(seed9_to_u64(&[0; 9]), 0);
    assert_eq!(seed9_to_u64(&[0, 0, 0, 0, 0, 0, 0, 0, 1]), 0x800);
    assert_eq!(seed9_to_u64(&[1, 0, 0, 0, 0, 0, 0, 0, 0]), 1);
    assert_eq!(seed9_to_u64(&[0, 8, 0, 0, 0, 0, 0, 0, 1]), 0);
}

#[test]
fn permutation_of_five() {
    let mut state = 1u64;
    assert_eq!(generate_permutation(&mut state, 5), vec![2, 3, 0, 4, 1]);
    assert_eq!(state, 0xF554_F503_555D_8025);
}

#[test]
fn permutation_of_the_tiles() {
    let mut state = seed9_to_u64(&seed());
    assert_eq!(
        generate_permutation(&mut state, 25),
        vec![
            19, 12, 14, 2, 6, 10, 9, 0, 11, 21, 24, 20, 4, 23, 17, 8, 5, 3, 7, 22, 13, 16, 15, 1,
            18
        ]
    );
}

#[test]
fn permutation_takes_one_draw_for_each_position_but_the_first() {
    let mut state = 42u64;
    let _ = generate_permutation(&mut state, 9);
    let mut stepped = 42u64;
    for _ in 0..8 {
        xorshift64(&mut stepped);
    }
    assert_eq!(state, stepped);
}

#[test]
fn permutation_of_nothing_and_of_one() {
    let mut state = 77u64;
    assert_eq!(generate_permutation(&mut state, 0), Vec::<usize>::new());
    assert_eq!(generate_permutation(&mut state, 1), vec![0]);
    assert_eq!(state, 77);
}

#[test]
fn permutation_lists_each_index_once() {
    for (start, n) in [(1u64, 2usize), (99, 25), (0xDEAD_BEEF, 256), (0, 10)] {
        let mut state = start;
        let mut perm = generate_permutation(&mut state, n);
        assert_eq!(perm.len(), n);
        perm.sort();
        assert_eq!(perm, (0..n).collect::<Vec<usize>>());
    }
}

#[test]
fn cover_has_known_values() {
    let mut cover = vec![0u8; COVER_LEN];
    generate_cover(&mut cover, &seed(), 8);
    assert_eq!(&cover[..12], &[170, 225, 145, 255, 16, 186, 109, 255, 2, 7, 162, 255]);
    assert_eq!(&cover[COVER_LEN - 8..], &[255, 23, 183, 255, 201, 56, 3, 255]);
    assert_eq!(crc32(&cover), 0xA0CA_BA27);
    assert_eq!(adler32(&cover), 0x4AEF_4FD1);
}

#[test]
fn cover_without_jitter_is_the_shuffled_noise() {
    let mut cover = vec![0u8; COVER_LEN];
    generate_cover(&mut cover, &seed(), 0);
    assert_eq!(&cover[..12], &[163, 226, 145, 255, 10, 190, 115, 255, 1, 9, 163, 255]);
    assert_eq!(&cover[COVER_LEN - 8..], &[253, 26, 188, 255, 201, 58, 6, 255]);
    assert_eq!(crc32(&cover), 0x9934_E55C);
}

#[test]
fn cover_jitter_tops_out_at_strength_twelve() {
    let mut at_twelve = vec![0u8; COVER_LEN];
    generate_cover(&mut at_twelve, &seed(), 12);
    assert_eq!(&at_twelve[..12], &[166, 223, 136, 255, 22, 190, 106, 255, 13, 6, 155, 255]);
    assert_eq!(crc32(&at_twelve), 0xCD57_CCD0);
    let mut at_most = vec![0u8; COVER_LEN];
    generate_cover(&mut at_most, &seed(), 255);
    assert_eq!(at_most, at_twelve);
}

#[test]
fn cover_jitter_stays_within_its_ceilings() {
    let mut plain = vec![0u8; COVER_LEN];
    generate_cover(&mut plain, &seed(), 0);
    let mut jittered = vec![0u8; COVER_LEN];
    generate_cover(&mut jittered, &seed(), 8);
    for (before, after) in plain.chunks(4).zip(jittered.chunks(4)) {
        assert!(after[0] >= before[0] && after[0] - before[0] <= 8);
        assert!(after[1] <= before[1] && before[1] - after[1] <= 4);
        assert!(after[2] <= before[2] && before[2] - after[2] <= 6);
        assert_eq!(after[3], 0xFF);
    }
}

#[test]
fn integers_as_bytes() {
    let mut out = vec![0xEE];
    put_u16_le(&mut out, 0x1234);
    put_u32_be(&mut out, 0x0102_0304);
    put_u64_le(&mut out, 0x0102_0304_0506_0708);
    assert_eq!(out, [0xEE, 0x34, 0x12, 1, 2, 3, 4, 8, 7, 6, 5, 4, 3, 2, 1]);
    assert_eq!(get_u16_le(&out, 1), 0x1234);
    assert_eq!(get_u32_be(&out, 3), 0x0102_0304);
    assert_eq!(get_u64_le(&out, 7), 0x0102_0304_0506_0708);
    assert_eq!(get_u64_le(&[0xFF; 8], 0), u64::MAX);
    assert_eq!(get_u32_be(&[0xFF; 4], 0), u32::MAX);
    assert_eq!(get_u16_le(&[0xFF; 2], 0), u16::MAX);
}

#[test]
fn bytes_written_in_place() {
    let mut buf = vec![9u8; 12];
    write_u64_le(&mut buf, 2, 0x1122_3344_5566_7788);
    assert_eq!(buf, [9, 9, 0x88, 0x77, 0x66, 0x55, 0x44, 0x33, 0x22, 0x11, 9, 9]);
    zero_bytes(&mut buf, 3, 4);
    assert_eq!(buf, [9, 9, 0x88, 0, 0, 0, 0, 0x33, 0x22, 0x11, 9, 9]);
    copy_bytes(&mut buf, 9, &[1, 2, 3]);
    assert_eq!(buf, [9, 9, 0x88, 0, 0, 0, 0, 0x33, 0x22, 1, 2, 3]);
    copy_bytes(&mut buf, 12, &[]);
    assert_eq!(buf.len(), 12);
}
