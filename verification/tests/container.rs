use pink072::png::{adler32, crc32, encode_png, find_png_end, write_chunk};
use pink072::{decode_pnk, encode_pnk, pink072_wrap, PinkError, COVER_LEN, HEADER_LEN};

const SIGNATURE: [u8; 8] = [0x89, 0x50, 0x4E, 0x47, 0x0D, 0x0A, 0x1A, 0x0A];

fn seed() -> [u8; 9] {
    [0x12, 0x34, 0x56, 0x78, 0x9A, 0xBC, 0xDE, 0xF0, 0x11]
}

fn chunk(tag: &[u8; 4], data: &[u8]) -> Vec<u8> {
    let mut out = Vec::new();
    write_chunk(&mut out, tag, data);
    out
}

#[test]
fn crc32_check_vector() {
    assert_eq!(crc32(b"123456789"), 0xCBF4_3926);
}

#[test]
fn crc32_of_small_inputs() {
    assert_eq!(crc32(b""), 0);
    assert_eq!(crc32(b"a"), 0xE8B7_BE43);
    assert_eq!(crc32(b"IEND"), 0xAE42_6082);
}

#[test]
fn adler32_of_nothing_is_one() {
    assert_eq!(adler32(b""), 1);
}

#[test]
fn adler32_vectors() {
    assert_eq!(adler32(b"Wikipedia"), 0x11E6_0398);
    assert_eq!(adler32(&[0xFFu8; 6000]), 0xA497_59EA);
}

#[test]
fn chunk_layout() {
    let out = chunk(b"IEND", &[]);
    assert_eq!(out, [0, 0, 0, 0, 0x49, 0x45, 0x4E, 0x44, 0xAE, 0x42, 0x60, 0x82]);

    let mut appended = vec![0xAB];
    write_chunk(&mut appended, b"tEXt", b"hi");
    assert_eq!(appended.len(), 1 + 12 + 2);
    assert_eq!(&appended[..11], &[0xAB, 0, 0, 0, 2, b't', b'E', b'X', b't', b'h', b'i']);
    assert_eq!(&appended[11..], &crc32(b"tEXthi").to_be_bytes());
}

#[test]
fn container_of_a_blank_raster() {
    let png = encode_png(&vec![0u8; COVER_LEN]);
    assert_eq!(png.len(), 20_876);
    assert_eq!(&png[..8], &SIGNATURE);
    assert_eq!(
        &png[8..33],
        &[
            0, 0, 0, 13, b'I', b'H', b'D', b'R', 0, 0, 0, 72, 0, 0, 0, 72, 8, 6, 0, 0, 0, 0x55,
            0xED, 0xB3, 0x47
        ]
    );
    // pixel-data chunk: its length, its tag, the bitstream header and one stored block
    assert_eq!(&png[33..37], &20_819u32.to_be_bytes());
    assert_eq!(&png[37..41], b"IDAT");
    assert_eq!(&png[41..43], &[0x78, 0x01]);
    assert_eq!(&png[43..48], &[1, 0x48, 0x51, 0xB7, 0xAE]);
    assert!(png[48..48 + 20_808].iter().all(|b| *b == 0));
    assert_eq!(&png[20_856..20_860], &[0x51, 0x48, 0x00, 0x01]);
    assert_eq!(&png[20_864..], &[0, 0, 0, 0, b'I', b'E', b'N', b'D', 0xAE, 0x42, 0x60, 0x82]);
    assert_eq!(crc32(&png), 0x2EA9_977A);
}

#[test]
fn container_scanlines_carry_the_raster() {
    let rgba: Vec<u8> = (0..COVER_LEN).map(|i| (i % 251) as u8).collect();
    let png = encode_png(&rgba);
    for y in 0..72 {
        let line = 48 + y * 289;
        assert_eq!(png[line], 0);
        assert_eq!(&png[line + 1..line + 289], &rgba[y * 288..(y + 1) * 288]);
    }
    let mut raw = Vec::new();
    for y in 0..72 {
        raw.push(0);
        raw.extend_from_slice(&rgba[y * 288..(y + 1) * 288]);
    }
    assert_eq!(&png[20_856..20_860], &adler32(&raw).to_be_bytes());
    assert_eq!(&png[20_860..20_864], &crc32(&png[37..20_860]).to_be_bytes());
}

#[test]
fn container_end_is_found() {
    let png = encode_png(&vec![7u8; COVER_LEN]);
    assert_eq!(find_png_end(&png), Ok(20_876));
    let mut longer = png.clone();
    longer.extend_from_slice(b"anything");
    assert_eq!(find_png_end(&longer), Ok(20_876));
}

#[test]
fn container_end_ignores_checksums() {
    let mut png = encode_png(&vec![7u8; COVER_LEN]);
    png[29] ^= 0xFF;
    png[20_861] ^= 0xFF;
    assert_eq!(find_png_end(&png), Ok(20_876));
}

#[test]
fn container_end_of_the_smallest_container() {
    let mut data = SIGNATURE.to_vec();
    data.extend_from_slice(&chunk(b"IEND", &[]));
    assert_eq!(find_png_end(&data), Ok(20));
    let mut with_data = SIGNATURE.to_vec();
    with_data.extend_from_slice(&chunk(b"IEND", b"abc"));
    assert_eq!(find_png_end(&with_data), Ok(23));
}

#[test]
fn container_end_rejects_a_missing_signature() {
    assert_eq!(find_png_end(&[]), Err(PinkError::InvalidFormat));
    assert_eq!(find_png_end(&SIGNATURE[..7]), Err(PinkError::InvalidFormat));
    let mut png = encode_png(&vec![0u8; COVER_LEN]);
    png[0] = 0x88;
    assert_eq!(find_png_end(&png), Err(PinkError::InvalidFormat));
    let mut last = encode_png(&vec![0u8; COVER_LEN]);
    last[7] = 0x0B;
    assert_eq!(find_png_end(&last), Err(PinkError::InvalidFormat));
}

#[test]
fn container_end_rejects_a_chunk_past_the_data() {
    let png = encode_png(&vec![0u8; COVER_LEN]);
    assert_eq!(find_png_end(&png[..20_875]), Err(PinkError::InvalidFormat));
    assert_eq!(find_png_end(&png[..1000]), Err(PinkError::InvalidFormat));
    let mut huge = SIGNATURE.to_vec();
    huge.extend_from_slice(&[0xFF, 0xFF, 0xFF, 0xFF, b'I', b'E', b'N', b'D', 0, 0, 0, 0]);
    assert_eq!(find_png_end(&huge), Err(PinkError::InvalidFormat));
}

#[test]
fn container_end_rejects_a_missing_end_chunk() {
    assert_eq!(find_png_end(&SIGNATURE), Err(PinkError::InvalidFormat));
    let png = encode_png(&vec![0u8; COVER_LEN]);
    assert_eq!(find_png_end(&png[..20_864]), Err(PinkError::InvalidFormat));
    assert_eq!(find_png_end(&png[..20_870]), Err(PinkError::InvalidFormat));
}

#[test]
fn artifact_is_container_then_frame() {
    let frame = pink072_wrap(b"Hello, PINK-072!", 2, &seed(), 8).expect("wrap");
    let pnk = encode_pnk(&frame);
    assert_eq!(pnk.len(), 20_876 + frame.len());
    assert_eq!(&pnk[..8], &SIGNATURE);
    assert_eq!(&pnk[..20_876], &encode_png(&frame[HEADER_LEN..HEADER_LEN + COVER_LEN])[..]);
    assert_eq!(&pnk[20_876..], &frame[..]);
    assert_eq!(decode_pnk(&pnk), Ok(&frame[..]));
}

#[test]
fn artifact_has_known_checksums() {
    let frame = pink072_wrap(b"Hello, PINK-072!", 2, &seed(), 8).expect("wrap");
    assert_eq!(crc32(&frame), 0x2838_754F);
    let pnk = encode_pnk(&frame);
    assert_eq!(pnk.len(), 41_660);
    assert_eq!(crc32(&pnk[..20_876]), 0xA05F_695D);
    assert_eq!(crc32(&pnk), 0x3237_9879);
}

#[test]
fn artifact_round_trips_for_many_frames() {
    for len in [0usize, 1, 255, 70_000] {
        let payload: Vec<u8> = (0..len).map(|i| (i * 31) as u8).collect();
        let frame = pink072_wrap(&payload, len as u8, &seed(), 4).expect("wrap");
        let pnk = encode_pnk(&frame);
        assert_eq!(decode_pnk(&pnk), Ok(&frame[..]));
    }
}

#[test]
fn artifact_without_a_frame_is_rejected() {
    let png = encode_png(&vec![0u8; COVER_LEN]);
    assert_eq!(decode_pnk(&png), Err(PinkError::InvalidFormat));
    let mut one_more = png.clone();
    one_more.push(0);
    assert_eq!(decode_pnk(&one_more), Ok(&[0u8][..]));
}

#[test]
fn artifact_with_a_broken_container_is_rejected() {
    let frame = pink072_wrap(b"x", 0, &seed(), 8).expect("wrap");
    let mut pnk = encode_pnk(&frame);
    pnk[1] = b'Q';
    assert_eq!(decode_pnk(&pnk), Err(PinkError::InvalidFormat));
    assert_eq!(decode_pnk(&frame), Err(PinkError::InvalidFormat));
    assert_eq!(decode_pnk(&[]), Err(PinkError::InvalidFormat));
}
