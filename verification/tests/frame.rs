use pink072::cover::{generate_cover, validate_seed};
use pink072::{
    decode_pnk, encode_pnk, pink072_unwrap, pink072_wrap, pink072_wrap_into, PinkError,
    BLOCK_SIZE, COVER_LEN, HEADER_LEN,
};

fn seed() -> [u8; 9] {
    [0x12, 0x34, 0x56, 0x78, 0x9A, 0xBC, 0xDE, 0xF0, 0x11]
}

#[test]
fn round_trip_preserves_payload_and_type() {
    let payload = b"hello pink072";
    let frame = pink072_wrap(payload, 2, &seed(), 8).expect("wrap");
    let (ptype, out) = pink072_unwrap(&frame).expect("unwrap");
    assert_eq!(ptype, 2);
    assert_eq!(out, payload);
}

#[test]
fn header_and_cover_are_correctly_sized() {
    let payload = vec![0xAA; 10];
    let total = HEADER_LEN + COVER_LEN + payload.len();
    let mut buf = vec![0u8; total];
    let written = pink072_wrap_into(&payload, 4, &seed(), 12, &mut buf).expect("wrap_into");
    assert_eq!(written, total);
    assert_eq!(buf[0], 1);
    assert_eq!(buf[1], 4);
    assert_eq!(buf[2], BLOCK_SIZE as u8);
    assert_eq!(buf[3], 12);
    assert_eq!(buf.len(), HEADER_LEN + COVER_LEN + payload.len());
}

#[test]
fn strength_is_clamped_to_12() {
    let payload = [0u8; 1];
    let frame = pink072_wrap(&payload, 0, &seed(), 200).expect("wrap");
    assert_eq!(frame[3], 12);
}

#[test]
fn invalid_seed_errors() {
    let payload = [0u8; 1];
    let mut out = vec![0u8; HEADER_LEN + COVER_LEN + payload.len()];
    let err =
        pink072_wrap_into(&payload, 0, &[0xAA], 1, &mut out).expect_err("expected seed error");
    assert_eq!(err, PinkError::SeedLength);
}

#[test]
fn pnk_encode_decode_round_trip() {
    let payload = b"test pnk format";
    let frame = pink072_wrap(payload, 0, &seed(), 8).expect("wrap");
    let pnk = encode_pnk(&frame);

    assert_eq!(
        &pnk[0..8],
        &[0x89, 0x50, 0x4E, 0x47, 0x0D, 0x0A, 0x1A, 0x0A]
    );

    let decoded_frame = decode_pnk(&pnk).expect("decode_pnk");
    let (ptype, out) = pink072_unwrap(decoded_frame).expect("unwrap");
    assert_eq!(ptype, 0);
    assert_eq!(out, payload);
}

#[test]
fn concrete_scenario() {
    let payload = b"Hello, PINK-072!";
    assert_eq!(payload.len(), 16);
    let frame = pink072_wrap(payload, 2, &seed(), 8).expect("wrap");
    assert_eq!(frame.len(), 20_784);
    assert_eq!(frame[0], 1);
    assert_eq!(frame[1], 2);
    assert_eq!(frame[2], 16);
    assert_eq!(frame[3], 8);
    let (ptype, out) = pink072_unwrap(&frame).expect("unwrap");
    assert_eq!(ptype, 2);
    assert_eq!(out, b"Hello, PINK-072!");
}

#[test]
fn header_layout_is_exact() {
    let payload = vec![7u8; 0x0102];
    let frame = pink072_wrap(&payload, 9, &seed(), 5).expect("wrap");
    assert_eq!(&frame[4..12], &[0x02, 0x01, 0, 0, 0, 0, 0, 0]);
    assert_eq!(&frame[12..32], &[0u8; 20]);
    assert_eq!(&frame[HEADER_LEN + COVER_LEN..], &payload[..]);
}

#[test]
fn round_trip_over_types_and_strengths() {
    for (ptype, strength) in [(0u8, 0u8), (1, 12), (127, 13), (255, 255)] {
        let payload: Vec<u8> = (0..300u32).map(|i| (i * 7 + ptype as u32) as u8).collect();
        let frame = pink072_wrap(&payload, ptype, &seed(), strength).expect("wrap");
        assert_eq!(frame.len(), 32 + 20736 + payload.len());
        assert_eq!(pink072_unwrap(&frame), Ok((ptype, payload)));
    }
}

#[test]
fn empty_payload_round_trips() {
    let frame = pink072_wrap(&[], 3, &seed(), 1).expect("wrap");
    assert_eq!(frame.len(), 20_768);
    assert_eq!(pink072_unwrap(&frame), Ok((3, Vec::new())));
}

#[test]
fn strength_above_twelve_gives_the_frame_of_twelve() {
    let payload = b"same";
    let at_twelve = pink072_wrap(payload, 1, &seed(), 12).expect("wrap");
    for strength in [13u8, 100, 255] {
        let frame = pink072_wrap(payload, 1, &seed(), strength).expect("wrap");
        assert_eq!(frame[3], 12);
        assert_eq!(frame, at_twelve);
    }
}

#[test]
fn wrap_rejects_every_other_seed_length() {
    for len in [0usize, 1, 8, 10, 64] {
        let bad = vec![0x55u8; len];
        assert_eq!(pink072_wrap(b"x", 0, &bad, 1), Err(PinkError::SeedLength));
        assert_eq!(validate_seed(&bad), Err(PinkError::SeedLength));
    }
    assert_eq!(validate_seed(&seed()), Ok(()));
}

#[test]
fn wrap_into_leaves_the_buffer_alone_on_error() {
    let mut out = vec![0x5Au8; 30_000];
    assert_eq!(
        pink072_wrap_into(b"abc", 0, &[1, 2, 3], 1, &mut out),
        Err(PinkError::SeedLength)
    );
    assert!(out.iter().all(|b| *b == 0x5A));

    let mut small = vec![0x5Au8; HEADER_LEN + COVER_LEN + 2];
    assert_eq!(
        pink072_wrap_into(b"abc", 0, &seed(), 1, &mut small),
        Err(PinkError::BufferTooSmall)
    );
    assert!(small.iter().all(|b| *b == 0x5A));
}

#[test]
fn wrap_into_matches_wrap_and_keeps_the_tail() {
    let payload = b"reuse the buffer";
    let frame = pink072_wrap(payload, 6, &seed(), 9).expect("wrap");
    let mut out = vec![0xEEu8; frame.len() + 5];
    let written = pink072_wrap_into(payload, 6, &seed(), 9, &mut out).expect("wrap_into");
    assert_eq!(written, frame.len());
    assert_eq!(&out[..written], &frame[..]);
    assert_eq!(&out[written..], &[0xEE; 5]);
}

#[test]
fn unwrap_rejects_a_short_frame() {
    let frame = pink072_wrap(b"payload", 0, &seed(), 8).expect("wrap");
    assert_eq!(
        pink072_unwrap(&frame[..HEADER_LEN + COVER_LEN - 1]),
        Err(PinkError::FrameTooSmall)
    );
    assert_eq!(pink072_unwrap(&[]), Err(PinkError::FrameTooSmall));
}

#[test]
fn unwrap_rejects_a_truncated_frame() {
    let frame = pink072_wrap(b"payload", 0, &seed(), 8).expect("wrap");
    assert_eq!(
        pink072_unwrap(&frame[..frame.len() - 1]),
        Err(PinkError::TruncatedFrame)
    );
    let mut longer = frame.clone();
    longer[4] = 8;
    assert_eq!(pink072_unwrap(&longer), Err(PinkError::TruncatedFrame));
}

#[test]
fn unwrap_rejects_a_length_that_cannot_be_addressed() {
    let mut frame = pink072_wrap(b"payload", 0, &seed(), 8).expect("wrap");
    for b in &mut frame[4..12] {
        *b = 0xFF;
    }
    assert_eq!(
        pink072_unwrap(&frame),
        Err(PinkError::PayloadLengthOverflow)
    );
}

#[test]
fn unwrap_ignores_bytes_after_the_payload_and_the_cover() {
    let mut frame = pink072_wrap(b"payload", 5, &seed(), 8).expect("wrap");
    frame.extend_from_slice(b"trailing");
    for b in &mut frame[HEADER_LEN..HEADER_LEN + COVER_LEN] {
        *b = 0;
    }
    assert_eq!(pink072_unwrap(&frame), Ok((5, b"payload".to_vec())));
}

#[test]
fn cover_is_deterministic() {
    let mut first = vec![0u8; COVER_LEN];
    let mut second = vec![0xFFu8; COVER_LEN];
    generate_cover(&mut first, &seed(), 8);
    generate_cover(&mut second, &seed(), 8);
    assert_eq!(first.len(), 20_736);
    assert_eq!(first, second);
    let frame = pink072_wrap(b"x", 0, &seed(), 8).expect("wrap");
    assert_eq!(&frame[HEADER_LEN..HEADER_LEN + COVER_LEN], &first[..]);
}

#[test]
fn cover_changes_with_seed_and_strength() {
    let mut base = vec![0u8; COVER_LEN];
    generate_cover(&mut base, &seed(), 8);
    let mut other_seed = vec![0u8; COVER_LEN];
    generate_cover(&mut other_seed, &[1, 2, 3, 4, 5, 6, 7, 8, 9], 8);
    assert_ne!(base, other_seed);
    let mut other_strength = vec![0u8; COVER_LEN];
    generate_cover(&mut other_strength, &seed(), 3);
    assert_ne!(base, other_strength);
}

#[test]
fn cover_alpha_is_opaque() {
    let mut cover = vec![0u8; COVER_LEN];
    generate_cover(&mut cover, &seed(), 12);
    assert!(cover.chunks(4).all(|px| px[3] == 0xFF));
}

#[test]
fn error_messages() {
    assert_eq!(PinkError::SeedLength.message(), "seed must be exactly 9 bytes");
    assert_eq!(PinkError::BufferTooSmall.message(), "buffer too small");
    assert_eq!(PinkError::FrameTooSmall.message(), "frame too small");
    assert_eq!(PinkError::PayloadLengthOverflow.message(), "payload length overflow");
    assert_eq!(PinkError::TruncatedFrame.message(), "truncated frame");
    assert_eq!(PinkError::InvalidFormat.message(), "invalid PNK format");
}

#[test]
fn cover_fills_the_front_of_a_longer_buffer() {
    let mut exact = vec![0u8; COVER_LEN];
    generate_cover(&mut exact, &seed(), 8);
    let mut longer = vec![0x77u8; COVER_LEN + 100];
    generate_cover(&mut longer, &seed(), 8);
    assert_eq!(longer.len(), COVER_LEN + 100);
    assert_eq!(&longer[..COVER_LEN], &exact[..]);
    assert_eq!(&longer[COVER_LEN..], &[0x77u8; 100]);
    assert!(longer[..COVER_LEN].chunks(4).all(|px| px[3] == 0xFF));
}
