//! The frame codec: a fixed header, the cover and the payload, one after
//! the other, and the strict parse that takes a frame apart again.

use crate::bytes::{
    copy_bytes, get_u64_le, lemma_splice_chain, lemma_u64_le_round_trip, put_u64_le, splice,
    u64_from_le_bytes, u64_le_bytes, write_u64_le, zero_bytes,
};
use crate::constants::{BLOCK_SIZE, COVER_LEN, HEADER_LEN, PREFIX_LEN};
use crate::cover::{cover_spec, generate_cover, validate_seed};
use crate::error::PinkError;
use vstd::prelude::*;
use vstd::slice::{slice_subrange, slice_to_vec};

verus! {

/// The version that every header carries.
pub const FORMAT_VERSION: u8 = 1;

/// The largest strength that takes effect.
pub const MAX_STRENGTH: u8 = 12;

/// The strength that a frame is built with: the caller's, but at most 12.
pub open spec fn clamp_strength(strength: u8) -> u8 {
    if strength < MAX_STRENGTH {
        strength
    } else {
        MAX_STRENGTH
    }
}

/// The header of a frame: version, payload type, tile size, clamped
/// strength, the payload's length as eight little-endian bytes, and twenty
/// reserved zero bytes.
pub open spec fn header_spec(payload_type: u8, strength: u8, payload_len: nat) -> Seq<u8> {
    seq![FORMAT_VERSION, payload_type, BLOCK_SIZE as u8, clamp_strength(strength)] + u64_le_bytes(
        payload_len as u64,
    ) + Seq::new(20, |i: int| 0u8)
}

/// The frame for a payload: header, cover, payload.
pub open spec fn frame_spec(payload: Seq<u8>, payload_type: u8, seed: Seq<u8>, strength: u8) -> Seq<
    u8,
>
    recommends
        seed.len() == 9,
{
    header_spec(payload_type, strength, payload.len()) + cover_spec(
        seed,
        clamp_strength(strength),
    ) + payload
}

/// What parsing `frame` gives: the payload type and the payload, or the
/// first of the checks that fails.
pub open spec fn unwrap_spec(frame: Seq<u8>) -> Result<(u8, Seq<u8>), PinkError> {
    if frame.len() < PREFIX_LEN {
        Err(PinkError::FrameTooSmall)
    } else {
        let declared = u64_from_le_bytes(frame.subrange(4, 12)) as int;
        if PREFIX_LEN + declared > usize::MAX {
            Err(PinkError::PayloadLengthOverflow)
        } else if frame.len() < PREFIX_LEN + declared {
            Err(PinkError::TruncatedFrame)
        } else {
            Ok((frame[1], frame.subrange(PREFIX_LEN as int, PREFIX_LEN + declared)))
        }
    }
}

/// The parts of a frame lie where the layout says.
pub proof fn lemma_frame_layout(payload: Seq<u8>, payload_type: u8, seed: Seq<u8>, strength: u8)
    ensures
        frame_spec(payload, payload_type, seed, strength).len() == PREFIX_LEN + payload.len(),
        frame_spec(payload, payload_type, seed, strength)[0] == FORMAT_VERSION,
        frame_spec(payload, payload_type, seed, strength)[1] == payload_type,
        frame_spec(payload, payload_type, seed, strength)[2] == BLOCK_SIZE,
        frame_spec(payload, payload_type, seed, strength)[3] == clamp_strength(strength),
        frame_spec(payload, payload_type, seed, strength).subrange(4, 12) == u64_le_bytes(
            payload.len() as u64,
        ),
        frame_spec(payload, payload_type, seed, strength).subrange(
            HEADER_LEN as int,
            PREFIX_LEN as int,
        ) == cover_spec(seed, clamp_strength(strength)),
        frame_spec(payload, payload_type, seed, strength).subrange(
            PREFIX_LEN as int,
            PREFIX_LEN + payload.len(),
        ) == payload,
{
    let frame = frame_spec(payload, payload_type, seed, strength);
    let header = header_spec(payload_type, strength, payload.len());
    assert(header.len() == HEADER_LEN);
    assert(frame.subrange(4, 12) =~= u64_le_bytes(payload.len() as u64));
    assert(frame.subrange(HEADER_LEN as int, PREFIX_LEN as int) =~= cover_spec(
        seed,
        clamp_strength(strength),
    ));
    assert(frame.subrange(PREFIX_LEN as int, PREFIX_LEN + payload.len()) =~= payload);
}

/// Parsing the frame of a payload gives the payload and its type back,
/// whatever the seed and the strength.
pub proof fn lemma_wrap_unwrap_round_trip(
    payload: Seq<u8>,
    payload_type: u8,
    seed: Seq<u8>,
    strength: u8,
)
    requires
        seed.len() == 9,
        PREFIX_LEN + payload.len() <= usize::MAX,
    ensures
        unwrap_spec(frame_spec(payload, payload_type, seed, strength)) == Ok::<
            (u8, Seq<u8>),
            PinkError,
        >((payload_type, payload)),
{
    lemma_frame_layout(payload, payload_type, seed, strength);
    lemma_u64_le_round_trip(payload.len() as u64);
}

/// Builds the frame for `payload`: header, cover, payload.
pub fn pink072_wrap(payload: &[u8], payload_type: u8, seed9: &[u8], strength: u8) -> (res: Result<
    Vec<u8>,
    PinkError,
>)
    ensures
        seed9@.len() != 9 ==> res is Err && res->Err_0 == PinkError::SeedLength,
        seed9@.len() == 9 ==> res is Ok && res->Ok_0@ == frame_spec(
            payload@,
            payload_type,
            seed9@,
            strength,
        ),
        res is Ok ==> res->Ok_0@.len() == HEADER_LEN + COVER_LEN + payload@.len(),
        res is Ok ==> res->Ok_0@[3] == clamp_strength(strength),
        res is Ok && strength > 12 ==> res->Ok_0@[3] == 12,
{
    match validate_seed(seed9) {
        Err(e) => { return Err(e); },
        Ok(()) => {},
    }
    let clamped: u8 = if strength < MAX_STRENGTH { strength } else { MAX_STRENGTH };
    let mut frame: Vec<u8> = Vec::new();
    frame.push(FORMAT_VERSION);
    frame.push(payload_type);
    frame.push(BLOCK_SIZE as u8);
    frame.push(clamped);
    put_u64_le(&mut frame, payload.len() as u64);
    let mut k: usize = 12;
    while k < HEADER_LEN
        invariant
            12 <= k <= HEADER_LEN,
            frame@ == seq![FORMAT_VERSION, payload_type, BLOCK_SIZE as u8, clamped] + u64_le_bytes(
                payload@.len() as u64,
            ) + Seq::new((k - 12) as nat, |i: int| 0u8),
        decreases HEADER_LEN - k,
    {
        frame.push(0);
        k += 1;
    }
    assert(frame@ == header_spec(payload_type, strength, payload@.len()));
    let mut cover: Vec<u8> = vec![0u8; COVER_LEN];
    generate_cover(&mut cover, seed9, clamped);
    frame.extend_from_slice(cover.as_slice());
    frame.extend_from_slice(payload);
    proof {
        lemma_frame_layout(payload@, payload_type, seed9@, strength);
    }
    Ok(frame)
}

/// Writes the frame for `payload` into `out_frame` and returns its length.
/// Nothing is written unless the frame fits.
pub fn pink072_wrap_into(
    payload: &[u8],
    payload_type: u8,
    seed9: &[u8],
    strength: u8,
    out_frame: &mut [u8],
) -> (res: Result<usize, PinkError>)
    ensures
        seed9@.len() != 9 ==> res == Err::<usize, PinkError>(PinkError::SeedLength),
        seed9@.len() == 9 && old(out_frame)@.len() < PREFIX_LEN + payload@.len() ==> res == Err::<
            usize,
            PinkError,
        >(PinkError::BufferTooSmall),
        seed9@.len() == 9 && old(out_frame)@.len() >= PREFIX_LEN + payload@.len() ==> res == Ok::<
            usize,
            PinkError,
        >((PREFIX_LEN + payload@.len()) as usize),
        res is Err ==> final(out_frame)@ == old(out_frame)@,
        res is Ok ==> final(out_frame)@ == splice(
            old(out_frame)@,
            0,
            frame_spec(payload@, payload_type, seed9@, strength),
        ),
        res is Ok ==> final(out_frame)@[3] == clamp_strength(strength),
        res is Ok && strength > 12 ==> final(out_frame)@[3] == 12,
{
    match validate_seed(seed9) {
        Err(e) => { return Err(e); },
        Ok(()) => {},
    }
    let clamped: u8 = if strength < MAX_STRENGTH { strength } else { MAX_STRENGTH };
    if out_frame.len() < PREFIX_LEN || out_frame.len() - PREFIX_LEN < payload.len() {
        return Err(PinkError::BufferTooSmall);
    }
    let total_len: usize = PREFIX_LEN + payload.len();
    let ghost before = out_frame@;
    write_header(out_frame, payload_type, clamped, payload.len());
    write_cover(out_frame, seed9, clamped);
    copy_bytes(out_frame, PREFIX_LEN, payload);
    proof {
        lemma_splice_chain(
            before,
            0,
            header_spec(payload_type, strength, payload@.len()),
            cover_spec(seed9@, clamp_strength(strength)),
            payload@,
        );
        lemma_frame_layout(payload@, payload_type, seed9@, strength);
    }
    Ok(total_len)
}

/// Writes the header into the first bytes of `out_frame`.
fn write_header(out_frame: &mut [u8], payload_type: u8, strength: u8, payload_len: usize)
    requires
        old(out_frame)@.len() >= HEADER_LEN,
        strength <= MAX_STRENGTH,
    ensures
        final(out_frame)@ == splice(
            old(out_frame)@,
            0,
            header_spec(payload_type, strength, payload_len as nat),
        ),
{
    out_frame[0] = FORMAT_VERSION;
    out_frame[1] = payload_type;
    out_frame[2] = BLOCK_SIZE as u8;
    out_frame[3] = strength;
    write_u64_le(out_frame, 4, payload_len as u64);
    zero_bytes(out_frame, 12, HEADER_LEN - 12);
    assert(out_frame@ =~= splice(
        old(out_frame)@,
        0,
        header_spec(payload_type, strength, payload_len as nat),
    ));
}

/// Writes the cover into the bytes of `out_frame` that follow the header.
fn write_cover(out_frame: &mut [u8], seed9: &[u8], strength: u8)
    requires
        old(out_frame)@.len() >= PREFIX_LEN,
        seed9@.len() == 9,
    ensures
        final(out_frame)@ == splice(old(out_frame)@, HEADER_LEN as int, cover_spec(seed9@, strength)),
{
    let (_header, rest) = out_frame.split_at_mut(HEADER_LEN);
    let (cover, _payload) = rest.split_at_mut(COVER_LEN);
    generate_cover(cover, seed9, strength);
    assert(final(out_frame)@ =~= splice(
        old(out_frame)@,
        HEADER_LEN as int,
        cover_spec(seed9@, strength),
    ));
}

/// Parses `frame` into its payload type and a copy of its payload. The
/// cover is skipped, not examined.
pub fn pink072_unwrap(frame: &[u8]) -> (res: Result<(u8, Vec<u8>), PinkError>)
    ensures
        match unwrap_spec(frame@) {
            Ok((payload_type, payload)) => res is Ok && res->Ok_0.0 == payload_type
                && res->Ok_0.1@ == payload,
            Err(e) => res is Err && res->Err_0 == e,
        },
        frame@.len() < HEADER_LEN + COVER_LEN ==> res is Err && res->Err_0
            == PinkError::FrameTooSmall,
        frame@.len() >= HEADER_LEN + COVER_LEN && HEADER_LEN + COVER_LEN + u64_from_le_bytes(
            frame@.subrange(4, 12),
        ) > usize::MAX ==> res is Err && res->Err_0 == PinkError::PayloadLengthOverflow,
        frame@.len() >= HEADER_LEN + COVER_LEN && frame@.len() < HEADER_LEN + COVER_LEN
            + u64_from_le_bytes(frame@.subrange(4, 12)) <= usize::MAX ==> res is Err && res->Err_0
            == PinkError::TruncatedFrame,
{
    if frame.len() < PREFIX_LEN {
        return Err(PinkError::FrameTooSmall);
    }
    let payload_type: u8 = frame[1];
    let declared: u64 = get_u64_le(frame, 4);
    if declared > (usize::MAX - PREFIX_LEN) as u64 {
        return Err(PinkError::PayloadLengthOverflow);
    }
    let payload_len: usize = declared as usize;
    let payload_end: usize = PREFIX_LEN + payload_len;
    if frame.len() < payload_end {
        return Err(PinkError::TruncatedFrame);
    }
    Ok((payload_type, slice_to_vec(slice_subrange(frame, PREFIX_LEN, payload_end))))
}

} // verus!
