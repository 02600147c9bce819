//! A minimal image container for one 72x72 RGBA raster, and the artifact
//! that carries a whole frame behind such a container.

use crate::bytes::{
    get_u32_be, lemma_u32_be_round_trip, put_u16_le, put_u32_be, u16_le_bytes, u32_be_bytes,
    u32_from_be_bytes,
};
use crate::constants::{COVER_HEIGHT, COVER_LEN, COVER_WIDTH, HEADER_LEN, PREFIX_LEN};
use crate::error::PinkError;
use vstd::prelude::*;
use vstd::slice::slice_subrange;

verus! {

/// Length in bytes of the container of a 72x72 raster.
pub const PNG_LEN: usize = 20876;

/// One step of the cyclic redundancy check: shift right by one bit and fold
/// the polynomial in when the bit that left was set.
pub open spec fn crc32_shift(c: u32) -> u32 {
    if c & 1 != 0 {
        (c >> 1) ^ 0xEDB8_8320
    } else {
        c >> 1
    }
}

/// `n` steps of the check, one after the other.
pub open spec fn crc32_shifts(c: u32, n: nat) -> u32
    decreases n,
{
    if n == 0 {
        c
    } else {
        crc32_shift(crc32_shifts(c, (n - 1) as nat))
    }
}

/// The register after the bytes of `data` went through it, starting from all ones.
pub open spec fn crc32_register(data: Seq<u8>) -> u32
    decreases data.len(),
{
    if data.len() == 0 {
        0xFFFF_FFFF
    } else {
        crc32_shifts(crc32_register(data.drop_last()) ^ (data.last() as u32), 8)
    }
}

/// The 32-bit cyclic redundancy check of `data`: the register, inverted.
pub open spec fn crc32_spec(data: Seq<u8>) -> u32 {
    !crc32_register(data)
}

/// The first accumulator of the running-sum checksum: one plus the sum of
/// the bytes, modulo 65521.
pub open spec fn adler_a(data: Seq<u8>) -> nat
    decreases data.len(),
{
    if data.len() == 0 {
        1
    } else {
        (adler_a(data.drop_last()) + data.last() as nat) % 65521
    }
}

/// The second accumulator: the sum of the first accumulator after each
/// byte, modulo 65521.
pub open spec fn adler_b(data: Seq<u8>) -> nat
    decreases data.len(),
{
    if data.len() == 0 {
        0
    } else {
        (adler_b(data.drop_last()) + adler_a(data)) % 65521
    }
}

/// The running-sum checksum of `data`: the second accumulator in the upper
/// sixteen bits, the first in the lower.
pub open spec fn adler32_spec(data: Seq<u8>) -> u32 {
    (adler_b(data) * 65536 + adler_a(data)) as u32
}

/// Computes the 32-bit cyclic redundancy check of `data`.
pub fn crc32(data: &[u8]) -> (crc: u32)
    ensures
        crc == crc32_spec(data@),
{
    let mut reg: u32 = 0xFFFF_FFFF;
    let mut i: usize = 0;
    while i < data.len()
        invariant
            i <= data@.len(),
            reg == crc32_register(data@.subrange(0, i as int)),
        decreases data@.len() - i,
    {
        let ghost before = reg ^ (data@[i as int] as u32);
        reg ^= data[i] as u32;
        let mut k: u8 = 0;
        while k < 8
            invariant
                k <= 8,
                reg == crc32_shifts(before, k as nat),
            decreases 8 - k,
        {
            reg = if reg & 1 != 0 {
                (reg >> 1) ^ 0xEDB8_8320
            } else {
                reg >> 1
            };
            k += 1;
        }
        proof {
            let next = data@.subrange(0, i + 1);
            assert(next.drop_last() == data@.subrange(0, i as int));
            assert(next.last() == data@[i as int]);
        }
        i += 1;
    }
    assert(data@.subrange(0, i as int) == data@);
    !reg
}

/// Computes the running-sum checksum of `data`.
pub fn adler32(data: &[u8]) -> (sum: u32)
    ensures
        sum == adler32_spec(data@),
{
    let mut a: u32 = 1;
    let mut b: u32 = 0;
    let mut i: usize = 0;
    while i < data.len()
        invariant
            i <= data@.len(),
            a == adler_a(data@.subrange(0, i as int)),
            b == adler_b(data@.subrange(0, i as int)),
            a < 65521,
            b < 65521,
        decreases data@.len() - i,
    {
        proof {
            let next = data@.subrange(0, i + 1);
            assert(next.drop_last() == data@.subrange(0, i as int));
            assert(next.last() == data@[i as int]);
        }
        a = (a + data[i] as u32) % 65521;
        b = (b + a) % 65521;
        i += 1;
    }
    assert(data@.subrange(0, i as int) == data@);
    b * 65536 + a
}

/// The eight bytes with which every container starts.
pub open spec fn png_signature() -> Seq<u8> {
    seq![0x89u8, 0x50u8, 0x4Eu8, 0x47u8, 0x0Du8, 0x0Au8, 0x1Au8, 0x0Au8]
}

/// The tag of the header chunk.
pub open spec fn tag_ihdr() -> Seq<u8> {
    seq![0x49u8, 0x48u8, 0x44u8, 0x52u8]
}

/// The tag of the pixel-data chunk.
pub open spec fn tag_idat() -> Seq<u8> {
    seq![0x49u8, 0x44u8, 0x41u8, 0x54u8]
}

/// The tag of the chunk that ends a container.
pub open spec fn tag_iend() -> Seq<u8> {
    seq![0x49u8, 0x45u8, 0x4Eu8, 0x44u8]
}

/// One chunk: the length of the data, the tag, the data, and the check of
/// tag and data together.
pub open spec fn chunk_spec(tag: Seq<u8>, data: Seq<u8>) -> Seq<u8> {
    u32_be_bytes(data.len() as u32) + tag + data + u32_be_bytes(crc32_spec(tag + data))
}

/// The data of the header chunk: width, height, eight bits for each of four
/// channels, and three zero flags.
pub open spec fn ihdr_spec() -> Seq<u8> {
    u32_be_bytes(COVER_WIDTH as u32) + u32_be_bytes(COVER_HEIGHT as u32) + seq![
        8u8,
        6u8,
        0u8,
        0u8,
        0u8,
    ]
}

/// The first `rows` scanlines of the raster, each behind a zero filter byte.
pub open spec fn scanlines_spec(rgba: Seq<u8>, rows: nat) -> Seq<u8>
    decreases rows,
{
    if rows == 0 {
        Seq::empty()
    } else {
        scanlines_spec(rgba, (rows - 1) as nat) + seq![0u8] + rgba.subrange(
            (rows - 1) * (COVER_WIDTH * 4),
            rows * (COVER_WIDTH * 4),
        )
    }
}

/// `raw` cut into stored blocks of at most 65535 bytes: a flag that is one
/// on the last block, the block's length, its complement, and the bytes.
pub open spec fn stored_blocks_spec(raw: Seq<u8>) -> Seq<u8>
    decreases raw.len(),
{
    if raw.len() == 0 {
        Seq::empty()
    } else {
        let n: int = if raw.len() < 65535 {
            raw.len() as int
        } else {
            65535
        };
        seq![if n == raw.len() { 1u8 } else { 0u8 }] + u16_le_bytes(n as u16) + u16_le_bytes(
            (65535 - n) as u16,
        ) + raw.subrange(0, n) + stored_blocks_spec(raw.subrange(n, raw.len() as int))
    }
}

/// `raw` as an uncompressed bitstream: two header bytes, the stored blocks,
/// and the running-sum checksum of `raw`.
pub open spec fn zlib_stored_spec(raw: Seq<u8>) -> Seq<u8> {
    seq![0x78u8, 0x01u8] + stored_blocks_spec(raw) + u32_be_bytes(adler32_spec(raw))
}

/// The container for the raster `rgba`: signature, header chunk, pixel-data
/// chunk and end chunk.
pub open spec fn png_spec(rgba: Seq<u8>) -> Seq<u8> {
    png_signature() + chunk_spec(tag_ihdr(), ihdr_spec()) + chunk_spec(
        tag_idat(),
        zlib_stored_spec(scanlines_spec(rgba, COVER_HEIGHT as nat)),
    ) + chunk_spec(tag_iend(), Seq::empty())
}

/// The scanlines of `rows` rows take 289 bytes each.
pub proof fn lemma_scanlines_len(rgba: Seq<u8>, rows: nat)
    requires
        rows * 288 <= rgba.len(),
    ensures
        scanlines_spec(rgba, rows).len() == rows * 289,
    decreases rows,
{
    if rows > 0 {
        lemma_scanlines_len(rgba, (rows - 1) as nat);
    }
}

/// A stream that fits one block is stored as that one block, marked last.
pub proof fn lemma_stored_single_block(raw: Seq<u8>)
    requires
        0 < raw.len() <= 65535,
    ensures
        stored_blocks_spec(raw) == seq![1u8] + u16_le_bytes(raw.len() as u16) + u16_le_bytes(
            (65535 - raw.len()) as u16,
        ) + raw,
{
    let n = raw.len() as int;
    assert(raw.subrange(0, n) == raw);
    assert(raw.subrange(n, n).len() == 0);
    reveal_with_fuel(stored_blocks_spec, 2);
    assert(stored_blocks_spec(raw.subrange(n, n)) == Seq::<u8>::empty());
    assert(stored_blocks_spec(raw) =~= seq![1u8] + u16_le_bytes(raw.len() as u16) + u16_le_bytes(
        (65535 - raw.len()) as u16,
    ) + raw);
}

/// Appends one chunk with the tag `chunk_type` and the data `data` to `out`.
pub fn write_chunk(out: &mut Vec<u8>, chunk_type: &[u8; 4], data: &[u8])
    requires
        data@.len() <= u32::MAX,
    ensures
        final(out)@ == old(out)@ + chunk_spec(chunk_type@, data@),
{
    put_u32_be(out, data.len() as u32);
    out.extend_from_slice(chunk_type.as_slice());
    out.extend_from_slice(data);
    let mut crc_data: Vec<u8> = Vec::new();
    crc_data.extend_from_slice(chunk_type.as_slice());
    crc_data.extend_from_slice(data);
    assert(crc_data@ == chunk_type@ + data@);
    put_u32_be(out, crc32(crc_data.as_slice()));
    assert(final(out)@ == old(out)@ + chunk_spec(chunk_type@, data@));
}

/// Lays the rows of the raster out as scanlines, each behind a zero filter byte.
fn scanlines(rgba: &[u8]) -> (raw: Vec<u8>)
    requires
        rgba@.len() == COVER_LEN,
    ensures
        raw@ == scanlines_spec(rgba@, COVER_HEIGHT as nat),
        raw@.len() == 20808,
{
    let mut raw: Vec<u8> = Vec::new();
    let mut y: usize = 0;
    while y < COVER_HEIGHT
        invariant
            y <= COVER_HEIGHT,
            rgba@.len() == COVER_LEN,
            raw@ == scanlines_spec(rgba@, y as nat),
        decreases COVER_HEIGHT - y,
    {
        raw.push(0);
        let start: usize = y * COVER_WIDTH * 4;
        raw.extend_from_slice(slice_subrange(rgba, start, start + COVER_WIDTH * 4));
        y += 1;
    }
    proof {
        lemma_scanlines_len(rgba@, COVER_HEIGHT as nat);
    }
    raw
}

/// Wraps `raw` as an uncompressed bitstream of stored blocks.
fn zlib_stored(raw: &[u8]) -> (zlib: Vec<u8>)
    ensures
        zlib@ == zlib_stored_spec(raw@),
{
    let mut zlib: Vec<u8> = Vec::new();
    zlib.push(0x78);
    zlib.push(0x01);
    let mut pos: usize = 0;
    assert(zlib@ == seq![0x78u8, 0x01u8]);
    assert(raw@.subrange(0, raw@.len() as int) == raw@);
    while pos < raw.len()
        invariant
            pos <= raw@.len(),
            zlib@ + stored_blocks_spec(raw@.subrange(pos as int, raw@.len() as int)) == seq![
                0x78u8,
                0x01u8,
            ] + stored_blocks_spec(raw@),
        decreases raw@.len() - pos,
    {
        let remaining: usize = raw.len() - pos;
        let block_size: usize = if remaining < 65535 {
            remaining
        } else {
            65535
        };
        let is_last: bool = block_size == remaining;
        let ghost rest = raw@.subrange(pos as int, raw@.len() as int);
        let ghost before = zlib@;
        zlib.push(if is_last { 1 } else { 0 });
        put_u16_le(&mut zlib, block_size as u16);
        put_u16_le(&mut zlib, (65535 - block_size) as u16);
        zlib.extend_from_slice(slice_subrange(raw, pos, pos + block_size));
        proof {
            let n = block_size as int;
            assert(rest.subrange(0, n) == raw@.subrange(pos as int, pos + n));
            assert(rest.subrange(n, rest.len() as int) == raw@.subrange(
                pos + n,
                raw@.len() as int,
            ));
            let block = seq![if n == rest.len() { 1u8 } else { 0u8 }] + u16_le_bytes(n as u16)
                + u16_le_bytes((65535 - n) as u16) + rest.subrange(0, n);
            assert(zlib@ == before + block);
            assert(stored_blocks_spec(rest) == block + stored_blocks_spec(
                rest.subrange(n, rest.len() as int),
            ));
            assert(zlib@ + stored_blocks_spec(rest.subrange(n, rest.len() as int)) == before
                + stored_blocks_spec(rest));
        }
        pos += block_size;
    }
    assert(raw@.subrange(pos as int, raw@.len() as int).len() == 0);
    assert(zlib@ == seq![0x78u8, 0x01u8] + stored_blocks_spec(raw@));
    put_u32_be(&mut zlib, adler32(raw));
    zlib
}

/// Encodes the 72x72 RGBA raster `rgba` as a container.
pub fn encode_png(rgba: &[u8]) -> (out: Vec<u8>)
    requires
        rgba@.len() == COVER_LEN,
    ensures
        out@ == png_spec(rgba@),
        out@.len() == PNG_LEN,
{
    let mut out: Vec<u8> = Vec::new();
    let signature: [u8; 8] = [0x89, 0x50, 0x4E, 0x47, 0x0D, 0x0A, 0x1A, 0x0A];
    out.extend_from_slice(signature.as_slice());
    assert(out@ == png_signature());

    let mut ihdr: Vec<u8> = Vec::new();
    put_u32_be(&mut ihdr, COVER_WIDTH as u32);
    put_u32_be(&mut ihdr, COVER_HEIGHT as u32);
    ihdr.push(8);
    ihdr.push(6);
    ihdr.push(0);
    ihdr.push(0);
    ihdr.push(0);
    assert(ihdr@ == ihdr_spec());
    let tag_header: [u8; 4] = [0x49, 0x48, 0x44, 0x52];
    assert(tag_header@ == tag_ihdr());
    write_chunk(&mut out, &tag_header, ihdr.as_slice());

    let raw = scanlines(rgba);
    let zlib = zlib_stored(raw.as_slice());
    proof {
        lemma_png_len(rgba@);
    }
    let tag_data: [u8; 4] = [0x49, 0x44, 0x41, 0x54];
    assert(tag_data@ == tag_idat());
    write_chunk(&mut out, &tag_data, zlib.as_slice());

    let tag_end: [u8; 4] = [0x49, 0x45, 0x4E, 0x44];
    assert(tag_end@ == tag_iend());
    let nothing: Vec<u8> = Vec::new();
    write_chunk(&mut out, &tag_end, nothing.as_slice());
    out
}

/// The lengths of the parts of a container.
pub proof fn lemma_png_len(rgba: Seq<u8>)
    requires
        rgba.len() == COVER_LEN,
    ensures
        zlib_stored_spec(scanlines_spec(rgba, COVER_HEIGHT as nat)).len() == 20819,
        chunk_spec(tag_ihdr(), ihdr_spec()).len() == 25,
        chunk_spec(tag_iend(), Seq::empty()).len() == 12,
        png_spec(rgba).len() == PNG_LEN,
{
    lemma_scanlines_len(rgba, COVER_HEIGHT as nat);
    lemma_stored_single_block(scanlines_spec(rgba, COVER_HEIGHT as nat));
}

/// Whether `data` starts with the container signature.
pub open spec fn has_signature(data: Seq<u8>) -> bool {
    data.len() >= 8 && data.subrange(0, 8) == png_signature()
}

/// Walks the chunks of `data` from the offset `pos` on, checking no
/// checksum: the offset just past the end chunk, or `None` where a chunk
/// runs past the data or the data ends before an end chunk was seen.
pub open spec fn scan_chunks(data: Seq<u8>, pos: int) -> Option<int>
    decreases data.len() - pos,
{
    if pos < 0 || pos + 12 > data.len() {
        None
    } else {
        let end = pos + 12 + u32_from_be_bytes(data.subrange(pos, pos + 4));
        if end > data.len() {
            None
        } else if data.subrange(pos + 4, pos + 8) == tag_iend() {
            Some(end)
        } else {
            scan_chunks(data, end)
        }
    }
}

/// The offset just past the container with which `data` starts, if it
/// starts with one.
pub open spec fn png_end_spec(data: Seq<u8>) -> Option<int> {
    if has_signature(data) {
        scan_chunks(data, 8)
    } else {
        None
    }
}

/// The artifact for `frame`: the container of the frame's cover, then the
/// whole frame.
pub open spec fn pnk_spec(frame: Seq<u8>) -> Seq<u8> {
    png_spec(frame.subrange(HEADER_LEN as int, PREFIX_LEN as int)) + frame
}

/// The frame carried by the artifact `data`: what follows the container,
/// if a container is there and anything follows it.
pub open spec fn decode_pnk_spec(data: Seq<u8>) -> Option<Seq<u8>> {
    match png_end_spec(data) {
        Some(end) => if end < data.len() {
            Some(data.subrange(end, data.len() as int))
        } else {
            None
        },
        None => None,
    }
}

/// Finds the offset just past the container with which `data` starts.
pub fn find_png_end(data: &[u8]) -> (res: Result<usize, PinkError>)
    ensures
        match png_end_spec(data@) {
            Some(end) => res == Ok::<usize, PinkError>(end as usize) && 20 <= end <= data@.len(),
            None => res == Err::<usize, PinkError>(PinkError::InvalidFormat),
        },
{
    if data.len() < 8 {
        return Err(PinkError::InvalidFormat);
    }
    if !(data[0] == 0x89 && data[1] == 0x50 && data[2] == 0x4E && data[3] == 0x47 && data[4]
        == 0x0D && data[5] == 0x0A && data[6] == 0x1A && data[7] == 0x0A) {
        proof {
            let head = data@.subrange(0, 8);
            assert(head[0] == data@[0] && head[1] == data@[1] && head[2] == data@[2] && head[3]
                == data@[3] && head[4] == data@[4] && head[5] == data@[5] && head[6] == data@[6]
                && head[7] == data@[7]);
        }
        return Err(PinkError::InvalidFormat);
    }
    assert(data@.subrange(0, 8) == png_signature());

    let mut pos: usize = 8;
    while data.len() - pos >= 12
        invariant
            8 <= pos <= data@.len(),
            scan_chunks(data@, pos as int) == png_end_spec(data@),
        decreases data@.len() - pos,
    {
        let len: usize = get_u32_be(data, pos) as usize;
        if len > data.len() - pos - 12 {
            return Err(PinkError::InvalidFormat);
        }
        let chunk_end: usize = pos + 12 + len;
        let is_end: bool = data[pos + 4] == 0x49 && data[pos + 5] == 0x45 && data[pos + 6] == 0x4E
            && data[pos + 7] == 0x44;
        proof {
            let tag = data@.subrange(pos + 4, pos + 8);
            assert(tag[0] == data@[pos + 4] && tag[1] == data@[pos + 5] && tag[2] == data@[pos
                + 6] && tag[3] == data@[pos + 7]);
            if is_end {
                assert(tag =~= tag_iend());
            }
            if tag == tag_iend() {
                assert(tag_iend()[0] == 0x49 && tag_iend()[1] == 0x45 && tag_iend()[2] == 0x4E
                    && tag_iend()[3] == 0x44);
            }
        }
        if is_end {
            return Ok(chunk_end);
        }
        pos = chunk_end;
    }
    Err(PinkError::InvalidFormat)
}

/// Encodes `frame` as an artifact: the container of its cover, then the frame.
pub fn encode_pnk(frame: &[u8]) -> (out: Vec<u8>)
    requires
        frame@.len() >= PREFIX_LEN,
    ensures
        out@ == pnk_spec(frame@),
        out@.len() == PNG_LEN + frame@.len(),
        out@.subrange(0, 8) == png_signature(),
{
    let cover = slice_subrange(frame, HEADER_LEN, PREFIX_LEN);
    let mut out = encode_png(cover);
    out.extend_from_slice(frame);
    assert(out@.subrange(0, 8) == png_signature());
    out
}

/// Extracts the frame that the artifact `data` carries.
pub fn decode_pnk(data: &[u8]) -> (res: Result<&[u8], PinkError>)
    ensures
        match decode_pnk_spec(data@) {
            Some(frame) => res is Ok && res->Ok_0@ == frame,
            None => res is Err && res->Err_0 == PinkError::InvalidFormat,
        },
{
    match find_png_end(data) {
        Ok(png_end) => {
            if png_end >= data.len() {
                Err(PinkError::InvalidFormat)
            } else {
                Ok(slice_subrange(data, png_end, data.len()))
            }
        },
        Err(e) => Err(e),
    }
}

/// The end chunk is what the scan stops at; the other two tags are not.
proof fn lemma_tags_differ()
    ensures
        tag_ihdr() != tag_iend(),
        tag_idat() != tag_iend(),
{
    assert(tag_ihdr()[1] != tag_iend()[1]);
    assert(tag_idat()[1] != tag_iend()[1]);
}

/// The scan, begun at a chunk that lies whole in `data`, steps over it, or
/// stops behind it where it is the end chunk.
proof fn lemma_scan_step(data: Seq<u8>, pos: int, tag: Seq<u8>, body: Seq<u8>)
    requires
        0 <= pos,
        tag.len() == 4,
        body.len() <= u32::MAX,
        pos + chunk_spec(tag, body).len() <= data.len(),
        data.subrange(pos, pos + chunk_spec(tag, body).len()) == chunk_spec(tag, body),
    ensures
        chunk_spec(tag, body).len() == 12 + body.len(),
        scan_chunks(data, pos) == if tag == tag_iend() {
            Some(pos + 12 + body.len())
        } else {
            scan_chunks(data, pos + 12 + body.len())
        },
{
    let chunk = chunk_spec(tag, body);
    let n = body.len() as u32;
    lemma_u32_be_round_trip(n);
    assert(chunk.len() == 12 + body.len());
    assert(data.subrange(pos, pos + 4) == u32_be_bytes(n)) by {
        assert(data.subrange(pos, pos + 4) =~= chunk.subrange(0, 4));
        assert(chunk.subrange(0, 4) =~= u32_be_bytes(n));
    }
    assert(data.subrange(pos + 4, pos + 8) == tag) by {
        assert(data.subrange(pos + 4, pos + 8) =~= chunk.subrange(4, 8));
        assert(chunk.subrange(4, 8) =~= tag);
    }
}

/// Decoding the artifact of a frame gives the frame back, and the artifact
/// starts with the container signature.
pub proof fn lemma_pnk_round_trip(frame: Seq<u8>)
    requires
        frame.len() >= PREFIX_LEN,
    ensures
        decode_pnk_spec(pnk_spec(frame)) == Some(frame),
        pnk_spec(frame).subrange(0, 8) == png_signature(),
        pnk_spec(frame).len() == PNG_LEN + frame.len(),
{
    let rgba = frame.subrange(HEADER_LEN as int, PREFIX_LEN as int);
    let data = pnk_spec(frame);
    let c1 = chunk_spec(tag_ihdr(), ihdr_spec());
    let zlib = zlib_stored_spec(scanlines_spec(rgba, COVER_HEIGHT as nat));
    let c2 = chunk_spec(tag_idat(), zlib);
    let c3 = chunk_spec(tag_iend(), Seq::empty());
    lemma_png_len(rgba);
    lemma_tags_differ();
    assert(data == png_signature() + c1 + c2 + c3 + frame);
    assert(data.subrange(0, 8) =~= png_signature());
    assert(data.subrange(8, 33) =~= c1);
    assert(data.subrange(33, 20864) =~= c2);
    assert(data.subrange(20864, 20876) =~= c3);
    assert(data.subrange(20876, data.len() as int) =~= frame);
    lemma_scan_step(data, 8, tag_ihdr(), ihdr_spec());
    lemma_scan_step(data, 33, tag_idat(), zlib);
    lemma_scan_step(data, 20864, tag_iend(), Seq::empty());
}

} // verus!
