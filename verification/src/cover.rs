//! The cover raster: 72x72 RGBA pixels made from a seed and a strength
//! alone, by a noise fill, a permutation of 16x16 tiles and a bounded
//! jitter of the colour channels.

use crate::bytes::{copy_bytes, splice};
use crate::constants::{BLOCK_SIZE, COVER_LEN, COVER_WIDTH};
use crate::error::PinkError;
use crate::rng::{
    generate_permutation, is_permutation, lemma_permutation_is_permutation, permutation_spec,
    rng_iter, seed9_to_u64, seed_state, xorshift64,
};
use vstd::prelude::*;
use vstd::slice::{slice_subrange, slice_to_vec};

verus! {

/// Number of pixels in the cover.
pub const COVER_PIXELS: usize = 5184;

/// Number of tiles along one side of the cover; those at the far edge are partial.
pub const BLOCKS_PER_SIDE: usize = 5;

/// Number of tiles in the cover.
pub const BLOCK_COUNT: usize = 25;

/// Number of draws that the noise fill takes: three for each pixel.
pub const NOISE_DRAWS: usize = 15552;

/// The byte that a draw gives: its low eight bits.
pub open spec fn draw_byte(draw: u64) -> u8 {
    (draw % 256) as u8
}

/// Byte `i` of the noise raster drawn from the state `s0`: each pixel takes
/// three draws in turn for red, green and blue, and its alpha is 0xFF.
pub open spec fn noise_byte(s0: u64, i: int) -> u8 {
    if i % 4 == 3 {
        0xFFu8
    } else {
        draw_byte(rng_iter(s0, (3 * (i / 4) + i % 4 + 1) as nat))
    }
}

/// The noise raster drawn from the state `s0`.
pub open spec fn noise_spec(s0: u64) -> Seq<u8> {
    Seq::new(COVER_LEN as nat, |i: int| noise_byte(s0, i))
}

/// The horizontal origin, in pixels, of the tile with index `b`.
pub open spec fn block_x(b: int) -> int {
    (b % (BLOCKS_PER_SIDE as int)) * (BLOCK_SIZE as int)
}

/// The vertical origin, in pixels, of the tile with index `b`.
pub open spec fn block_y(b: int) -> int {
    (b / (BLOCKS_PER_SIDE as int)) * (BLOCK_SIZE as int)
}

/// How far a tile that begins at `origin` reaches before the canvas ends.
/// The canvas is square, so this holds along either axis.
pub open spec fn block_extent(origin: int) -> int {
    if COVER_WIDTH - origin < BLOCK_SIZE {
        COVER_WIDTH - origin
    } else {
        BLOCK_SIZE as int
    }
}

/// The extent that source and destination both have.
pub open spec fn clipped_extent(src_origin: int, dst_origin: int) -> int {
    if block_extent(src_origin) < block_extent(dst_origin) {
        block_extent(src_origin)
    } else {
        block_extent(dst_origin)
    }
}

/// The offset of the first byte of the pixel at column `x` and row `y`.
pub open spec fn pixel_offset(x: int, y: int) -> int {
    4 * (y * (COVER_WIDTH as int) + x)
}

/// `dst` after the first `rows` pixel rows of the tile `s` of `src` were
/// copied to the tile `d`, each row clipped to the width that both tiles have.
pub open spec fn copy_block_rows(dst: Seq<u8>, src: Seq<u8>, s: int, d: int, rows: nat) -> Seq<u8>
    decreases rows,
{
    if rows == 0 {
        dst
    } else {
        let row = rows - 1;
        let from = pixel_offset(block_x(s), block_y(s) + row);
        splice(
            copy_block_rows(dst, src, s, d, row as nat),
            pixel_offset(block_x(d), block_y(d) + row),
            src.subrange(from, from + 4 * clipped_extent(block_x(s), block_x(d))),
        )
    }
}

/// `dst` after the tile `s` of `src` was copied to the tile `d`, clipped to
/// the width and the height that both tiles have.
pub open spec fn copy_block(dst: Seq<u8>, src: Seq<u8>, s: int, d: int) -> Seq<u8> {
    copy_block_rows(dst, src, s, d, clipped_extent(block_y(s), block_y(d)) as nat)
}

/// The noise raster after its first `k` tiles were copied, each to the
/// tile that `perm` gives for it. Pixels that no copy reaches keep the noise.
pub open spec fn shuffled_blocks(noise: Seq<u8>, perm: Seq<usize>, k: nat) -> Seq<u8>
    decreases k,
{
    if k == 0 {
        noise
    } else {
        copy_block(shuffled_blocks(noise, perm, (k - 1) as nat), noise, k - 1, perm[k - 1] as int)
    }
}

/// The largest shift of the red channel at this strength.
pub open spec fn max_red(strength: u8) -> int {
    if strength < 12 {
        strength as int
    } else {
        12
    }
}

/// The largest shift of the green channel at this strength.
pub open spec fn max_green(strength: u8) -> int {
    if strength / 2 < 6 {
        (strength / 2) as int
    } else {
        6
    }
}

/// The largest shift of the blue channel at this strength.
pub open spec fn max_blue(strength: u8) -> int {
    if strength * 5 / 6 < 10 {
        strength * 5 / 6
    } else {
        10
    }
}

/// Byte `i` of the raster `base` after the jitter drawn from the state
/// `s`: each pixel takes three draws, each reduced to a byte and then
/// modulo the channel's ceiling plus one. Red rises by its shift and stops
/// at 255, green and blue fall by theirs and stop at 0, alpha stays.
pub open spec fn jitter_byte(base: Seq<u8>, s: u64, strength: u8, i: int) -> u8 {
    let channel = i % 4;
    let draw = draw_byte(rng_iter(s, (3 * (i / 4) + channel + 1) as nat)) as int;
    if channel == 0 {
        let raised = base[i] + draw % (max_red(strength) + 1);
        if raised > 255 {
            255u8
        } else {
            raised as u8
        }
    } else if channel == 1 {
        let lowered = base[i] - draw % (max_green(strength) + 1);
        if lowered < 0 {
            0u8
        } else {
            lowered as u8
        }
    } else if channel == 2 {
        let lowered = base[i] - draw % (max_blue(strength) + 1);
        if lowered < 0 {
            0u8
        } else {
            lowered as u8
        }
    } else {
        base[i]
    }
}

/// The raster `base` after the jitter drawn from the state `s`.
pub open spec fn jitter_spec(base: Seq<u8>, s: u64, strength: u8) -> Seq<u8> {
    Seq::new(COVER_LEN as nat, |i: int| jitter_byte(base, s, strength, i))
}

/// The cover for a seed and a strength: the noise drawn from the expanded
/// seed, its tiles moved by the permutation that the next draws give, and
/// the jitter that the draws after those give.
pub open spec fn cover_spec(seed: Seq<u8>, strength: u8) -> Seq<u8>
    recommends
        seed.len() == 9,
{
    let s0 = seed_state(seed);
    let s1 = rng_iter(s0, NOISE_DRAWS as nat);
    let perm = permutation_spec(s1, BLOCK_COUNT as nat);
    let s2 = rng_iter(s1, (BLOCK_COUNT - 1) as nat);
    jitter_spec(shuffled_blocks(noise_spec(s0), perm, BLOCK_COUNT as nat), s2, strength)
}

/// Whether every pixel of `raster` has the alpha 0xFF.
pub open spec fn is_opaque(raster: Seq<u8>) -> bool {
    forall|i: int| 0 <= i < raster.len() && i % 4 == 3 ==> raster[i] == 0xFFu8
}

/// Copying rows of a tile keeps the length of the raster, and keeps every
/// alpha at 0xFF where source and destination had it so.
pub proof fn lemma_copy_block_rows_opaque(dst: Seq<u8>, src: Seq<u8>, s: int, d: int, rows: nat)
    requires
        dst.len() == COVER_LEN,
        src.len() == COVER_LEN,
        is_opaque(dst),
        is_opaque(src),
        0 <= s < BLOCK_COUNT,
        0 <= d < BLOCK_COUNT,
        rows <= clipped_extent(block_y(s), block_y(d)),
    ensures
        copy_block_rows(dst, src, s, d, rows).len() == COVER_LEN,
        is_opaque(copy_block_rows(dst, src, s, d, rows)),
    decreases rows,
{
    if rows > 0 {
        let row = rows - 1;
        lemma_copy_block_rows_opaque(dst, src, s, d, row as nat);
        let before = copy_block_rows(dst, src, s, d, row as nat);
        let from = pixel_offset(block_x(s), block_y(s) + row);
        let to = pixel_offset(block_x(d), block_y(d) + row);
        let width = clipped_extent(block_x(s), block_x(d));
        let part = src.subrange(from, from + 4 * width);
        let after = splice(before, to, part);
        assert(0 <= from && from + 4 * width <= COVER_LEN);
        assert(0 <= to && to + 4 * width <= COVER_LEN);
        assert(after.len() == COVER_LEN);
        assert forall|i: int| 0 <= i < after.len() && i % 4 == 3 implies after[i] == 0xFFu8 by {
            if to <= i < to + 4 * width {
                assert(after[i] == src[from + (i - to)]);
                assert((from + (i - to)) % 4 == 3);
            } else {
                assert(after[i] == before[i]);
            }
        }
    }
}

/// Moving tiles of an opaque raster leaves an opaque raster of the same length.
pub proof fn lemma_shuffled_blocks_opaque(noise: Seq<u8>, perm: Seq<usize>, k: nat)
    requires
        noise.len() == COVER_LEN,
        is_opaque(noise),
        is_permutation(perm, BLOCK_COUNT as nat),
        k <= BLOCK_COUNT,
    ensures
        shuffled_blocks(noise, perm, k).len() == COVER_LEN,
        is_opaque(shuffled_blocks(noise, perm, k)),
    decreases k,
{
    if k > 0 {
        lemma_shuffled_blocks_opaque(noise, perm, (k - 1) as nat);
        let d = perm[k - 1] as int;
        lemma_copy_block_rows_opaque(
            shuffled_blocks(noise, perm, (k - 1) as nat),
            noise,
            k - 1,
            d,
            clipped_extent(block_y(k - 1), block_y(d)) as nat,
        );
    }
}

/// Every cover has 20736 bytes, and every pixel of it the alpha 0xFF.
pub proof fn lemma_cover_shape(seed: Seq<u8>, strength: u8)
    ensures
        cover_spec(seed, strength).len() == COVER_LEN,
        is_opaque(cover_spec(seed, strength)),
{
    let s0 = seed_state(seed);
    let s1 = rng_iter(s0, NOISE_DRAWS as nat);
    let perm = permutation_spec(s1, BLOCK_COUNT as nat);
    lemma_permutation_is_permutation(s1, BLOCK_COUNT as nat);
    lemma_shuffled_blocks_opaque(noise_spec(s0), perm, BLOCK_COUNT as nat);
}

/// Accepts a seed of exactly nine bytes.
pub fn validate_seed(seed9: &[u8]) -> (res: Result<(), PinkError>)
    ensures
        seed9@.len() == 9 ==> res == Ok::<(), PinkError>(()),
        seed9@.len() != 9 ==> res == Err::<(), PinkError>(PinkError::SeedLength),
{
    if seed9.len() != 9 {
        Err(PinkError::SeedLength)
    } else {
        Ok(())
    }
}

/// Fills `buf` with noise: three drawn bytes and a full alpha for each pixel.
fn fill_noise(buf: &mut [u8], state: &mut u64)
    requires
        old(buf)@.len() == COVER_LEN,
    ensures
        final(buf)@ == noise_spec(*old(state)),
        *final(state) == rng_iter(*old(state), NOISE_DRAWS as nat),
{
    let ghost s0 = *state;
    let mut p: usize = 0;
    while p < COVER_PIXELS
        invariant
            p <= COVER_PIXELS,
            buf@.len() == COVER_LEN,
            *state == rng_iter(s0, (3 * p) as nat),
            forall|i: int| 0 <= i < 4 * p ==> buf@[i] == noise_byte(s0, i),
        decreases COVER_PIXELS - p,
    {
        let base: usize = p * 4;
        let r: u64 = xorshift64(state);
        let g: u64 = xorshift64(state);
        let b: u64 = xorshift64(state);
        proof {
            reveal_with_fuel(rng_iter, 4);
            assert(r == rng_iter(s0, (3 * p + 1) as nat));
            assert(g == rng_iter(s0, (3 * p + 2) as nat));
            assert(b == rng_iter(s0, (3 * p + 3) as nat));
        }
        buf[base] = (r % 256) as u8;
        buf[base + 1] = (g % 256) as u8;
        buf[base + 2] = (b % 256) as u8;
        buf[base + 3] = 0xFF;
        p += 1;
    }
    assert(buf@ =~= noise_spec(s0));
}

/// Copies each tile of `noise` to the tile of `buf` that `perm` gives for it.
fn shuffle_blocks(buf: &mut [u8], noise: &[u8], perm: &Vec<usize>)
    requires
        old(buf)@ == noise@,
        noise@.len() == COVER_LEN,
        is_permutation(perm@, BLOCK_COUNT as nat),
    ensures
        final(buf)@ == shuffled_blocks(noise@, perm@, BLOCK_COUNT as nat),
        final(buf)@.len() == COVER_LEN,
{
    let mut s: usize = 0;
    while s < BLOCK_COUNT
        invariant
            s <= BLOCK_COUNT,
            noise@.len() == COVER_LEN,
            buf@.len() == COVER_LEN,
            is_permutation(perm@, BLOCK_COUNT as nat),
            buf@ == shuffled_blocks(noise@, perm@, s as nat),
        decreases BLOCK_COUNT - s,
    {
        let d: usize = perm[s];
        let sx: usize = (s % BLOCKS_PER_SIDE) * BLOCK_SIZE;
        let sy: usize = (s / BLOCKS_PER_SIDE) * BLOCK_SIZE;
        let dx: usize = (d % BLOCKS_PER_SIDE) * BLOCK_SIZE;
        let dy: usize = (d / BLOCKS_PER_SIDE) * BLOCK_SIZE;
        let w: usize = min_usize(extent(sx), extent(dx));
        let h: usize = min_usize(extent(sy), extent(dy));
        let ghost base = buf@;
        let mut row: usize = 0;
        while row < h
            invariant
                row <= h,
                s < BLOCK_COUNT,
                d < BLOCK_COUNT,
                sx == block_x(s as int),
                sy == block_y(s as int),
                dx == block_x(d as int),
                dy == block_y(d as int),
                w == clipped_extent(sx as int, dx as int),
                h == clipped_extent(sy as int, dy as int),
                noise@.len() == COVER_LEN,
                buf@.len() == COVER_LEN,
                buf@ == copy_block_rows(base, noise@, s as int, d as int, row as nat),
            decreases h - row,
        {
            let from: usize = 4 * ((sy + row) * COVER_WIDTH + sx);
            let to: usize = 4 * ((dy + row) * COVER_WIDTH + dx);
            copy_bytes(buf, to, slice_subrange(noise, from, from + 4 * w));
            row += 1;
        }
        s += 1;
    }
}

/// How far a tile that begins at `origin` reaches before the canvas ends.
fn extent(origin: usize) -> (e: usize)
    requires
        origin < COVER_WIDTH,
    ensures
        e == block_extent(origin as int),
{
    if COVER_WIDTH - origin < BLOCK_SIZE {
        COVER_WIDTH - origin
    } else {
        BLOCK_SIZE
    }
}

/// The smaller of two sizes.
fn min_usize(a: usize, b: usize) -> (m: usize)
    ensures
        m == if a < b { a } else { b },
{
    if a < b {
        a
    } else {
        b
    }
}

/// Shifts the colour channels of every pixel of `buf` by drawn amounts.
fn apply_jitter(buf: &mut [u8], state: &mut u64, strength: u8)
    requires
        old(buf)@.len() == COVER_LEN,
    ensures
        final(buf)@ == jitter_spec(old(buf)@, *old(state), strength),
{
    let ghost s0 = *state;
    let ghost base = buf@;
    let max_r: u32 = if strength < 12 { strength as u32 } else { 12 };
    let max_g: u32 = if strength / 2 < 6 { (strength / 2) as u32 } else { 6 };
    let max_b: u32 = if (strength as u32) * 5 / 6 < 10 { (strength as u32) * 5 / 6 } else { 10 };
    let mut p: usize = 0;
    while p < COVER_PIXELS
        invariant
            p <= COVER_PIXELS,
            buf@.len() == COVER_LEN,
            base.len() == COVER_LEN,
            max_r == max_red(strength),
            max_g == max_green(strength),
            max_b == max_blue(strength),
            *state == rng_iter(s0, (3 * p) as nat),
            forall|i: int| 0 <= i < 4 * p ==> buf@[i] == jitter_byte(base, s0, strength, i),
            forall|i: int| 4 * p <= i < COVER_LEN ==> buf@[i] == base[i],
        decreases COVER_PIXELS - p,
    {
        let at: usize = p * 4;
        let dr: u32 = ((xorshift64(state) % 256) as u32) % (max_r + 1);
        let dg: u32 = ((xorshift64(state) % 256) as u32) % (max_g + 1);
        let db: u32 = ((xorshift64(state) % 256) as u32) % (max_b + 1);
        proof {
            reveal_with_fuel(rng_iter, 4);
        }
        let r: u32 = buf[at] as u32 + dr;
        let g: u32 = buf[at + 1] as u32;
        let b: u32 = buf[at + 2] as u32;
        buf[at] = if r > 255 { 255 } else { r as u8 };
        buf[at + 1] = if g < dg { 0 } else { (g - dg) as u8 };
        buf[at + 2] = if b < db { 0 } else { (b - db) as u8 };
        p += 1;
    }
    assert(buf@ =~= jitter_spec(base, s0, strength));
}

/// Writes the cover for `seed9` and `strength` into the first 20736 bytes
/// of `buf`; what `buf` holds past them stays.
pub fn generate_cover(buf: &mut [u8], seed9: &[u8], strength: u8)
    requires
        old(buf)@.len() >= COVER_LEN,
        seed9@.len() == 9,
    ensures
        final(buf)@ == splice(old(buf)@, 0, cover_spec(seed9@, strength)),
        final(buf)@.len() == old(buf)@.len(),
        final(buf)@.subrange(0, COVER_LEN as int) == cover_spec(seed9@, strength),
        forall|i: int| COVER_LEN <= i < old(buf)@.len() ==> final(buf)@[i] == old(buf)@[i],
        forall|i: int| 0 <= i < COVER_LEN && i % 4 == 3 ==> final(buf)@[i] == 0xFFu8,
{
    let (raster, _rest) = buf.split_at_mut(COVER_LEN);
    let mut state: u64 = seed9_to_u64(seed9);
    fill_noise(raster, &mut state);
    let noise: Vec<u8> = slice_to_vec(raster);
    let perm: Vec<usize> = generate_permutation(&mut state, BLOCK_COUNT);
    shuffle_blocks(raster, noise.as_slice(), &perm);
    apply_jitter(raster, &mut state, strength);
    proof {
        lemma_cover_shape(seed9@, strength);
        assert(final(buf)@ =~= splice(old(buf)@, 0, cover_spec(seed9@, strength)));
        assert(final(buf)@.subrange(0, COVER_LEN as int) =~= cover_spec(seed9@, strength));
    }
}

} // verus!
