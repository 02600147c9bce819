//! Fixed-width unsigned integers written as byte strings.
//!
//! The specifications are arithmetic: byte `i` of a little-endian string is
//! the digit of weight `256^i`, and a big-endian string lists the same
//! digits from the heaviest down.

use vstd::prelude::*;

verus! {

/// The two bytes of `v`, lightest first.
pub open spec fn u16_le_bytes(v: u16) -> Seq<u8> {
    seq![(v % 256) as u8, (v / 256) as u8]
}

/// The number whose little-endian digits are the first two bytes of `b`.
pub open spec fn u16_from_le_bytes(b: Seq<u8>) -> u16
    recommends
        b.len() >= 2,
{
    (b[0] as int + 256 * (b[1] as int)) as u16
}

/// The four bytes of `v`, heaviest first.
pub open spec fn u32_be_bytes(v: u32) -> Seq<u8> {
    seq![
        (v / 0x100_0000) as u8,
        ((v / 0x1_0000) % 256) as u8,
        ((v / 0x100) % 256) as u8,
        (v % 256) as u8,
    ]
}

/// The number whose big-endian digits are the first four bytes of `b`.
pub open spec fn u32_from_be_bytes(b: Seq<u8>) -> u32
    recommends
        b.len() >= 4,
{
    (0x100_0000 * (b[0] as int) + 0x1_0000 * (b[1] as int) + 0x100 * (b[2] as int)
        + b[3] as int) as u32
}

/// The eight bytes of `v`, lightest first.
pub open spec fn u64_le_bytes(v: u64) -> Seq<u8> {
    seq![
        (v % 256) as u8,
        ((v / 0x100) % 256) as u8,
        ((v / 0x1_0000) % 256) as u8,
        ((v / 0x100_0000) % 256) as u8,
        ((v / 0x1_0000_0000) % 256) as u8,
        ((v / 0x100_0000_0000) % 256) as u8,
        ((v / 0x1_0000_0000_0000) % 256) as u8,
        (v / 0x100_0000_0000_0000) as u8,
    ]
}

/// The number whose little-endian digits are the first eight bytes of `b`.
pub open spec fn u64_from_le_bytes(b: Seq<u8>) -> u64
    recommends
        b.len() >= 8,
{
    (b[0] as int + 0x100 * (b[1] as int) + 0x1_0000 * (b[2] as int) + 0x100_0000 * (b[3] as int)
        + 0x1_0000_0000 * (b[4] as int) + 0x100_0000_0000 * (b[5] as int) + 0x1_0000_0000_0000 * (
    b[6] as int) + 0x100_0000_0000_0000 * (b[7] as int)) as u64
}

/// Reading back what was written gives the number that was written.
pub proof fn lemma_u16_le_round_trip(v: u16)
    ensures
        u16_le_bytes(v).len() == 2,
        u16_from_le_bytes(u16_le_bytes(v)) == v,
{
}

/// Reading back what was written gives the number that was written.
pub proof fn lemma_u32_be_round_trip(v: u32)
    ensures
        u32_be_bytes(v).len() == 4,
        u32_from_be_bytes(u32_be_bytes(v)) == v,
{
}

/// Reading back what was written gives the number that was written.
pub proof fn lemma_u64_le_round_trip(v: u64)
    ensures
        u64_le_bytes(v).len() == 8,
        u64_from_le_bytes(u64_le_bytes(v)) == v,
{
    let n = v as int;
    let q1 = n / 256;
    let q2 = q1 / 256;
    let q3 = q2 / 256;
    let q4 = q3 / 256;
    let q5 = q4 / 256;
    let q6 = q5 / 256;
    let q7 = q6 / 256;
    assert(q2 == n / 0x1_0000);
    assert(q3 == n / 0x100_0000);
    assert(q4 == n / 0x1_0000_0000);
    assert(q5 == n / 0x100_0000_0000);
    assert(q6 == n / 0x1_0000_0000_0000);
    assert(q7 == n / 0x100_0000_0000_0000);
    assert(q7 < 256);
    let b = u64_le_bytes(v);
    assert(b[0] as int == n % 256);
    assert(b[1] as int == q1 % 256);
    assert(b[2] as int == q2 % 256);
    assert(b[3] as int == q3 % 256);
    assert(b[4] as int == q4 % 256);
    assert(b[5] as int == q5 % 256);
    assert(b[6] as int == q6 % 256);
    assert(b[7] as int == q7);
    assert(q6 == 256 * q7 + q6 % 256);
    assert(q5 == 256 * q6 + q5 % 256);
    assert(q4 == 256 * q5 + q4 % 256);
    assert(q3 == 256 * q4 + q3 % 256);
    assert(q2 == 256 * q3 + q2 % 256);
    assert(q1 == 256 * q2 + q1 % 256);
    assert(n == 256 * q1 + n % 256);
}

/// Appends the two bytes of `v`, lightest first.
pub fn put_u16_le(out: &mut Vec<u8>, v: u16)
    ensures
        final(out)@ == old(out)@ + u16_le_bytes(v),
{
    out.push((v % 256) as u8);
    out.push((v / 256) as u8);
}

/// Appends the four bytes of `v`, heaviest first.
pub fn put_u32_be(out: &mut Vec<u8>, v: u32)
    ensures
        final(out)@ == old(out)@ + u32_be_bytes(v),
{
    out.push((v / 0x100_0000) as u8);
    out.push(((v / 0x1_0000) % 256) as u8);
    out.push(((v / 0x100) % 256) as u8);
    out.push((v % 256) as u8);
}

/// Appends the eight bytes of `v`, lightest first.
pub fn put_u64_le(out: &mut Vec<u8>, v: u64)
    ensures
        final(out)@ == old(out)@ + u64_le_bytes(v),
{
    out.push((v % 256) as u8);
    out.push(((v / 0x100) % 256) as u8);
    out.push(((v / 0x1_0000) % 256) as u8);
    out.push(((v / 0x100_0000) % 256) as u8);
    out.push(((v / 0x1_0000_0000) % 256) as u8);
    out.push(((v / 0x100_0000_0000) % 256) as u8);
    out.push(((v / 0x1_0000_0000_0000) % 256) as u8);
    out.push((v / 0x100_0000_0000_0000) as u8);
}

/// Reads the little-endian number in the two bytes of `data` from `at` on.
pub fn get_u16_le(data: &[u8], at: usize) -> (v: u16)
    requires
        at + 2 <= data@.len(),
    ensures
        v == u16_from_le_bytes(data@.subrange(at as int, at + 2)),
{
    data[at] as u16 + 256 * (data[at + 1] as u16)
}

/// Reads the big-endian number in the four bytes of `data` from `at` on.
pub fn get_u32_be(data: &[u8], at: usize) -> (v: u32)
    requires
        at + 4 <= data@.len(),
    ensures
        v == u32_from_be_bytes(data@.subrange(at as int, at + 4)),
{
    0x100_0000 * (data[at] as u32) + 0x1_0000 * (data[at + 1] as u32) + 0x100 * (data[at
        + 2] as u32) + data[at + 3] as u32
}

/// Reads the little-endian number in the eight bytes of `data` from `at` on.
pub fn get_u64_le(data: &[u8], at: usize) -> (v: u64)
    requires
        at + 8 <= data@.len(),
    ensures
        v == u64_from_le_bytes(data@.subrange(at as int, at + 8)),
{
    data[at] as u64 + 0x100 * (data[at + 1] as u64) + 0x1_0000 * (data[at + 2] as u64)
        + 0x100_0000 * (data[at + 3] as u64) + 0x1_0000_0000 * (data[at + 4] as u64)
        + 0x100_0000_0000 * (data[at + 5] as u64) + 0x1_0000_0000_0000 * (data[at + 6] as u64)
        + 0x100_0000_0000_0000 * (data[at + 7] as u64)
}

/// `s` with the bytes from `at` on replaced by those of `part`.
pub open spec fn splice(s: Seq<u8>, at: int, part: Seq<u8>) -> Seq<u8>
    recommends
        0 <= at,
        at + part.len() <= s.len(),
{
    s.subrange(0, at) + part + s.subrange(at + part.len(), s.len() as int)
}

/// Replacing three stretches that follow one another is replacing the
/// whole stretch at once.
pub proof fn lemma_splice_chain(s: Seq<u8>, at: int, a: Seq<u8>, b: Seq<u8>, c: Seq<u8>)
    requires
        0 <= at,
        at + a.len() + b.len() + c.len() <= s.len(),
    ensures
        splice(splice(splice(s, at, a), at + a.len(), b), at + a.len() + b.len(), c) == splice(
            s,
            at,
            a + b + c,
        ),
{
    let first = splice(s, at, a);
    let second = splice(first, at + a.len(), b);
    let third = splice(second, at + a.len() + b.len(), c);
    assert(first.len() == s.len());
    assert(second.len() == s.len());
    assert(third =~= splice(s, at, a + b + c));
}

/// Copies `src` into `dst` from the offset `at` on; the rest of `dst` stays.
pub fn copy_bytes(dst: &mut [u8], at: usize, src: &[u8])
    requires
        at + src@.len() <= old(dst)@.len(),
    ensures
        final(dst)@ == splice(old(dst)@, at as int, src@),
{
    let ghost before = dst@;
    let total: usize = dst.len();
    let mut i: usize = 0;
    while i < src.len()
        invariant
            i <= src@.len(),
            at + src@.len() <= before.len(),
            before.len() == total,
            dst@.len() == before.len(),
            forall|j: int| 0 <= j < dst@.len() ==> dst@[j] == if at <= j < at + i {
                src@[j - at]
            } else {
                before[j]
            },
        decreases src@.len() - i,
    {
        dst[at + i] = src[i];
        i += 1;
    }
    assert(dst@ =~= splice(before, at as int, src@));
}

/// Writes the eight bytes of `v`, lightest first, into `dst` from `at` on.
pub fn write_u64_le(dst: &mut [u8], at: usize, v: u64)
    requires
        at + 8 <= old(dst)@.len(),
    ensures
        final(dst)@ == splice(old(dst)@, at as int, u64_le_bytes(v)),
{
    dst[at] = (v % 256) as u8;
    dst[at + 1] = ((v / 0x100) % 256) as u8;
    dst[at + 2] = ((v / 0x1_0000) % 256) as u8;
    dst[at + 3] = ((v / 0x100_0000) % 256) as u8;
    dst[at + 4] = ((v / 0x1_0000_0000) % 256) as u8;
    dst[at + 5] = ((v / 0x100_0000_0000) % 256) as u8;
    dst[at + 6] = ((v / 0x1_0000_0000_0000) % 256) as u8;
    dst[at + 7] = (v / 0x100_0000_0000_0000) as u8;
    assert(dst@ =~= splice(old(dst)@, at as int, u64_le_bytes(v)));
}

/// Sets the `count` bytes of `dst` from `at` on to zero.
pub fn zero_bytes(dst: &mut [u8], at: usize, count: usize)
    requires
        at + count <= old(dst)@.len(),
    ensures
        final(dst)@ == splice(old(dst)@, at as int, Seq::new(count as nat, |i: int| 0u8)),
{
    let ghost before = dst@;
    let total: usize = dst.len();
    let mut i: usize = 0;
    while i < count
        invariant
            i <= count,
            at + count <= before.len(),
            before.len() == total,
            dst@.len() == before.len(),
            forall|j: int| 0 <= j < dst@.len() ==> dst@[j] == if at <= j < at + i {
                0u8
            } else {
                before[j]
            },
        decreases count - i,
    {
        dst[at + i] = 0;
        i += 1;
    }
    assert(dst@ =~= splice(before, at as int, Seq::new(count as nat, |i: int| 0u8)));
}

} // verus!
