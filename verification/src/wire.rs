//! Fixed-width integer encodings used by the wire formats of this crate.
use vstd::prelude::*;

verus! {

/// Little-endian bytes of a `u16`.
pub open spec fn le16(x: u16) -> Seq<u8> {
    seq![(x & 0xff) as u8, ((x >> 8) & 0xff) as u8]
}

/// Little-endian bytes of a `u32`.
pub open spec fn le32(x: u32) -> Seq<u8> {
    seq![
        (x & 0xff) as u8,
        ((x >> 8) & 0xff) as u8,
        ((x >> 16) & 0xff) as u8,
        ((x >> 24) & 0xff) as u8,
    ]
}

/// Little-endian bytes of a `u64`.
pub open spec fn le64(x: u64) -> Seq<u8> {
    seq![
        (x & 0xff) as u8,
        ((x >> 8) & 0xff) as u8,
        ((x >> 16) & 0xff) as u8,
        ((x >> 24) & 0xff) as u8,
        ((x >> 32) & 0xff) as u8,
        ((x >> 40) & 0xff) as u8,
        ((x >> 48) & 0xff) as u8,
        ((x >> 56) & 0xff) as u8,
    ]
}

/// Big-endian bytes of a `u16`.
pub open spec fn be16(x: u16) -> Seq<u8> {
    seq![((x >> 8) & 0xff) as u8, (x & 0xff) as u8]
}

/// Big-endian bytes of a `u32`.
pub open spec fn be32(x: u32) -> Seq<u8> {
    seq![
        ((x >> 24) & 0xff) as u8,
        ((x >> 16) & 0xff) as u8,
        ((x >> 8) & 0xff) as u8,
        (x & 0xff) as u8,
    ]
}

/// The `u16` stored little-endian at `s[off..off + 2]`.
pub open spec fn get_le16(s: Seq<u8>, off: int) -> u16 {
    (s[off] as u16) | ((s[off + 1] as u16) << 8)
}

/// The `u32` stored little-endian at `s[off..off + 4]`.
pub open spec fn get_le32(s: Seq<u8>, off: int) -> u32 {
    (s[off] as u32) | ((s[off + 1] as u32) << 8) | ((s[off + 2] as u32) << 16) | ((s[off
        + 3] as u32) << 24)
}

/// The `u64` stored little-endian at `s[off..off + 8]`.
pub open spec fn get_le64(s: Seq<u8>, off: int) -> u64 {
    (s[off] as u64) | ((s[off + 1] as u64) << 8) | ((s[off + 2] as u64) << 16) | ((s[off
        + 3] as u64) << 24) | ((s[off + 4] as u64) << 32) | ((s[off + 5] as u64) << 40) | ((s[off
        + 6] as u64) << 48) | ((s[off + 7] as u64) << 56)
}

/// The `u16` stored big-endian at `s[off..off + 2]`.
pub open spec fn get_be16(s: Seq<u8>, off: int) -> u16 {
    ((s[off] as u16) << 8) | (s[off + 1] as u16)
}

/// The `u32` stored big-endian at `s[off..off + 4]`.
pub open spec fn get_be32(s: Seq<u8>, off: int) -> u32 {
    ((s[off] as u32) << 24) | ((s[off + 1] as u32) << 16) | ((s[off + 2] as u32) << 8) | (s[off
        + 3] as u32)
}

pub fn push_le16(v: &mut Vec<u8>, x: u16)
    ensures
        final(v)@ == old(v)@ + le16(x),
{
    v.push((x & 0xff) as u8);
    v.push(((x >> 8) & 0xff) as u8);
    assert(final(v)@ =~= old(v)@ + le16(x));
}

pub fn push_le32(v: &mut Vec<u8>, x: u32)
    ensures
        final(v)@ == old(v)@ + le32(x),
{
    v.push((x & 0xff) as u8);
    v.push(((x >> 8) & 0xff) as u8);
    v.push(((x >> 16) & 0xff) as u8);
    v.push(((x >> 24) & 0xff) as u8);
    assert(final(v)@ =~= old(v)@ + le32(x));
}

pub fn push_le64(v: &mut Vec<u8>, x: u64)
    ensures
        final(v)@ == old(v)@ + le64(x),
{
    v.push((x & 0xff) as u8);
    v.push(((x >> 8) & 0xff) as u8);
    v.push(((x >> 16) & 0xff) as u8);
    v.push(((x >> 24) & 0xff) as u8);
    v.push(((x >> 32) & 0xff) as u8);
    v.push(((x >> 40) & 0xff) as u8);
    v.push(((x >> 48) & 0xff) as u8);
    v.push(((x >> 56) & 0xff) as u8);
    assert(final(v)@ =~= old(v)@ + le64(x));
}

/// Appends all of `src` to `v`.
pub fn push_all(v: &mut Vec<u8>, src: &[u8])
    ensures
        final(v)@ == old(v)@ + src@,
{
    let mut i: usize = 0;
    while i < src.len()
        invariant
            i <= src@.len(),
            v@ == old(v)@ + src@.take(i as int),
        decreases src@.len() - i,
    {
        v.push(src[i]);
        assert(src@.take(i + 1) =~= src@.take(i as int).push(src@[i as int]));
        i = i + 1;
    }
    assert(src@.take(src@.len() as int) =~= src@);
}

pub fn read_le16(s: &[u8], off: usize) -> (x: u16)
    requires
        off + 2 <= s@.len(),
    ensures
        x == get_le16(s@, off as int),
{
    (s[off] as u16) | ((s[off + 1] as u16) << 8)
}

pub fn read_le32(s: &[u8], off: usize) -> (x: u32)
    requires
        off + 4 <= s@.len(),
    ensures
        x == get_le32(s@, off as int),
{
    (s[off] as u32) | ((s[off + 1] as u32) << 8) | ((s[off + 2] as u32) << 16) | ((s[off
        + 3] as u32) << 24)
}

pub fn read_le64(s: &[u8], off: usize) -> (x: u64)
    requires
        off + 8 <= s@.len(),
    ensures
        x == get_le64(s@, off as int),
{
    (s[off] as u64) | ((s[off + 1] as u64) << 8) | ((s[off + 2] as u64) << 16) | ((s[off
        + 3] as u64) << 24) | ((s[off + 4] as u64) << 32) | ((s[off + 5] as u64) << 40) | ((s[off
        + 6] as u64) << 48) | ((s[off + 7] as u64) << 56)
}

pub fn read_be16(s: &[u8], off: usize) -> (x: u16)
    requires
        off + 2 <= s@.len(),
    ensures
        x == get_be16(s@, off as int),
{
    ((s[off] as u16) << 8) | (s[off + 1] as u16)
}

pub fn read_be32(s: &[u8], off: usize) -> (x: u32)
    requires
        off + 4 <= s@.len(),
    ensures
        x == get_be32(s@, off as int),
{
    ((s[off] as u32) << 24) | ((s[off + 1] as u32) << 16) | ((s[off + 2] as u32) << 8) | (s[off
        + 3] as u32)
}

/// Reading back what was written gives the written value.
pub proof fn lemma_le16_roundtrip(x: u16)
    ensures
        get_le16(le16(x), 0) == x,
{
    let s = le16(x);
    let b0 = s[0];
    let b1 = s[1];
    assert(b0 == (x & 0xff) as u8 && b1 == ((x >> 8) & 0xff) as u8);
    assert(((((x & 0xff) as u8) as u16) | ((((x >> 8) & 0xff) as u8) as u16) << 8) == x)
        by (bit_vector);
}

pub proof fn lemma_le32_roundtrip(x: u32)
    ensures
        get_le32(le32(x), 0) == x,
{
    let s = le32(x);
    assert(s[0] == (x & 0xff) as u8 && s[1] == ((x >> 8) & 0xff) as u8 && s[2] == ((x >> 16)
        & 0xff) as u8 && s[3] == ((x >> 24) & 0xff) as u8);
    assert(((((x & 0xff) as u8) as u32) | ((((x >> 8) & 0xff) as u8) as u32) << 8 | ((((x
        >> 16) & 0xff) as u8) as u32) << 16 | ((((x >> 24) & 0xff) as u8) as u32) << 24) == x)
        by (bit_vector);
}

pub proof fn lemma_le64_roundtrip(x: u64)
    ensures
        get_le64(le64(x), 0) == x,
{
    let s = le64(x);
    assert(s[0] == (x & 0xff) as u8 && s[1] == ((x >> 8) & 0xff) as u8 && s[2] == ((x >> 16)
        & 0xff) as u8 && s[3] == ((x >> 24) & 0xff) as u8 && s[4] == ((x >> 32) & 0xff) as u8
        && s[5] == ((x >> 40) & 0xff) as u8 && s[6] == ((x >> 48) & 0xff) as u8 && s[7] == ((x
        >> 56) & 0xff) as u8);
    assert(((((x & 0xff) as u8) as u64) | ((((x >> 8) & 0xff) as u8) as u64) << 8 | ((((x
        >> 16) & 0xff) as u8) as u64) << 16 | ((((x >> 24) & 0xff) as u8) as u64) << 24 | ((((x
        >> 32) & 0xff) as u8) as u64) << 32 | ((((x >> 40) & 0xff) as u8) as u64) << 40 | ((((x
        >> 48) & 0xff) as u8) as u64) << 48 | ((((x >> 56) & 0xff) as u8) as u64) << 56) == x)
        by (bit_vector);
}

/// Writing back what was read gives the bytes that were read.
pub proof fn lemma_le64_of_bytes(s: Seq<u8>, off: int)
    requires
        0 <= off,
        off + 8 <= s.len(),
    ensures
        le64(get_le64(s, off)) == s.subrange(off, off + 8),
{
    let (b0, b1, b2, b3, b4, b5, b6, b7) = (
        s[off],
        s[off + 1],
        s[off + 2],
        s[off + 3],
        s[off + 4],
        s[off + 5],
        s[off + 6],
        s[off + 7],
    );
    let x = get_le64(s, off);
    assert(x == (b0 as u64) | ((b1 as u64) << 8) | ((b2 as u64) << 16) | ((b3 as u64) << 24) | ((
    b4 as u64) << 32) | ((b5 as u64) << 40) | ((b6 as u64) << 48) | ((b7 as u64) << 56));
    assert(x == (b0 as u64) | ((b1 as u64) << 8) | ((b2 as u64) << 16) | ((b3 as u64) << 24) | ((
    b4 as u64) << 32) | ((b5 as u64) << 40) | ((b6 as u64) << 48) | ((b7 as u64) << 56) ==> (x
        & 0xff) as u8 == b0 && ((x >> 8) & 0xff) as u8 == b1 && ((x >> 16) & 0xff) as u8 == b2
        && ((x >> 24) & 0xff) as u8 == b3 && ((x >> 32) & 0xff) as u8 == b4 && ((x >> 40) & 0xff)
        as u8 == b5 && ((x >> 48) & 0xff) as u8 == b6 && ((x >> 56) & 0xff) as u8 == b7)
        by (bit_vector);
    assert(le64(x) =~= s.subrange(off, off + 8));
}

pub proof fn lemma_le16_of_bytes(s: Seq<u8>, off: int)
    requires
        0 <= off,
        off + 2 <= s.len(),
    ensures
        le16(get_le16(s, off)) == s.subrange(off, off + 2),
{
    let (b0, b1) = (s[off], s[off + 1]);
    let x = get_le16(s, off);
    assert(x == (b0 as u16) | ((b1 as u16) << 8) ==> (x & 0xff) as u8 == b0 && ((x >> 8) & 0xff)
        as u8 == b1) by (bit_vector);
    assert(le16(x) =~= s.subrange(off, off + 2));
}

pub proof fn lemma_le32_of_bytes(s: Seq<u8>, off: int)
    requires
        0 <= off,
        off + 4 <= s.len(),
    ensures
        le32(get_le32(s, off)) == s.subrange(off, off + 4),
{
    let (b0, b1, b2, b3) = (s[off], s[off + 1], s[off + 2], s[off + 3]);
    let x = get_le32(s, off);
    assert(x == (b0 as u32) | ((b1 as u32) << 8) | ((b2 as u32) << 16) | ((b3 as u32) << 24) ==> (x
        & 0xff) as u8 == b0 && ((x >> 8) & 0xff) as u8 == b1 && ((x >> 16) & 0xff) as u8 == b2
        && ((x >> 24) & 0xff) as u8 == b3) by (bit_vector);
    assert(le32(x) =~= s.subrange(off, off + 4));
}

/// Copies `s[off..off + N]` into an array.
pub fn read_array20(s: &[u8], off: usize) -> (a: [u8; 20])
    requires
        off + 20 <= s@.len(),
    ensures
        a@ == s@.subrange(off as int, off + 20),
{
    let mut a = [0u8; 20];
    let n = s.len();
    let mut i: usize = 0;
    while i < 20
        invariant
            i <= 20,
            n == s@.len(),
            off + 20 <= s@.len(),
            forall|j: int| 0 <= j < i ==> a@[j] == s@[off + j],
        decreases 20 - i,
    {
        a[i] = s[off + i];
        i = i + 1;
    }
    assert(a@ =~= s@.subrange(off as int, off + 20));
    a
}

pub fn read_array32(s: &[u8], off: usize) -> (a: [u8; 32])
    requires
        off + 32 <= s@.len(),
    ensures
        a@ == s@.subrange(off as int, off + 32),
{
    let mut a = [0u8; 32];
    let n = s.len();
    let mut i: usize = 0;
    while i < 32
        invariant
            i <= 32,
            n == s@.len(),
            off + 32 <= s@.len(),
            forall|j: int| 0 <= j < i ==> a@[j] == s@[off + j],
        decreases 32 - i,
    {
        a[i] = s[off + i];
        i = i + 1;
    }
    assert(a@ =~= s@.subrange(off as int, off + 32));
    a
}

/// Whether two byte slices are equal.
pub fn bytes_equal(a: &[u8], b: &[u8]) -> (r: bool)
    ensures
        r == (a@ == b@),
{
    if a.len() != b.len() {
        return false;
    }
    let mut i: usize = 0;
    while i < a.len()
        invariant
            a@.len() == b@.len(),
            i <= a@.len(),
            forall|j: int| 0 <= j < i ==> a@[j] == b@[j],
        decreases a@.len() - i,
    {
        if a[i] != b[i] {
            return false;
        }
        i = i + 1;
    }
    assert(a@ =~= b@);
    true
}

} // verus!

verus! {

/// `a * b`, saturating at `u64::MAX` (what `u64::saturating_mul` computes).
pub fn sat_mul_u64(a: u64, b: u64) -> (r: u64)
    ensures
        r == if a * b > u64::MAX {
            u64::MAX as int
        } else {
            a * b
        },
{
    if a != 0 && b > u64::MAX / a {
        assert(a * b > u64::MAX) by (nonlinear_arith)
            requires
                a > 0,
                b > u64::MAX / a,
        ;
        u64::MAX
    } else {
        assert(a * b <= u64::MAX) by (nonlinear_arith)
            requires
                a == 0 || b <= u64::MAX / a,
        ;
        a * b
    }
}

} // verus!
