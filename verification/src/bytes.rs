//! Little-endian integers and byte-buffer helpers shared by every codec.
use vstd::prelude::*;

verus! {

/// The two bytes of `v`, least significant first.
pub open spec fn u16_le(v: u16) -> Seq<u8> {
    seq![(v % 256) as u8, (v / 256) as u8]
}

/// The four bytes of `v`, least significant first.
pub open spec fn u32_le(v: u32) -> Seq<u8> {
    seq![
        (v % 256) as u8,
        (v / 256 % 256) as u8,
        (v / 65536 % 256) as u8,
        (v / 16777216) as u8,
    ]
}

/// The eight bytes of `v`, least significant first.
pub open spec fn u64_le(v: u64) -> Seq<u8> {
    u32_le((v % 0x1_0000_0000) as u32) + u32_le((v / 0x1_0000_0000) as u32)
}

/// The number that two bytes of `b` spell at `i`.
pub open spec fn le16(b: Seq<u8>, i: int) -> u16 {
    (b[i] + 256 * b[i + 1]) as u16
}

/// The number that four bytes of `b` spell at `i`.
pub open spec fn le32(b: Seq<u8>, i: int) -> u32 {
    (b[i] + 256 * b[i + 1] + 65536 * b[i + 2] + 16777216 * b[i + 3]) as u32
}

/// The number that eight bytes of `b` spell at `i`.
pub open spec fn le64(b: Seq<u8>, i: int) -> u64 {
    (le32(b, i) + 0x1_0000_0000 * le32(b, i + 4)) as u64
}

/// Reading back two bytes gives the number that was written.
pub proof fn lemma_le16(v: u16, b: Seq<u8>, i: int)
    requires
        0 <= i,
        i + 2 <= b.len(),
        b.subrange(i, i + 2) == u16_le(v),
    ensures
        le16(b, i) == v,
{
    let s = b.subrange(i, i + 2);
    assert(s[0] == b[i] && s[1] == b[i + 1]);
    assert(u16_le(v)[0] == (v % 256) as u8 && u16_le(v)[1] == (v / 256) as u8);
}

/// Reading back four bytes gives the number that was written.
pub proof fn lemma_le32(v: u32, b: Seq<u8>, i: int)
    requires
        0 <= i,
        i + 4 <= b.len(),
        b.subrange(i, i + 4) == u32_le(v),
    ensures
        le32(b, i) == v,
{
    let s = b.subrange(i, i + 4);
    assert(s[0] == b[i] && s[1] == b[i + 1] && s[2] == b[i + 2] && s[3] == b[i + 3]);
    let w = u32_le(v);
    assert(w[0] == (v % 256) as u8 && w[1] == (v / 256 % 256) as u8);
    assert(w[2] == (v / 65536 % 256) as u8 && w[3] == (v / 16777216) as u8);
    let n = v as int;
    let q = n / 256;
    let r = n / 65536;
    let t = n / 16777216;
    assert(n == 256 * q + n % 256);
    assert(q == 256 * r + q % 256 && r == q / 256);
    assert(r == 256 * t + r % 256 && t == r / 256);
}

/// Reading back eight bytes gives the number that was written.
pub proof fn lemma_le64(v: u64, b: Seq<u8>, i: int)
    requires
        0 <= i,
        i + 8 <= b.len(),
        b.subrange(i, i + 8) == u64_le(v),
    ensures
        le64(b, i) == v,
{
    let s = b.subrange(i, i + 8);
    assert(b.subrange(i, i + 4) =~= s.subrange(0, 4));
    assert(b.subrange(i + 4, i + 8) =~= s.subrange(4, 8));
    assert(u64_le(v).subrange(0, 4) =~= u32_le((v % 0x1_0000_0000) as u32));
    assert(u64_le(v).subrange(4, 8) =~= u32_le((v / 0x1_0000_0000) as u32));
    lemma_le32((v % 0x1_0000_0000) as u32, b, i);
    lemma_le32((v / 0x1_0000_0000) as u32, b, i + 4);
}

/// Appends `v` as two bytes, least significant first.
pub fn push_u16(out: &mut Vec<u8>, v: u16)
    ensures
        final(out)@ == old(out)@ + u16_le(v),
{
    out.push((v % 256) as u8);
    out.push((v / 256) as u8);
    assert(out@ =~= old(out)@ + u16_le(v));
}

/// Appends `v` as four bytes, least significant first.
pub fn push_u32(out: &mut Vec<u8>, v: u32)
    ensures
        final(out)@ == old(out)@ + u32_le(v),
{
    out.push((v % 256) as u8);
    out.push((v / 256 % 256) as u8);
    out.push((v / 65536 % 256) as u8);
    out.push((v / 16777216) as u8);
    assert(out@ =~= old(out)@ + u32_le(v));
}

/// Appends `v` as eight bytes, least significant first.
pub fn push_u64(out: &mut Vec<u8>, v: u64)
    ensures
        final(out)@ == old(out)@ + u64_le(v),
{
    push_u32(out, (v % 0x1_0000_0000) as u32);
    push_u32(out, (v / 0x1_0000_0000) as u32);
    assert(out@ =~= old(out)@ + u64_le(v));
}

/// Appends every byte of `tail`.
pub fn push_all(out: &mut Vec<u8>, tail: &[u8])
    ensures
        final(out)@ == old(out)@ + tail@,
{
    out.extend_from_slice(tail);
}

/// Reads two bytes at `i` as a number, least significant first.
pub fn read_u16(b: &[u8], i: usize) -> (v: u16)
    requires
        i + 2 <= b.len(),
    ensures
        v == le16(b@, i as int),
{
    b[i] as u16 + 256 * (b[i + 1] as u16)
}

/// Reads four bytes at `i` as a number, least significant first.
pub fn read_u32(b: &[u8], i: usize) -> (v: u32)
    requires
        i + 4 <= b.len(),
    ensures
        v == le32(b@, i as int),
{
    b[i] as u32 + 256 * (b[i + 1] as u32) + 65536 * (b[i + 2] as u32) + 16777216 * (b[i + 3] as u32)
}

/// Reads eight bytes at `i` as a number, least significant first.
pub fn read_u64(b: &[u8], i: usize) -> (v: u64)
    requires
        i + 8 <= b.len(),
    ensures
        v == le64(b@, i as int),
{
    read_u32(b, i) as u64 + 0x1_0000_0000 * (read_u32(b, i + 4) as u64)
}

/// Copies sixteen bytes at `i` into an array.
pub fn read_16(b: &[u8], i: usize) -> (out: [u8; 16])
    requires
        i + 16 <= b.len(),
    ensures
        out@ == b@.subrange(i as int, i + 16),
{
    let mut out: [u8; 16] = [0u8; 16];
    let mut k: usize = 0;
    while k < 16
        invariant
            k <= 16,
            i + 16 <= b.len(),
            forall|j: int| 0 <= j < k ==> out[j] == b@[i + j],
        decreases 16 - k,
    {
        out[k] = b[i + k];
        k += 1;
    }
    assert(out@ =~= b@.subrange(i as int, i + 16));
    out
}

/// The part of `b` that starts at `i`.
pub fn suffix(b: &[u8], i: usize) -> (r: &[u8])
    requires
        i <= b.len(),
    ensures
        r@ == b@.skip(i as int),
{
    let r = vstd::slice::slice_subrange(b, i, b.len());
    assert(r@ =~= b@.skip(i as int));
    r
}

/// Copies a slice into a vector.
pub fn to_vec(b: &[u8]) -> (r: Vec<u8>)
    ensures
        r@ == b@,
{
    let mut r: Vec<u8> = Vec::with_capacity(b.len());
    r.extend_from_slice(b);
    assert(r@ =~= b@);
    r
}

/// Whether two 16-byte arrays hold the same bytes.
pub fn same_16(a: &[u8; 16], b: &[u8; 16]) -> (r: bool)
    ensures
        r == (*a == *b),
        r == (a@ == b@),
{
    proof {
        if a@ == b@ {
            lemma_same_16(*a, *b);
        }
    }
    let mut i: usize = 0;
    while i < 16
        invariant
            i <= 16,
            forall|k: int| 0 <= k < i ==> a[k] == b[k],
        decreases 16 - i,
    {
        if a[i] != b[i] {
            return false;
        }
        i += 1;
    }
    assert(*a =~= *b);
    true
}

/// Arrays with the same bytes are the same array.
pub proof fn lemma_same_16(a: [u8; 16], b: [u8; 16])
    requires
        a@ == b@,
    ensures
        a == b,
{
    assert forall|i: int| 0 <= i < 16 implies a[i] == b[i] by {
        assert(a@[i] == b@[i]);
    }
    assert(a =~= b);
}

/// The bytes of a number are its digits in base 256, the lowest first.
pub proof fn law_lowest_byte_comes_first(a: u16, b: u32, c: u64)
    ensures
        u16_le(a).len() == 2,
        a == u16_le(a)[0] + 0x100 * u16_le(a)[1],
        u32_le(b).len() == 4,
        b == u32_le(b)[0] + 0x100 * u32_le(b)[1] + 0x1_0000 * u32_le(b)[2] + 0x100_0000 * u32_le(
            b,
        )[3],
        u64_le(c).len() == 8,
        u64_le(c).take(4) == u32_le((c % 0x1_0000_0000) as u32),
        u64_le(c).skip(4) == u32_le((c / 0x1_0000_0000) as u32),
{
    let n = b as int;
    let q = n / 256;
    let r = n / 65536;
    let t = n / 16777216;
    assert(n == 256 * q + n % 256);
    assert(q == 256 * r + q % 256 && r == q / 256);
    assert(r == 256 * t + r % 256 && t == r / 256);
    assert(u64_le(c).take(4) =~= u32_le((c % 0x1_0000_0000) as u32));
    assert(u64_le(c).skip(4) =~= u32_le((c / 0x1_0000_0000) as u32));
}

/// What bytes spell is the sum of their weights, and reading is what writing
/// undoes.
pub proof fn law_numbers_read_back(a: u16, b: u32, c: u64, before: Seq<u8>, after: Seq<u8>)
    ensures
        le16(before + u16_le(a) + after, before.len() as int) == a,
        le32(before + u32_le(b) + after, before.len() as int) == b,
        le64(before + u64_le(c) + after, before.len() as int) == c,
{
    let i = before.len() as int;
    let x = before + u16_le(a) + after;
    assert(x.subrange(i, i + 2) =~= u16_le(a));
    lemma_le16(a, x, i);
    let y = before + u32_le(b) + after;
    assert(y.subrange(i, i + 4) =~= u32_le(b));
    lemma_le32(b, y, i);
    let z = before + u64_le(c) + after;
    assert(z.subrange(i, i + 8) =~= u64_le(c));
    lemma_le64(c, z, i);
}

} // verus!
