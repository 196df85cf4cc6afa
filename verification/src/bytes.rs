//! Little-endian integers on the wire.
//!
//! The spec functions here say what a little-endian integer is, by plain
//! arithmetic.  The executable conversions are done by the `byteorder` and
//! `zerocopy` crates; the contracts on the small functions that call them are
//! taken on trust.

use byteorder::ByteOrder;
use byteorder::WriteBytesExt;
use vstd::prelude::*;

verus! {

/// The 16-bit value whose little-endian encoding starts `s`.
pub open spec fn le_u16(s: Seq<u8>) -> u16
    recommends
        s.len() >= 2,
{
    (s[0] as int + 0x100 * (s[1] as int)) as u16
}

/// The 32-bit value whose little-endian encoding starts `s`.
pub open spec fn le_u32(s: Seq<u8>) -> u32
    recommends
        s.len() >= 4,
{
    (s[0] as int + 0x100 * (s[1] as int) + 0x1_0000 * (s[2] as int) + 0x100_0000 * (s[3] as int)) as u32
}

/// The 64-bit value whose little-endian encoding starts `s`.
pub open spec fn le_u64(s: Seq<u8>) -> u64
    recommends
        s.len() >= 8,
{
    (le_u32(s) as int + 0x1_0000_0000 * (le_u32(s.subrange(4, 8)) as int)) as u64
}

/// The two bytes that encode `x`, low byte first.
pub open spec fn u16_le(x: u16) -> Seq<u8> {
    seq![(x % 0x100) as u8, (x / 0x100) as u8]
}

/// The four bytes that encode `x`, low byte first.
pub open spec fn u32_le(x: u32) -> Seq<u8> {
    seq![
        (x % 0x100) as u8,
        ((x / 0x100) % 0x100) as u8,
        ((x / 0x1_0000) % 0x100) as u8,
        (x / 0x100_0000) as u8,
    ]
}

/// The total length of the first `k` of the byte strings `bufs`.
pub open spec fn prefix_len(bufs: Seq<Seq<u8>>, k: int) -> nat
    decreases k,
{
    if k <= 0 {
        0
    } else {
        prefix_len(bufs, k - 1) + bufs[k - 1].len()
    }
}

/// The total length of the byte strings `bufs`.
pub open spec fn total_len(bufs: Seq<Seq<u8>>) -> nat {
    prefix_len(bufs, bufs.len() as int)
}

/// The first `k` of the byte strings `bufs`, one after the other.
pub open spec fn concat_prefix(bufs: Seq<Seq<u8>>, k: int) -> Seq<u8>
    decreases k,
{
    if k <= 0 {
        Seq::empty()
    } else {
        concat_prefix(bufs, k - 1) + bufs[k - 1]
    }
}

/// The byte strings `bufs`, one after the other.
pub open spec fn concat(bufs: Seq<Seq<u8>>) -> Seq<u8> {
    concat_prefix(bufs, bufs.len() as int)
}

/// The views of a list of byte slices.
pub open spec fn views(bufs: Seq<&[u8]>) -> Seq<Seq<u8>> {
    Seq::new(bufs.len(), |i: int| bufs[i]@)
}

/// The current views of a list of mutable byte slices.
pub open spec fn views_mut(bufs: Seq<&mut [u8]>) -> Seq<Seq<u8>> {
    Seq::new(bufs.len(), |i: int| bufs[i]@)
}

/// A concatenation is as long as its parts together.
pub proof fn lemma_concat_len(bufs: Seq<Seq<u8>>, k: int)
    ensures
        concat_prefix(bufs, k).len() == prefix_len(bufs, k),
    decreases k,
{
    if k > 0 {
        lemma_concat_len(bufs, k - 1);
    }
}

/// Prefix lengths grow with the number of parts.
pub proof fn lemma_prefix_len_monotonic(bufs: Seq<Seq<u8>>, j: int, k: int)
    requires
        j <= k,
    ensures
        prefix_len(bufs, j) <= prefix_len(bufs, k),
    decreases k - j,
{
    if j < k {
        lemma_prefix_len_monotonic(bufs, j, k - 1);
    }
}

/// Prefix lengths and prefixes of a concatenation depend only on the parts
/// counted.
pub proof fn lemma_prefix_agree(a: Seq<Seq<u8>>, b: Seq<Seq<u8>>, k: int)
    requires
        forall|i: int| 0 <= i < k ==> a[i] == b[i],
    ensures
        prefix_len(a, k) == prefix_len(b, k),
        concat_prefix(a, k) == concat_prefix(b, k),
    decreases k,
{
    if k > 0 {
        lemma_prefix_agree(a, b, k - 1);
    }
}

/// Part `k` of a concatenation lies behind the parts before it.
pub proof fn lemma_concat_index(bufs: Seq<Seq<u8>>, k: int, q: int)
    requires
        0 <= k < bufs.len(),
        0 <= q < bufs[k].len(),
    ensures
        prefix_len(bufs, k) + bufs[k].len() <= total_len(bufs),
        concat(bufs).len() == total_len(bufs),
        concat(bufs)[prefix_len(bufs, k) + q] == bufs[k][q],
{
    lemma_concat_part(bufs, k, q, bufs.len() as int);
    lemma_concat_len(bufs, bufs.len() as int);
}

/// Part `k` of a concatenation of the first `m` parts, `m > k`.
pub proof fn lemma_concat_part(bufs: Seq<Seq<u8>>, k: int, q: int, m: int)
    requires
        0 <= k < m <= bufs.len(),
        0 <= q < bufs[k].len(),
    ensures
        prefix_len(bufs, k) + bufs[k].len() <= prefix_len(bufs, m),
        concat_prefix(bufs, m)[prefix_len(bufs, k) + q] == bufs[k][q],
    decreases m,
{
    lemma_concat_len(bufs, m - 1);
    if m - 1 > k {
        lemma_concat_part(bufs, k, q, m - 1);
    }
}

/// A list of one byte string, laid end to end, is that byte string.
pub proof fn lemma_concat_one(bufs: Seq<Seq<u8>>)
    requires
        bufs.len() == 1,
    ensures
        total_len(bufs) == bufs[0].len(),
        concat(bufs) == bufs[0],
{
    assert(prefix_len(bufs, 1) == prefix_len(bufs, 0) + bufs[0].len());
    assert(concat_prefix(bufs, 1) == concat_prefix(bufs, 0) + bufs[0]);
    assert(concat(bufs) =~= bufs[0]);
}

/// A list of two byte strings, laid end to end, is the first followed by the
/// second.
pub proof fn lemma_concat_two(bufs: Seq<Seq<u8>>)
    requires
        bufs.len() == 2,
    ensures
        total_len(bufs) == bufs[0].len() + bufs[1].len(),
        concat(bufs) == bufs[0] + bufs[1],
{
    assert(prefix_len(bufs, 1) == prefix_len(bufs, 0) + bufs[0].len());
    assert(prefix_len(bufs, 2) == prefix_len(bufs, 1) + bufs[1].len());
    assert(concat_prefix(bufs, 1) == concat_prefix(bufs, 0) + bufs[0]);
    assert(concat_prefix(bufs, 2) == concat_prefix(bufs, 1) + bufs[1]);
    assert(concat(bufs) =~= bufs[0] + bufs[1]);
}

/// Two lists of byte strings, one after the other and laid end to end, are
/// the first laid end to end followed by the second laid end to end.
pub proof fn lemma_concat_append(a: Seq<Seq<u8>>, b: Seq<Seq<u8>>)
    ensures
        total_len(a + b) == total_len(a) + total_len(b),
        concat(a + b) == concat(a) + concat(b),
{
    lemma_concat_append_prefix(a, b, b.len() as int);
}

/// The step of [`lemma_concat_append`]: the first `k` parts of the second
/// list.
pub proof fn lemma_concat_append_prefix(a: Seq<Seq<u8>>, b: Seq<Seq<u8>>, k: int)
    requires
        0 <= k <= b.len(),
    ensures
        prefix_len(a + b, a.len() + k) == total_len(a) + prefix_len(b, k),
        concat_prefix(a + b, a.len() + k) == concat(a) + concat_prefix(b, k),
    decreases k,
{
    if k == 0 {
        lemma_prefix_agree(a + b, a, a.len() as int);
        assert(concat(a) + concat_prefix(b, 0) =~= concat(a));
    } else {
        lemma_concat_append_prefix(a, b, k - 1);
        assert((a + b)[a.len() + k - 1] == b[k - 1]);
        assert(concat_prefix(a + b, a.len() + k) =~= concat(a) + concat_prefix(b, k));
    }
}

/// Decoding an encoded 16-bit value gives the value back.
pub proof fn lemma_u16_roundtrip(x: u16)
    ensures
        u16_le(x).len() == 2,
        le_u16(u16_le(x)) == x,
{
}

/// Decoding an encoded 32-bit value gives the value back.
pub proof fn lemma_u32_roundtrip(x: u32)
    ensures
        u32_le(x).len() == 4,
        le_u32(u32_le(x)) == x,
{
}

/// Encoding a decoded pair of bytes gives the bytes back.
pub proof fn lemma_u16_bytes_roundtrip(s: Seq<u8>)
    requires
        s.len() == 2,
    ensures
        u16_le(le_u16(s)) == s,
{
    assert(u16_le(le_u16(s)) =~= s);
}

/// Encoding a decoded group of four bytes gives the bytes back.
pub proof fn lemma_u32_bytes_roundtrip(s: Seq<u8>)
    requires
        s.len() == 4,
    ensures
        u32_le(le_u32(s)) == s,
{
    let a = s[0] as int;
    let b = s[1] as int;
    let c = s[2] as int;
    let d = s[3] as int;
    let x = a + 0x100 * b + 0x1_0000 * c + 0x100_0000 * d;
    assert(x / 0x100 == b + 0x100 * c + 0x1_0000 * d);
    assert(x / 0x1_0000 == c + 0x100 * d);
    assert(x / 0x100_0000 == d);
    assert(u32_le(le_u32(s)) =~= s);
}

/// `byteorder::LittleEndian::read_u16`: decodes the first two bytes of `buf`
/// as a little-endian integer.  The outside function panics on a shorter
/// slice, which the precondition excludes.
#[verifier::external_body]
pub(crate) fn read_u16(buf: &[u8]) -> (r: u16)
    requires
        buf@.len() >= 2,
    ensures
        r == le_u16(buf@),
{
    byteorder::LittleEndian::read_u16(buf)
}

/// `byteorder::LittleEndian::read_u32`: decodes the first four bytes of `buf`
/// as a little-endian integer.  The outside function panics on a shorter
/// slice, which the precondition excludes.
#[verifier::external_body]
pub(crate) fn read_u32(buf: &[u8]) -> (r: u32)
    requires
        buf@.len() >= 4,
    ensures
        r == le_u32(buf@),
{
    byteorder::LittleEndian::read_u32(buf)
}

/// `byteorder::LittleEndian::read_u64`: decodes the first eight bytes of
/// `buf` as a little-endian integer.  The outside function panics on a
/// shorter slice, which the precondition excludes.
#[verifier::external_body]
pub(crate) fn read_u64(buf: &[u8]) -> (r: u64)
    requires
        buf@.len() >= 8,
    ensures
        r == le_u64(buf@),
{
    byteorder::LittleEndian::read_u64(buf)
}

/// `byteorder::LittleEndian::write_u32`: overwrites the first four bytes of
/// `buf` with the little-endian encoding of `n` and leaves the rest alone.
/// The outside function panics on a shorter slice, which the precondition
/// excludes.
#[verifier::external_body]
pub(crate) fn write_u32(buf: &mut [u8], n: u32)
    requires
        old(buf)@.len() >= 4,
    ensures
        final(buf)@ == u32_le(n) + old(buf)@.subrange(4, old(buf)@.len() as int),
{
    byteorder::LittleEndian::write_u32(buf, n)
}

/// `byteorder::WriteBytesExt::write_u16` on a byte vector, in little-endian
/// order: appends the two bytes of `n`.  Writing to a vector cannot fail, so
/// the `io::Result` carries nothing.
#[verifier::external_body]
pub(crate) fn append_u16(v: &mut Vec<u8>, n: u16)
    ensures
        final(v)@ == old(v)@ + u16_le(n),
{
    let _ = v.write_u16::<byteorder::LittleEndian>(n);
}

/// `byteorder::WriteBytesExt::write_u32` on a byte vector, in little-endian
/// order: appends the four bytes of `n`.  Writing to a vector cannot fail, so
/// the `io::Result` carries nothing.
#[verifier::external_body]
pub(crate) fn append_u32(v: &mut Vec<u8>, n: u32)
    ensures
        final(v)@ == old(v)@ + u32_le(n),
{
    let _ = v.write_u32::<byteorder::LittleEndian>(n);
}

/// `zerocopy::byteorder::U16::new` for the little-endian order, turned into
/// its byte array: the two bytes of `n`, low byte first.
#[verifier::external_body]
pub(crate) fn u16_bytes(n: u16) -> (r: [u8; 2])
    ensures
        r@ == u16_le(n),
{
    zerocopy::byteorder::U16::<zerocopy::byteorder::LittleEndian>::new(n).into()
}

/// `zerocopy::byteorder::U32::new` for the little-endian order, turned into
/// its byte array: the four bytes of `n`, low byte first.
#[verifier::external_body]
pub(crate) fn u32_bytes(n: u32) -> (r: [u8; 4])
    ensures
        r@ == u32_le(n),
{
    zerocopy::byteorder::U32::<zerocopy::byteorder::LittleEndian>::new(n).into()
}

/// Whether `a` and `b` hold the same bytes.
pub fn same_bytes(a: &[u8], b: &[u8]) -> (r: bool)
    ensures
        r == (a@ == b@),
{
    if a.len() != b.len() {
        return false;
    }
    let mut i: usize = 0;
    while i < a.len()
        invariant
            i <= a.len(),
            a.len() == b.len(),
            forall|k: int| 0 <= k < i ==> a@[k] == b@[k],
        decreases a.len() - i,
    {
        if a[i] != b[i] {
            return false;
        }
        i += 1;
    }
    assert(a@ =~= b@);
    true
}

/// The 16-bit little-endian integer at offset `at` of `buf`.
pub fn get_u16(buf: &[u8], at: usize) -> (r: u16)
    requires
        at + 2 <= buf.len(),
    ensures
        r == le_u16(buf@.subrange(at as int, at + 2)),
{
    read_u16(&buf[at..at + 2])
}

/// The 32-bit little-endian integer at offset `at` of `buf`.
pub fn get_u32(buf: &[u8], at: usize) -> (r: u32)
    requires
        at + 4 <= buf.len(),
    ensures
        r == le_u32(buf@.subrange(at as int, at + 4)),
{
    read_u32(&buf[at..at + 4])
}

/// The 64-bit little-endian integer at offset `at` of `buf`.
pub fn get_u64(buf: &[u8], at: usize) -> (r: u64)
    requires
        at + 8 <= buf.len(),
    ensures
        r == le_u64(buf@.subrange(at as int, at + 8)),
{
    read_u64(&buf[at..at + 8])
}

} // verus!
