//! Helpers for reading and writing the on-disk structures byte by byte.

use vstd::array::array_fill_for_copy_types;
use vstd::bytes::{spec_u16_from_le_bytes, spec_u16_to_le_bytes, spec_u32_from_le_bytes, spec_u32_to_le_bytes};
use vstd::prelude::*;

verus! {

/// Appends `src` to `dst`.
pub fn push_all(dst: &mut Vec<u8>, src: &[u8])
    ensures
        final(dst)@ == old(dst)@ + src@,
{
    let mut i: usize = 0;
    while i < src.len()
        invariant
            i <= src@.len(),
            dst@ == old(dst)@ + src@.take(i as int),
        decreases src@.len() - i,
    {
        dst.push(src[i]);
        proof {
            assert(dst@ =~= old(dst)@ + src@.take(i as int + 1));
        }
        i = i + 1;
    }
    proof {
        assert(src@.take(i as int) =~= src@);
    }
}

/// The `N` bytes of `buf` at `off`, as an array.
pub fn read_array<const N: usize>(buf: &[u8], off: usize) -> (r: [u8; N])
    requires
        off + N <= buf@.len(),
    ensures
        r@ == buf@.subrange(off as int, off + N),
{
    let buf_len = buf.len();
    let mut a: [u8; N] = array_fill_for_copy_types(0u8);
    let mut i: usize = 0;
    while i < N
        invariant
            i <= N,
            off + N <= buf@.len(),
            buf_len == buf@.len(),
            a@.len() == N,
            forall|j: int| 0 <= j < i ==> a@[j] == buf@[off + j],
        decreases N - i,
    {
        a[i] = buf[off + i];
        i = i + 1;
    }
    proof {
        assert(a@ =~= buf@.subrange(off as int, off + N));
    }
    a
}

/// Two bytes are the little-endian encoding of the `u16` they decode to.
pub proof fn lemma_le16_bytes(s: Seq<u8>)
    ensures
        s.len() == 2 ==> spec_u16_to_le_bytes(spec_u16_from_le_bytes(s)) == s,
{
    vstd::bytes::lemma_auto_spec_u16_to_from_le_bytes();
}

/// Four bytes are the little-endian encoding of the `u32` they decode to.
pub proof fn lemma_le32_bytes(s: Seq<u8>)
    ensures
        s.len() == 4 ==> spec_u32_to_le_bytes(spec_u32_from_le_bytes(s)) == s,
{
    vstd::bytes::lemma_auto_spec_u32_to_from_le_bytes();
}

} // verus!
