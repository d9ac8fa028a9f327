//! Little-endian integer codecs and byte-buffer splicing used by every
//! on-disk structure in this crate.

use vstd::prelude::*;
use vstd::bytes::*;
use vstd::slice::slice_subrange;

verus! {

/// `s` with the `t.len()` bytes starting at `off` replaced by `t`.
pub open spec fn spec_splice(s: Seq<u8>, off: int, t: Seq<u8>) -> Seq<u8> {
    s.take(off) + t + s.skip(off + t.len())
}

pub proof fn lemma_splice_len(s: Seq<u8>, off: int, t: Seq<u8>)
    requires
        0 <= off,
        off + t.len() <= s.len(),
    ensures
        spec_splice(s, off, t).len() == s.len(),
        forall|j: int| 0 <= j < off ==> spec_splice(s, off, t)[j] == s[j],
        forall|j: int| off <= j < off + t.len() ==> spec_splice(s, off, t)[j] == t[j - off],
        forall|j: int| off + t.len() <= j < s.len() ==> spec_splice(s, off, t)[j] == s[j],
{
}

/// Read a `u16` stored little-endian at byte offset `off`.
pub fn read_u16_le(b: &[u8], off: usize) -> (x: u16)
    requires
        off + 2 <= b@.len(),
    ensures
        x == spec_u16_from_le_bytes(b@.subrange(off as int, off + 2)),
{
    let n = b.len();
    u16_from_le_bytes(slice_subrange(b, off, off + 2))
}

/// Read a `u32` stored little-endian at byte offset `off`.
pub fn read_u32_le(b: &[u8], off: usize) -> (x: u32)
    requires
        off + 4 <= b@.len(),
    ensures
        x == spec_u32_from_le_bytes(b@.subrange(off as int, off + 4)),
{
    let n = b.len();
    u32_from_le_bytes(slice_subrange(b, off, off + 4))
}

/// Read a `u64` stored little-endian at byte offset `off`.
pub fn read_u64_le(b: &[u8], off: usize) -> (x: u64)
    requires
        off + 8 <= b@.len(),
    ensures
        x == spec_u64_from_le_bytes(b@.subrange(off as int, off + 8)),
{
    let n = b.len();
    u64_from_le_bytes(slice_subrange(b, off, off + 8))
}

/// Append the two little-endian bytes of `x` to `out`.
pub fn push_u16_le(out: &mut Vec<u8>, x: u16)
    ensures
        final(out)@ == old(out)@ + spec_u16_to_le_bytes(x),
{
    let mut bs = u16_to_le_bytes(x);
    out.append(&mut bs);
}

/// Append the four little-endian bytes of `x` to `out`.
pub fn push_u32_le(out: &mut Vec<u8>, x: u32)
    ensures
        final(out)@ == old(out)@ + spec_u32_to_le_bytes(x),
{
    let mut bs = u32_to_le_bytes(x);
    out.append(&mut bs);
}

/// Append the eight little-endian bytes of `x` to `out`.
pub fn push_u64_le(out: &mut Vec<u8>, x: u64)
    ensures
        final(out)@ == old(out)@ + spec_u64_to_le_bytes(x),
{
    let mut bs = u64_to_le_bytes(x);
    out.append(&mut bs);
}

/// Append `n` zero bytes to `out`.
pub fn push_zeros(out: &mut Vec<u8>, n: usize)
    ensures
        final(out)@.len() == old(out)@.len() + n,
        forall|j: int| 0 <= j < old(out)@.len() ==> final(out)@[j] == old(out)@[j],
        forall|j: int| old(out)@.len() <= j < final(out)@.len() ==> final(out)@[j] == 0u8,
{
    let mut i: usize = 0;
    while i < n
        invariant
            i <= n,
            out@.len() == old(out)@.len() + i,
            forall|j: int| 0 <= j < old(out)@.len() ==> out@[j] == old(out)@[j],
            forall|j: int| old(out)@.len() <= j < out@.len() ==> out@[j] == 0u8,
        decreases n - i,
    {
        out.push(0u8);
        i = i + 1;
    }
}

/// Append all of `src` to `out`.
pub fn push_bytes(out: &mut Vec<u8>, src: &[u8])
    ensures
        final(out)@ == old(out)@ + src@,
{
    let n = src.len();
    let mut i: usize = 0;
    while i < n
        invariant
            n == src@.len(),
            i <= n,
            out@ == old(out)@ + src@.take(i as int),
        decreases n - i,
    {
        out.push(src[i]);
        proof {
            assert(old(out)@ + src@.take(i as int) + seq![src@[i as int]] =~= old(out)@
                + src@.take(i + 1));
        }
        i = i + 1;
    }
    proof {
        assert(old(out)@ + src@.take(n as int) =~= old(out)@ + src@);
    }
}

/// Whether every byte of `b[from .. to]` is zero.
pub fn all_zero_range(b: &[u8], from: usize, to: usize) -> (r: bool)
    requires
        from <= to <= b@.len(),
    ensures
        r == (forall|j: int| from <= j < to ==> b@[j] == 0u8),
{
    let n = b.len();
    let mut i: usize = from;
    let mut ok = true;
    while i < to
        invariant
            from <= i <= to <= n,
            n == b@.len(),
            ok == (forall|j: int| from <= j < i ==> b@[j] == 0u8),
        decreases to - i,
    {
        if b[i] != 0 {
            ok = false;
        }
        i = i + 1;
    }
    ok
}

/// Overwrite `dest[off .. off + src.len()]` with `src`, leaving the rest
/// of `dest` unchanged.
pub fn write_bytes_at(dest: &mut Vec<u8>, off: usize, src: &[u8])
    requires
        off + src@.len() <= old(dest)@.len(),
    ensures
        final(dest)@ == spec_splice(old(dest)@, off as int, src@),
{
    let n = src.len();
    let dn = dest.len();
    let mut i: usize = 0;
    while i < n
        invariant
            n == src@.len(),
            i <= n,
            off + n <= dn,
            dn == dest@.len(),
            dest@.len() == old(dest)@.len(),
            forall|j: int| 0 <= j < i ==> dest@[off + j] == src@[j],
            forall|j: int|
                0 <= j < dest@.len() && !(off <= j < off + i) ==> dest@[j] == old(dest)@[j],
        decreases n - i,
    {
        let b = src[i];
        dest[off + i] = b;
        i = i + 1;
    }
    proof {
        lemma_splice_len(old(dest)@, off as int, src@);
        assert(dest@ =~= spec_splice(old(dest)@, off as int, src@));
    }
}

} // verus!
