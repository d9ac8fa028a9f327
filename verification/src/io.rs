//! The I/O adapter layer: offset-addressed read and write callbacks,
//! and the bounds-checked adapter for contiguous in-memory images.
//!
//! Each call transfers exactly `buf.len()` bytes at an absolute byte
//! offset or fails; partial transfers are not permitted, so an adapter
//! over a partial-transfer source must loop.  Stream-based adapters
//! (over seekable files and the like) live outside the verified
//! library and implement these traits there.

use vstd::prelude::*;
use crate::Error;

verus! {

/// A source of device bytes.
pub trait DiskRead {
    /// Fill all of `buf` from absolute byte offset `offset`, or fail
    /// without resizing it.
    fn read_at(&mut self, offset: u64, buf: &mut Vec<u8>) -> (r: Result<(), Error>)
        ensures
            final(buf)@.len() == old(buf)@.len(),
    ;
}

/// A sink of device bytes.
pub trait DiskWrite {
    /// Store all of `buf` at absolute byte offset `offset`, or fail.
    fn write_at(&mut self, offset: u64, buf: &[u8]) -> (r: Result<(), Error>);
}

/// A contiguous in-memory device image with bounds-checked access.
pub struct SliceDisk {
    bytes: Vec<u8>,
}

impl View for SliceDisk {
    type V = Seq<u8>;

    closed spec fn view(&self) -> Seq<u8> {
        self.bytes@
    }
}

impl SliceDisk {
    /// Wrap an image.
    pub fn new(bytes: Vec<u8>) -> (r: SliceDisk)
        ensures
            r@ == bytes@,
    {
        SliceDisk { bytes }
    }

    /// Give the image back.
    pub fn into_bytes(self) -> (r: Vec<u8>)
        ensures
            r@ == self@,
    {
        self.bytes
    }

    /// The image size in bytes.
    pub fn size(&self) -> (r: usize)
        ensures
            r == self@.len(),
    {
        self.bytes.len()
    }
}

impl DiskRead for SliceDisk {
    /// Copy out of the image; fails with `Io` when the range lies
    /// outside it.
    fn read_at(&mut self, offset: u64, buf: &mut Vec<u8>) -> (r: Result<(), Error>)
        ensures
            final(self)@ == old(self)@,
            final(buf)@.len() == old(buf)@.len(),
            r is Ok ==> offset + old(buf)@.len() <= old(self)@.len() && final(buf)@ == old(
                self,
            )@.subrange(offset as int, offset + old(buf)@.len()),
            r is Err ==> final(buf)@ == old(buf)@ && r == Err::<(), Error>(Error::Io),
    {
        let n = buf.len();
        let total = self.bytes.len();
        if offset > (total as u64) || (n as u64) > (total as u64) - offset {
            return Err(Error::Io);
        }
        let off: usize = offset as usize;
        proof {
            assert(off as int == offset as int);
        }
        let mut i: usize = 0;
        while i < n
            invariant
                i <= n,
                n == buf@.len(),
                off as int == offset as int,
                total == self.bytes@.len(),
                off + n <= total,
                self@ == self.bytes@,
                self.bytes@ == old(self).bytes@,
                forall|j: int| 0 <= j < i ==> buf@[j] == self.bytes@[off + j],
            decreases n - i,
        {
            let b = self.bytes[off + i];
            buf[i] = b;
            i = i + 1;
        }
        proof {
            assert(buf@ =~= old(self)@.subrange(offset as int, offset + n));
        }
        Ok(())
    }
}

impl DiskWrite for SliceDisk {
    /// Copy into the image; fails with `Io` when the range lies outside
    /// it.
    fn write_at(&mut self, offset: u64, buf: &[u8]) -> (r: Result<(), Error>)
        ensures
            r is Ok ==> offset + buf@.len() <= old(self)@.len() && final(self)@
                == crate::codec::spec_splice(old(self)@, offset as int, buf@),
            r is Err ==> final(self)@ == old(self)@ && r == Err::<(), Error>(Error::Io),
    {
        let n = buf.len();
        let total = self.bytes.len();
        if offset > (total as u64) || (n as u64) > (total as u64) - offset {
            return Err(Error::Io);
        }
        crate::codec::write_bytes_at(&mut self.bytes, offset as usize, buf);
        proof {
            crate::codec::lemma_splice_len(old(self)@, offset as int, buf@);
        }
        Ok(())
    }
}

} // verus!
