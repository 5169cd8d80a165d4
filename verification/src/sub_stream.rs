//! Bounded substreams: a read-only window over one entry's bytes inside the
//! container, with a sequential cursor and no seeking past the window.

use vstd::prelude::*;
use crate::codec::copy_range;
use crate::error::PakError;

verus! {

/// A read-only window of `length` bytes that started at absolute offset
/// `base_offset` of the container image.  Reads are sequential and clipped
/// to the window; writing is unsupported.
pub struct PackerSubStream {
    /// The window's bytes.
    pub data: Vec<u8>,
    /// Where inside the container the window starts.
    pub base_offset: u64,
    /// The read cursor, clamped to `[0, length]`.
    pub position: usize,
}

impl PackerSubStream {
    /// Builds a substream over `base[offset .. offset + length]`; refused
    /// when the window leaves the underlying bytes.
    pub fn new(base: &[u8], offset: u64, length: u64) -> (r: Option<PackerSubStream>)
        ensures
            match r {
                Some(s) => {
                    &&& offset + length <= base@.len()
                    &&& s.data@ == base@.subrange(offset as int, offset + length)
                    &&& s.base_offset == offset
                    &&& s.position == 0
                },
                None => offset + length > base@.len(),
            },
    {
        if offset as u128 + length as u128 > base.len() as u128 {
            return None;
        }
        let start: usize = offset as usize;
        let end: usize = start + length as usize;
        Some(
            PackerSubStream {
                data: copy_range(base, start, end),
                base_offset: offset,
                position: 0,
            },
        )
    }

    /// The window's length in bytes.
    pub fn length(&self) -> (r: u64)
        ensures
            r == self.data@.len(),
    {
        self.data.len() as u64
    }

    /// The current read cursor.
    pub fn position(&self) -> (r: u64)
        ensures
            r == self.position,
    {
        self.position as u64
    }

    /// Moves the read cursor, clamping it to `[0, length]`.
    pub fn set_position(&mut self, position: u64)
        ensures
            final(self).data == old(self).data,
            final(self).base_offset == old(self).base_offset,
            final(self).position == if position > old(self).data@.len() {
                old(self).data@.len() as int
            } else {
                position as int
            },
    {
        let len: usize = self.data.len();
        self.position = if position > len as u64 {
            len
        } else {
            position as usize
        };
    }

    /// Reads up to `count` bytes from the cursor, clipped to the window, and
    /// advances the cursor past them.
    pub fn read(&mut self, count: usize) -> (r: Vec<u8>)
        ensures
            final(self).data == old(self).data,
            final(self).base_offset == old(self).base_offset,
            ({
                let pos = if old(self).position <= old(self).data@.len() {
                    old(self).position as int
                } else {
                    old(self).data@.len() as int
                };
                let avail = old(self).data@.len() - pos;
                let n = if count <= avail {
                    count as int
                } else {
                    avail
                };
                &&& r@ == old(self).data@.subrange(pos, pos + n)
                &&& final(self).position == pos + n
            }),
    {
        let len: usize = self.data.len();
        let pos: usize = if self.position > len {
            len
        } else {
            self.position
        };
        let avail: usize = len - pos;
        let n: usize = if count <= avail {
            count
        } else {
            avail
        };
        let out = copy_range(self.data.as_slice(), pos, pos + n);
        self.position = pos + n;
        out
    }

    /// Writing through a substream is unsupported and always refused.
    pub fn write(&mut self, _buf: &[u8]) -> (r: Result<usize, PakError>)
        ensures
            *final(self) == *old(self),
            r == Err::<usize, PakError>(PakError::ReadOnly),
    {
        Err(PakError::ReadOnly)
    }
}

} // verus!
