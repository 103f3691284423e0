//! A bounds-checked sequential reader over a borrowed in-memory buffer.

use vstd::prelude::*;
use crate::error::PakError;

verus! {

/// Sequential cursor over a borrowed buffer, tracking an absolute offset.
/// The unchecked read methods demand that the caller has already
/// established the bounds; the checked ones fail with `InvalidData`.
pub struct VecCursor<'a, T> {
    pub buffer: &'a Vec<T>,
    pub offset: usize,
}

impl<'a, T: Copy> VecCursor<'a, T> {
    /// A cursor at the start of `data`.
    pub fn new(data: &'a Vec<T>) -> (r: VecCursor<'a, T>)
        ensures
            r.buffer@ == data@,
            r.offset == 0,
    {
        VecCursor { buffer: data, offset: 0 }
    }

    /// A cursor resuming at `offset`, so a later parse phase can continue
    /// exactly where an earlier one stopped.
    pub fn new_with_offset(data: &'a Vec<T>, offset: usize) -> (r: VecCursor<'a, T>)
        ensures
            r.buffer@ == data@,
            r.offset == offset,
    {
        VecCursor { buffer: data, offset }
    }

    /// Reads the next `N` items without a bounds check; the caller must have
    /// established independently that the buffer is large enough.
    pub fn read_nocheck<const N: usize>(&mut self) -> (r: Vec<T>)
        requires
            old(self).offset + N <= old(self).buffer@.len(),
        ensures
            final(self).buffer@ == old(self).buffer@,
            final(self).offset == old(self).offset + N,
            r@ == old(self).buffer@.subrange(
                old(self).offset as int,
                old(self).offset + N,
            ),
    {
        let blen = self.buffer.len();
        let mut out: Vec<T> = Vec::new();
        let mut i: usize = 0;
        while i < N
            invariant
                i <= N,
                self.offset + N <= blen,
                blen == self.buffer@.len(),
                self.buffer@ == old(self).buffer@,
                self.offset == old(self).offset,
                out@ == self.buffer@.subrange(self.offset as int, self.offset + i),
            decreases N - i,
        {
            out.push(self.buffer[self.offset + i]);
            proof {
                assert(out@ =~= self.buffer@.subrange(
                    self.offset as int,
                    self.offset + i + 1,
                ));
            }
            i = i + 1;
        }
        self.move_by(N);
        out
    }

    /// Reads the next `N` items, or fails with `InvalidData` when fewer
    /// remain.
    pub fn read<const N: usize>(&mut self) -> (r: Result<Vec<T>, PakError>)
        ensures
            final(self).buffer@ == old(self).buffer@,
            old(self).offset + N <= old(self).buffer@.len() ==> (r matches Ok(v)
                && v@ == old(self).buffer@.subrange(
                    old(self).offset as int,
                    old(self).offset + N,
                ) && final(self).offset == old(self).offset + N),
            old(self).offset + N > old(self).buffer@.len() ==> (r matches Err(e)
                && (e matches PakError::InvalidData(m) && m@ == "Read past end of buffer"@)
                && final(self).offset == old(self).offset),
    {
        if self.offset > self.buffer.len() || N > self.buffer.len() - self.offset {
            Err(PakError::invalid_data("Read past end of buffer"))
        } else {
            Ok(self.read_nocheck::<N>())
        }
    }

    /// Reads the next `length` items without a bounds check; the caller must
    /// have established independently that the buffer is large enough.
    pub fn read_nocheck_dyn(&mut self, length: usize) -> (r: Vec<T>)
        requires
            old(self).offset + length <= old(self).buffer@.len(),
        ensures
            final(self).buffer@ == old(self).buffer@,
            final(self).offset == old(self).offset + length,
            r@ == old(self).buffer@.subrange(
                old(self).offset as int,
                old(self).offset + length,
            ),
    {
        let blen = self.buffer.len();
        let mut out: Vec<T> = Vec::new();
        let mut i: usize = 0;
        while i < length
            invariant
                i <= length,
                self.offset + length <= blen,
                blen == self.buffer@.len(),
                self.buffer@ == old(self).buffer@,
                self.offset == old(self).offset,
                out@ == self.buffer@.subrange(self.offset as int, self.offset + i),
            decreases length - i,
        {
            out.push(self.buffer[self.offset + i]);
            proof {
                assert(out@ =~= self.buffer@.subrange(
                    self.offset as int,
                    self.offset + i + 1,
                ));
            }
            i = i + 1;
        }
        self.move_by(length);
        out
    }

    /// Reads the next `length` items, or fails with `InvalidData` when fewer
    /// remain.
    pub fn read_dyn(&mut self, length: usize) -> (r: Result<Vec<T>, PakError>)
        ensures
            final(self).buffer@ == old(self).buffer@,
            old(self).offset + length <= old(self).buffer@.len() ==> (r matches Ok(v)
                && v@ == old(self).buffer@.subrange(
                    old(self).offset as int,
                    old(self).offset + length,
                ) && final(self).offset == old(self).offset + length),
            old(self).offset + length > old(self).buffer@.len() ==> (r matches Err(e)
                && (e matches PakError::InvalidData(m) && m@ == "Read past end of buffer"@)
                && final(self).offset == old(self).offset),
    {
        if self.offset > self.buffer.len() || length > self.buffer.len() - self.offset {
            Err(PakError::invalid_data("Read past end of buffer"))
        } else {
            Ok(self.read_nocheck_dyn(length))
        }
    }

    /// Moves the cursor to an absolute offset.
    pub fn move_to(&mut self, offset: usize)
        ensures
            final(self).buffer@ == old(self).buffer@,
            final(self).offset == offset,
    {
        self.offset = offset;
    }

    /// Advances the cursor by `offset` items without reading.
    pub fn move_by(&mut self, offset: usize)
        requires
            old(self).offset + offset <= usize::MAX,
        ensures
            final(self).buffer@ == old(self).buffer@,
            final(self).offset == old(self).offset + offset,
    {
        self.offset = self.offset + offset;
    }
}

} // verus!
