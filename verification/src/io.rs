//! An in-memory seekable byte stream.

use crate::error::{failure_of, Error, Failure, LeafError};
use vstd::prelude::*;

verus! {

/// The mathematical content of a [`Cursor`]: the bytes it holds and the
/// position of the next read or write.
pub struct Stream {
    pub data: Seq<u8>,
    pub pos: nat,
}

impl Stream {
    /// The stream after `bytes` are written at the position. Bytes already
    /// there are overwritten, a gap between the end of the data and the
    /// position is filled with zeros, and the position moves behind what was
    /// written.
    pub open spec fn put(self, bytes: Seq<u8>) -> Stream {
        let end = self.pos + bytes.len();
        let len = if end > self.data.len() {
            end
        } else {
            self.data.len()
        };
        Stream {
            data: Seq::new(
                len,
                |i: int|
                    if self.pos <= i < end {
                        bytes[i - self.pos]
                    } else if i < self.data.len() {
                        self.data[i]
                    } else {
                        0u8
                    },
            ),
            pos: end,
        }
    }

    /// The `n` bytes at the position, if the data reaches that far.
    pub open spec fn peek(self, n: nat) -> Option<Seq<u8>> {
        if self.pos + n <= self.data.len() {
            Some(self.data.subrange(self.pos as int, (self.pos + n) as int))
        } else {
            None
        }
    }

    /// The same data with the position at `pos`.
    pub open spec fn at(self, pos: nat) -> Stream {
        Stream { data: self.data, pos }
    }
}

/// `n` zero bytes.
pub open spec fn zeros(n: nat) -> Seq<u8> {
    Seq::new(n, |i: int| 0u8)
}

/// A growable in-memory byte stream with a position.
pub struct Cursor {
    inner: Vec<u8>,
    pos: usize,
}

impl View for Cursor {
    type V = Stream;

    closed spec fn view(&self) -> Stream {
        Stream { data: self.inner@, pos: self.pos as nat }
    }
}

impl Cursor {
    /// A stream over `data`, positioned at its start.
    pub fn new(data: Vec<u8>) -> (cursor: Cursor)
        ensures
            cursor@ == (Stream { data: data@, pos: 0 }),
    {
        Cursor { inner: data, pos: 0 }
    }

    /// The bytes of the stream.
    pub fn into_inner(self) -> (data: Vec<u8>)
        ensures
            data@ == self@.data,
    {
        self.inner
    }

    /// The bytes of the stream.
    pub fn get_ref(&self) -> (data: &Vec<u8>)
        ensures
            data@ == self@.data,
    {
        &self.inner
    }

    /// The position of the next read or write.
    pub fn position(&self) -> (pos: usize)
        ensures
            pos == self@.pos,
    {
        self.pos
    }

    /// Moves to `pos`, which may lie behind the end of the data.
    pub fn set_position(&mut self, pos: usize)
        ensures
            final(self)@ == old(self)@.at(pos as nat),
    {
        self.pos = pos;
    }

    /// Moves `n` bytes forward without looking at them. Fails, and stays,
    /// where the new position cannot be addressed.
    pub fn skip(&mut self, n: u64) -> (result: Result<(), Error>)
        ensures
            old(self)@.pos + n <= usize::MAX ==> result is Ok && final(self)@ == old(self)@.at(
                old(self)@.pos + n as nat,
            ),
            old(self)@.pos + n > usize::MAX ==> failure_of(result) == Some(
                Failure::LeafCodecError(LeafError::PositionOverflow),
            ) && final(self)@ == old(self)@,
    {
        if n > (usize::MAX - self.pos) as u64 {
            return Err(Error::LeafCodecError(LeafError::PositionOverflow));
        }
        self.pos = self.pos + n as usize;
        Ok(())
    }

    /// Reads the next `n` bytes and moves behind them. Fails, and stays,
    /// where the data ends before that.
    pub fn read_exact(&mut self, n: usize) -> (result: Result<Vec<u8>, Error>)
        ensures
            final(self)@.data == old(self)@.data,
            match old(self)@.peek(n as nat) {
                Some(bytes) => result matches Ok(read) && read@ == bytes && final(self)@.pos
                    == old(self)@.pos + n,
                None => failure_of(result) == Some(
                    Failure::LeafCodecError(LeafError::UnexpectedEof),
                ) && final(self)@.pos == old(self)@.pos,
            },
    {
        let len: usize = self.inner.len();
        if self.pos > len || n > len - self.pos {
            return Err(Error::LeafCodecError(LeafError::UnexpectedEof));
        }
        let mut out: Vec<u8> = Vec::new();
        let mut i: usize = 0;
        while i < n
            invariant
                i <= n,
                self.pos + n <= self.inner.len(),
                out@ == self.inner@.subrange(self.pos as int, self.pos + i),
            decreases n - i,
        {
            out.push(self.inner[self.pos + i]);
            i = i + 1;
        }
        self.pos = self.pos + n;
        Ok(out)
    }

    /// Writes `bytes` at the position and moves behind them. Fails, and
    /// leaves the stream as it was, where the end cannot be addressed.
    pub fn write_all(&mut self, bytes: &[u8]) -> (result: Result<(), Error>)
        ensures
            old(self)@.pos + bytes@.len() <= usize::MAX ==> result is Ok && final(self)@ == old(
                self,
            )@.put(bytes@),
            old(self)@.pos + bytes@.len() > usize::MAX ==> failure_of(result) == Some(
                Failure::LeafCodecError(LeafError::PositionOverflow),
            ) && final(self)@ == old(self)@,
    {
        let n: usize = bytes.len();
        if n > usize::MAX - self.pos {
            return Err(Error::LeafCodecError(LeafError::PositionOverflow));
        }
        let end: usize = self.pos + n;
        while self.inner.len() < end
            invariant
                self.pos == old(self).pos,
                end == self.pos + n,
                old(self).inner@.len() <= self.inner@.len(),
                self.inner@.len() <= end || self.inner@.len() == old(self).inner@.len(),
                forall|i: int|
                    0 <= i < self.inner@.len() ==> self.inner@[i] == if i < old(self).inner@.len() {
                        old(self).inner@[i]
                    } else {
                        0u8
                    },
            decreases end - self.inner.len(),
        {
            self.inner.push(0u8);
        }
        let mut i: usize = 0;
        while i < n
            invariant
                i <= n,
                n == bytes@.len(),
                self.pos == old(self).pos,
                end == self.pos + n,
                end <= self.inner@.len(),
                self.inner@.len() == if end > old(self).inner@.len() {
                    end as nat
                } else {
                    old(self).inner@.len()
                },
                forall|j: int|
                    0 <= j < self.inner@.len() ==> self.inner@[j] == if self.pos <= j < self.pos
                        + i {
                        bytes@[j - self.pos]
                    } else if j < old(self).inner@.len() {
                        old(self).inner@[j]
                    } else {
                        0u8
                    },
            decreases n - i,
        {
            self.inner.set(self.pos + i, bytes[i]);
            i = i + 1;
        }
        self.pos = end;
        assert(self.inner@ =~= old(self)@.put(bytes@).data);
        Ok(())
    }
}

} // verus!
