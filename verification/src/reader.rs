//! The reader itself: a borrowed buffer and a cursor, with the checked reads
//! and the unchecked moves of the cursor.

use vstd::prelude::*;
use vstd::arithmetic::div_mod::lemma_mod_decreases;
use vstd::slice::slice_subrange;
use vstd::utf8::{decode_utf8, valid_utf8};
use crate::endian::{
    be_value, be_word, le_value, le_word, lemma_be_value_bound, lemma_le_value_bound,
    lemma_span_values,
};
use crate::error::ReadError;
use crate::model::{first_nul, ReaderState};
use crate::text::{decode_lossy, utf8_lossy};

verus! {

/// A cursor over a borrowed buffer of bytes. The reader never changes the
/// bytes and never owns them; it only moves its cursor.
pub struct ByteReader<'a> {
    cursor: usize,
    buffer: &'a [u8],
}

impl<'a> View for ByteReader<'a> {
    type V = ReaderState;

    closed spec fn view(&self) -> ReaderState {
        ReaderState { bytes: self.buffer@, cursor: self.cursor as nat }
    }
}

impl<'a> ByteReader<'a> {
    /// Makes a reader over `bytes` with its cursor at the start.
    pub fn new(bytes: &'a [u8]) -> (reader: Self)
        ensures
            reader@ == ReaderState::fresh(bytes@),
    {
        Self { cursor: 0, buffer: bytes }
    }

    /// The length of the whole buffer, not of what is left of it.
    pub fn len(&self) -> (n: usize)
        ensures
            n == self@.bytes.len(),
    {
        self.buffer.len()
    }

    /// The position of the cursor, counted from the start of the buffer.
    pub fn cursor(&self) -> (c: usize)
        ensures
            c == self@.cursor,
    {
        self.cursor
    }

    /// Checks that `length` more bytes can be read at the cursor.
    fn has_space(&self, length: usize) -> (res: Result<(), ReadError>)
        ensures
            res is Ok <==> self@.has_space(length as nat),
            res is Ok ==> self@.cursor + length <= usize::MAX,
            res matches Err(e) ==> e.is_out_of_bounds(
                self@.cursor,
                length as nat,
                self@.bytes.len(),
            ),
    {
        let capacity = self.buffer.len();
        if length > capacity || self.cursor > capacity - length {
            Err(ReadError::OutOfBounds { position: self.cursor, length, capacity })
        } else {
            Ok(())
        }
    }

    /// Moves the cursor `n` bytes on, whether or not the buffer reaches that
    /// far. A read at a cursor past the end fails. The new cursor must fit in
    /// a `usize`.
    pub fn advance(&mut self, n: usize)
        requires
            old(self)@.cursor + n <= usize::MAX,
        ensures
            final(self)@ == old(self)@.advanced(n as nat),
    {
        self.cursor = self.cursor + n;
    }

    /// Moves the cursor up to the next multiple of `n`, and leaves it where it
    /// is if it stands on one. The buffer need not reach that far. `n` must
    /// not be zero, and the new cursor must fit in a `usize`.
    pub fn align(&mut self, n: usize)
        requires
            n > 0,
            old(self)@.aligned(n as nat).cursor <= usize::MAX,
        ensures
            final(self)@ == old(self)@.aligned(n as nat),
    {
        let remain = self.cursor % n;
        if remain != 0 {
            proof {
                lemma_mod_decreases(self.cursor as nat, n as nat);
            }
            self.cursor = self.cursor - remain + n;
        }
    }

    /// Moves the cursor `n` bytes back, where `n` is less than the cursor. To
    /// go back to the start, use `reset`.
    pub fn rewind(&mut self, n: usize) -> (res: Result<(), ReadError>)
        ensures
            res is Ok <==> n < old(self)@.cursor,
            res is Ok ==> final(self)@ == old(self)@.rewound(n as nat),
            res matches Err(e) ==> e.is_invalid_rewind(n as nat, old(self)@.cursor)
                && final(self)@ == old(self)@,
    {
        if n >= self.cursor {
            return Err(ReadError::InvalidRewind { amount: n, cursor: self.cursor });
        }
        self.cursor = self.cursor - n;
        Ok(())
    }

    /// Moves the cursor back to the start.
    pub fn reset(&mut self)
        ensures
            final(self)@ == old(self)@.reset(),
    {
        self.cursor = 0;
    }

    /// The `length` bytes at `position`, wherever the cursor stands. The
    /// cursor is not read and does not move.
    pub fn get_block_at(&self, position: usize, length: usize) -> (res: Result<&'a [u8], ReadError>)
        ensures
            res is Ok <==> self@.holds(position as nat, length as nat),
            res matches Ok(block) ==> block@ == self@.block_at(position as nat, length as nat),
            res matches Err(e) ==> e.is_out_of_bounds(
                position as nat,
                length as nat,
                self@.bytes.len(),
            ),
    {
        let capacity = self.buffer.len();
        if length > capacity || position > capacity - length {
            return Err(ReadError::OutOfBounds { position, length, capacity });
        }
        Ok(slice_subrange(self.buffer, position, position + length))
    }

    /// Reads the next `n` bytes as they are and moves the cursor past them.
    pub fn read_block(&mut self, n: usize) -> (res: Result<&'a [u8], ReadError>)
        ensures
            res is Ok <==> old(self)@.has_space(n as nat),
            res matches Ok(block) ==> block@ == old(self)@.window(n as nat) && final(self)@ == old(
                self,
            )@.advanced(n as nat),
            res matches Err(e) ==> e.is_out_of_bounds(
                old(self)@.cursor,
                n as nat,
                old(self)@.bytes.len(),
            ) && final(self)@ == old(self)@,
    {
        match self.has_space(n) {
            Err(e) => Err(e),
            Ok(()) => {
                let block = slice_subrange(self.buffer, self.cursor, self.cursor + n);
                self.cursor = self.cursor + n;
                Ok(block)
            },
        }
    }

    /// Reads the next byte.
    pub fn read_u8(&mut self) -> (res: Result<u8, ReadError>)
        ensures
            res is Ok <==> old(self)@.has_space(1),
            res matches Ok(v) ==> v == old(self)@.bytes[old(self)@.cursor as int] && final(self)@
                == old(self)@.advanced(1),
            res matches Err(e) ==> e.is_out_of_bounds(old(self)@.cursor, 1, old(self)@.bytes.len())
                && final(self)@ == old(self)@,
    {
        match self.has_space(1) {
            Err(e) => Err(e),
            Ok(()) => {
                let v = self.buffer[self.cursor];
                self.cursor = self.cursor + 1;
                Ok(v)
            },
        }
    }

    /// Reads the next `width` bytes as one number, most significant byte
    /// first, and moves the cursor past them.
    fn take_be(&mut self, width: usize) -> (res: Result<u64, ReadError>)
        requires
            width <= 8,
        ensures
            res is Ok <==> old(self)@.has_space(width as nat),
            res matches Ok(v) ==> v == be_value(old(self)@.window(width as nat)) && final(self)@
                == old(self)@.advanced(width as nat),
            res matches Err(e) ==> e.is_out_of_bounds(
                old(self)@.cursor,
                width as nat,
                old(self)@.bytes.len(),
            ) && final(self)@ == old(self)@,
    {
        match self.has_space(width) {
            Err(e) => Err(e),
            Ok(()) => {
                let word = be_word(self.buffer, self.cursor, width);
                self.cursor = self.cursor + width;
                Ok(word)
            },
        }
    }

    /// Reads the next `width` bytes as one number, least significant byte
    /// first, and moves the cursor past them.
    fn take_le(&mut self, width: usize) -> (res: Result<u64, ReadError>)
        requires
            width <= 8,
        ensures
            res is Ok <==> old(self)@.has_space(width as nat),
            res matches Ok(v) ==> v == le_value(old(self)@.window(width as nat)) && final(self)@
                == old(self)@.advanced(width as nat),
            res matches Err(e) ==> e.is_out_of_bounds(
                old(self)@.cursor,
                width as nat,
                old(self)@.bytes.len(),
            ) && final(self)@ == old(self)@,
    {
        match self.has_space(width) {
            Err(e) => Err(e),
            Ok(()) => {
                let word = le_word(self.buffer, self.cursor, width);
                self.cursor = self.cursor + width;
                Ok(word)
            },
        }
    }

    /// Reads the next 2 bytes as one number, most significant byte first.
    pub fn read_u16_be(&mut self) -> (res: Result<u16, ReadError>)
        ensures
            res is Ok <==> old(self)@.has_space(2),
            res matches Ok(v) ==> v == be_value(old(self)@.window(2)) && final(self)@ == old(
                self,
            )@.advanced(2),
            res matches Err(e) ==> e.is_out_of_bounds(old(self)@.cursor, 2, old(self)@.bytes.len())
                && final(self)@ == old(self)@,
    {
        match self.take_be(2) {
            Err(e) => Err(e),
            Ok(word) => {
                proof {
                    lemma_be_value_bound(old(self)@.window(2));
                    lemma_span_values();
                }
                Ok(word as u16)
            },
        }
    }

    /// Reads the next 2 bytes as one number, least significant byte first.
    pub fn read_u16_le(&mut self) -> (res: Result<u16, ReadError>)
        ensures
            res is Ok <==> old(self)@.has_space(2),
            res matches Ok(v) ==> v == le_value(old(self)@.window(2)) && final(self)@ == old(
                self,
            )@.advanced(2),
            res matches Err(e) ==> e.is_out_of_bounds(old(self)@.cursor, 2, old(self)@.bytes.len())
                && final(self)@ == old(self)@,
    {
        match self.take_le(2) {
            Err(e) => Err(e),
            Ok(word) => {
                proof {
                    lemma_le_value_bound(old(self)@.window(2));
                    lemma_span_values();
                }
                Ok(word as u16)
            },
        }
    }

    /// Reads the next 4 bytes as one number, most significant byte first.
    pub fn read_u32_be(&mut self) -> (res: Result<u32, ReadError>)
        ensures
            res is Ok <==> old(self)@.has_space(4),
            res matches Ok(v) ==> v == be_value(old(self)@.window(4)) && final(self)@ == old(
                self,
            )@.advanced(4),
            res matches Err(e) ==> e.is_out_of_bounds(old(self)@.cursor, 4, old(self)@.bytes.len())
                && final(self)@ == old(self)@,
    {
        match self.take_be(4) {
            Err(e) => Err(e),
            Ok(word) => {
                proof {
                    lemma_be_value_bound(old(self)@.window(4));
                    lemma_span_values();
                }
                Ok(word as u32)
            },
        }
    }

    /// Reads the next 4 bytes as one number, least significant byte first.
    pub fn read_u32_le(&mut self) -> (res: Result<u32, ReadError>)
        ensures
            res is Ok <==> old(self)@.has_space(4),
            res matches Ok(v) ==> v == le_value(old(self)@.window(4)) && final(self)@ == old(
                self,
            )@.advanced(4),
            res matches Err(e) ==> e.is_out_of_bounds(old(self)@.cursor, 4, old(self)@.bytes.len())
                && final(self)@ == old(self)@,
    {
        match self.take_le(4) {
            Err(e) => Err(e),
            Ok(word) => {
                proof {
                    lemma_le_value_bound(old(self)@.window(4));
                    lemma_span_values();
                }
                Ok(word as u32)
            },
        }
    }

    /// Reads the next 8 bytes as one number, most significant byte first.
    pub fn read_u64_be(&mut self) -> (res: Result<u64, ReadError>)
        ensures
            res is Ok <==> old(self)@.has_space(8),
            res matches Ok(v) ==> v == be_value(old(self)@.window(8)) && final(self)@ == old(
                self,
            )@.advanced(8),
            res matches Err(e) ==> e.is_out_of_bounds(old(self)@.cursor, 8, old(self)@.bytes.len())
                && final(self)@ == old(self)@,
    {
        match self.take_be(8) {
            Err(e) => Err(e),
            Ok(word) => {
                proof {
                    lemma_be_value_bound(old(self)@.window(8));
                    lemma_span_values();
                }
                Ok(word as u64)
            },
        }
    }

    /// Reads the next 8 bytes as one number, least significant byte first.
    pub fn read_u64_le(&mut self) -> (res: Result<u64, ReadError>)
        ensures
            res is Ok <==> old(self)@.has_space(8),
            res matches Ok(v) ==> v == le_value(old(self)@.window(8)) && final(self)@ == old(
                self,
            )@.advanced(8),
            res matches Err(e) ==> e.is_out_of_bounds(old(self)@.cursor, 8, old(self)@.bytes.len())
                && final(self)@ == old(self)@,
    {
        match self.take_le(8) {
            Err(e) => Err(e),
            Ok(word) => {
                proof {
                    lemma_le_value_bound(old(self)@.window(8));
                    lemma_span_values();
                }
                Ok(word as u64)
            },
        }
    }

    /// Reads text up to the next zero byte, or up to the end of the buffer if
    /// no zero byte follows, and moves the cursor one past the text: past the
    /// zero byte, or one past the end of the buffer. The bytes are decoded as
    /// UTF-8; what is no valid UTF-8 becomes U+FFFD. The buffer must be
    /// shorter than `usize::MAX`, so that one past its end fits in a `usize`.
    pub fn read_c_str(&mut self) -> (res: Result<String, ReadError>)
        requires
            old(self)@.bytes.len() < usize::MAX,
        ensures
            res is Ok <==> old(self)@.has_space(1),
            res matches Ok(text) ==> {
                let content = old(self)@.window(old(self)@.c_str_len());
                &&& text@ == utf8_lossy(content)
                &&& valid_utf8(content) ==> text@ == decode_utf8(content)
                &&& final(self)@ == old(self)@.advanced(old(self)@.c_str_len() + 1)
            },
            res matches Err(e) ==> e.is_out_of_bounds(old(self)@.cursor, 1, old(self)@.bytes.len())
                && final(self)@ == old(self)@,
    {
        match self.has_space(1) {
            Err(e) => Err(e),
            Ok(()) => {
                let capacity = self.buffer.len();
                let mut end = self.cursor;
                while end < capacity && self.buffer[end] != 0
                    invariant
                        self.cursor <= end <= capacity,
                        capacity == self.buffer@.len(),
                        first_nul(self.buffer@, end as nat) == first_nul(
                            self.buffer@,
                            self.cursor as nat,
                        ),
                    decreases capacity - end,
                {
                    end = end + 1;
                }
                let text = decode_lossy(slice_subrange(self.buffer, self.cursor, end));
                self.cursor = end + 1;
                Ok(text)
            },
        }
    }
}

} // verus!
