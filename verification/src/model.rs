//! The mathematical state of a reader: the bytes it reads from and the
//! position of its cursor, with the moves that the operations make on it and
//! the laws that hold of those moves.

use vstd::prelude::*;
use vstd::arithmetic::div_mod::{lemma_fundamental_div_mod, lemma_mod_multiples_basic};

verus! {

/// What a reader is, seen from outside: a buffer that never changes and a
/// cursor that the operations move. The cursor may stand past the end.
pub struct ReaderState {
    pub bytes: Seq<u8>,
    pub cursor: nat,
}

/// The least multiple of `n` that is not below `cursor`.
pub open spec fn align_up(cursor: nat, n: nat) -> nat
    recommends
        n > 0,
{
    if cursor % n == 0 {
        cursor
    } else {
        (cursor + (n - cursor % n)) as nat
    }
}

/// The first index from `from` on at which `bytes` holds a zero byte, or the
/// length of `bytes` if there is none.
pub open spec fn first_nul(bytes: Seq<u8>, from: nat) -> nat
    decreases bytes.len() - from,
{
    if from >= bytes.len() {
        bytes.len()
    } else if bytes[from as int] == 0 {
        from
    } else {
        first_nul(bytes, from + 1)
    }
}

impl ReaderState {
    /// The state of a reader that was just made over `bytes`.
    pub open spec fn fresh(bytes: Seq<u8>) -> ReaderState {
        ReaderState { bytes, cursor: 0 }
    }

    /// Whether `length` more bytes lie between the cursor and the end.
    pub open spec fn has_space(self, length: nat) -> bool {
        self.cursor + length <= self.bytes.len()
    }

    /// The `length` bytes that start at the cursor.
    pub open spec fn window(self, length: nat) -> Seq<u8>
        recommends
            self.has_space(length),
    {
        self.bytes.subrange(self.cursor as int, (self.cursor + length) as int)
    }

    /// Whether the `length` bytes that start at `position` lie in the buffer.
    pub open spec fn holds(self, position: nat, length: nat) -> bool {
        position + length <= self.bytes.len()
    }

    /// The `length` bytes that start at `position`.
    pub open spec fn block_at(self, position: nat, length: nat) -> Seq<u8>
        recommends
            self.holds(position, length),
    {
        self.bytes.subrange(position as int, (position + length) as int)
    }

    /// The number of bytes from the cursor up to the next zero byte, or up to
    /// the end of the buffer if no zero byte follows.
    pub open spec fn c_str_len(self) -> nat
        recommends
            self.has_space(1),
    {
        (first_nul(self.bytes, self.cursor) - self.cursor) as nat
    }

    /// The same buffer with the cursor `n` further on.
    pub open spec fn advanced(self, n: nat) -> ReaderState {
        ReaderState { bytes: self.bytes, cursor: self.cursor + n }
    }

    /// The same buffer with the cursor `n` further back.
    pub open spec fn rewound(self, n: nat) -> ReaderState
        recommends
            n < self.cursor,
    {
        ReaderState { bytes: self.bytes, cursor: (self.cursor - n) as nat }
    }

    /// The same buffer with the cursor on the next multiple of `n`.
    pub open spec fn aligned(self, n: nat) -> ReaderState
        recommends
            n > 0,
    {
        ReaderState { bytes: self.bytes, cursor: align_up(self.cursor, n) }
    }

    /// The same buffer with the cursor back at the start.
    pub open spec fn reset(self) -> ReaderState {
        ReaderState { bytes: self.bytes, cursor: 0 }
    }
}

/// `first_nul` finds the next zero byte: it lies between `from` and the end,
/// no byte before it is zero, and where it is not the end the byte there is
/// zero.
pub proof fn lemma_first_nul(bytes: Seq<u8>, from: nat)
    requires
        from <= bytes.len(),
    ensures
        from <= first_nul(bytes, from) <= bytes.len(),
        forall|i: int| from <= i < first_nul(bytes, from) ==> bytes[i] != 0,
        first_nul(bytes, from) < bytes.len() ==> bytes[first_nul(bytes, from) as int] == 0,
    decreases bytes.len() - from,
{
    if from < bytes.len() && bytes[from as int] != 0 {
        lemma_first_nul(bytes, from + 1);
    }
}

/// A string read stays inside the buffer: its content ends at or before the
/// end and holds no zero byte, and the cursor that it leaves is at most one
/// past the end, which it is exactly where no zero byte follows the cursor.
pub proof fn lemma_c_str_within_buffer(s: ReaderState)
    requires
        s.has_space(1),
    ensures
        s.has_space(s.c_str_len()),
        forall|i: int| 0 <= i < s.c_str_len() ==> s.window(s.c_str_len())[i] != 0,
        s.advanced(s.c_str_len() + 1).cursor <= s.bytes.len() + 1,
        s.advanced(s.c_str_len() + 1).cursor == s.bytes.len() + 1 <==> (forall|i: int|
            s.cursor <= i < s.bytes.len() ==> s.bytes[i] != 0),
{
    lemma_first_nul(s.bytes, s.cursor);
}

/// Aligning rounds up: the result is a multiple of `n`, not below `cursor`
/// and less than `n` above it.
pub proof fn lemma_align_up_rounds(cursor: nat, n: nat)
    requires
        n > 0,
    ensures
        align_up(cursor, n) % n == 0,
        cursor <= align_up(cursor, n) < cursor + n,
{
    if cursor % n != 0 {
        let q = cursor as int / n as int;
        let r = cursor as int % n as int;
        lemma_fundamental_div_mod(cursor as int, n as int);
        assert(cursor + (n - r) == (q + 1) * n) by (nonlinear_arith)
            requires
                cursor == n * q + r,
        ;
        lemma_mod_multiples_basic(q + 1, n as int);
    }
}

/// To align twice to the same `n` is to align once.
pub proof fn lemma_align_idempotent(s: ReaderState, n: nat)
    requires
        n > 0,
    ensures
        s.aligned(n).aligned(n) == s.aligned(n),
{
    lemma_align_up_rounds(s.cursor, n);
}

/// A reader whose cursor was reset is in the state of a new reader over the
/// same bytes, whatever was read before; so every read gives on the one what
/// it gives on the other.
pub proof fn lemma_reset_is_fresh(s: ReaderState)
    ensures
        s.reset() == ReaderState::fresh(s.bytes),
        forall|n: nat| s.reset().has_space(n) == ReaderState::fresh(s.bytes).has_space(n),
        forall|n: nat| s.reset().window(n) == ReaderState::fresh(s.bytes).window(n),
        s.reset().c_str_len() == ReaderState::fresh(s.bytes).c_str_len(),
{
}

/// After `n` bytes were read and the cursor was then rewound by `n`, which is
/// accepted where `n` is less than the cursor after the read, the reader is
/// in the state from which those bytes were read; so to read again gives the
/// same bytes and leaves the same state.
pub proof fn lemma_rewind_undoes_read(s: ReaderState, n: nat)
    requires
        s.has_space(n),
        n < s.advanced(n).cursor,
    ensures
        s.advanced(n).rewound(n) == s,
        s.advanced(n).rewound(n).has_space(n),
        s.advanced(n).rewound(n).window(n) == s.window(n),
        s.advanced(n).rewound(n).advanced(n) == s.advanced(n),
{
}

/// The same holds of a string read, which moves the cursor one past the
/// length of its content.
pub proof fn lemma_rewind_undoes_c_str(s: ReaderState)
    requires
        s.has_space(1),
        s.c_str_len() + 1 < s.advanced(s.c_str_len() + 1).cursor,
    ensures
        s.advanced(s.c_str_len() + 1).rewound(s.c_str_len() + 1) == s,
        s.advanced(s.c_str_len() + 1).rewound(s.c_str_len() + 1).c_str_len() == s.c_str_len(),
{
}

} // verus!
