//! The two ways in which a call on a reader can fail, and the text that
//! describes each.

use vstd::prelude::*;
use vstd::string::StringExecFns;

verus! {

/// Why a call on a reader failed.
#[derive(Debug, Clone, Copy, PartialEq, Eq, Structural)]
pub enum ReadError {
    /// `length` bytes were asked for at `position`, which ends past the
    /// `capacity` of the buffer.
    OutOfBounds { position: usize, length: usize, capacity: usize },
    /// A rewind by `amount` was asked for while the cursor stood at `cursor`,
    /// which is not beyond `amount`.
    InvalidRewind { amount: usize, cursor: usize },
}

/// The character that stands for the digit `d`.
pub open spec fn digit_char(d: nat) -> char
    recommends
        d < 10,
{
    seq!['0', '1', '2', '3', '4', '5', '6', '7', '8', '9'][d as int]
}

/// The decimal digits of `n`, most significant first, without a sign or a
/// leading zero; zero is the single digit `0`.
pub open spec fn decimal_text(n: nat) -> Seq<char>
    decreases n,
{
    if n < 10 {
        seq![digit_char(n)]
    } else {
        decimal_text(n / 10).push(digit_char(n % 10))
    }
}

/// The text of an `OutOfBounds` error.
pub open spec fn out_of_bounds_text(position: nat, length: nat, capacity: nat) -> Seq<char> {
    "Position: "@ + decimal_text(position) + ", and Length: "@ + decimal_text(length)
        + ", exceeds the buffer size "@ + decimal_text(capacity)
}

/// The text of an `InvalidRewind` error.
pub open spec fn invalid_rewind_text(amount: nat) -> Seq<char> {
    "Rewinding by n: "@ + decimal_text(amount)
        + ", will put the cursor position in negative value. If you want to reset cursor position use `reader.reset()` instead"@
}

/// Calls `to_string` of std on a `usize`, which formats it as `Display` does.
/// Trusted: the result holds the decimal digits of `n`, most significant
/// first, with no sign, no separator and no leading zero.
#[verifier::external_body]
fn decimal(n: usize) -> (text: String)
    ensures
        text@ == decimal_text(n as nat),
{
    n.to_string()
}

impl ReadError {
    /// Whether this is the `OutOfBounds` error that reports exactly these
    /// three numbers.
    pub open spec fn is_out_of_bounds(self, position: nat, length: nat, capacity: nat) -> bool {
        &&& self matches ReadError::OutOfBounds { position: p, length: l, capacity: c }
        &&& p == position
        &&& l == length
        &&& c == capacity
    }

    /// Whether this is the `InvalidRewind` error that reports exactly these
    /// two numbers.
    pub open spec fn is_invalid_rewind(self, amount: nat, cursor: nat) -> bool {
        &&& self matches ReadError::InvalidRewind { amount: a, cursor: c }
        &&& a == amount
        &&& c == cursor
    }

    /// The text that `message` returns.
    pub open spec fn message_text(self) -> Seq<char> {
        match self {
            ReadError::OutOfBounds { position, length, capacity } => out_of_bounds_text(
                position as nat,
                length as nat,
                capacity as nat,
            ),
            ReadError::InvalidRewind { amount, cursor } => invalid_rewind_text(amount as nat),
        }
    }

    /// Describes the error in words. An `OutOfBounds` error names the position
    /// and the length that were asked for and the size of the buffer; an
    /// `InvalidRewind` error names the amount and points to `reset`.
    pub fn message(&self) -> (text: String)
        ensures
            text@ == self.message_text(),
    {
        match *self {
            ReadError::OutOfBounds { position, length, capacity } => {
                let mut text = String::from_str("Position: ");
                text.append(decimal(position).as_str());
                text.append(", and Length: ");
                text.append(decimal(length).as_str());
                text.append(", exceeds the buffer size ");
                text.append(decimal(capacity).as_str());
                text
            },
            ReadError::InvalidRewind { amount, cursor } => {
                let mut text = String::from_str("Rewinding by n: ");
                text.append(decimal(amount).as_str());
                text.append(
                    ", will put the cursor position in negative value. If you want to reset cursor position use `reader.reset()` instead",
                );
                text
            },
        }
    }
}

} // verus!
