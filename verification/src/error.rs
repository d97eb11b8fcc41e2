//! The error value reported for an invalid escape sequence.

use crate::stdlib::push_char;
use vstd::prelude::*;
use vstd::string::StringExecFns;

verus! {

/// The decimal digit character for a value below ten.
pub open spec fn decimal_digit(d: nat) -> char
    recommends
        d < 10,
{
    ((0x30 + d) as u32) as char
}

/// The decimal rendering of `n`, most significant digit first.
pub open spec fn decimal_digits(n: nat) -> Seq<char>
    decreases n,
{
    if n < 10 {
        seq![decimal_digit(n)]
    } else {
        decimal_digits(n / 10).push(decimal_digit(n % 10))
    }
}

/// An error representing an invalid escape sequence in a string.
#[derive(Debug, Copy, Clone, PartialEq, Eq, PartialOrd, Ord, Default, Hash, Structural)]
pub struct InvalidEscape {
    /// The byte index of the invalid escape sequence.
    pub index: usize,
}

impl InvalidEscape {
    /// Constructs an invalid escape error from an index.
    pub fn new(index: usize) -> (r: Self)
        ensures
            r.index == index,
    {
        Self { index }
    }

    /// A human-readable rendering of the error.
    pub fn message(&self) -> (r: String)
        ensures
            r@ == "invalid escape sequence at index "@ + decimal_digits(self.index as nat),
    {
        let mut buf = String::from_str("invalid escape sequence at index ");
        push_decimal(&mut buf, self.index);
        buf
    }
}

/// Appends the decimal rendering of `n` to `buf`.
fn push_decimal(buf: &mut String, n: usize)
    ensures
        final(buf)@ == old(buf)@ + decimal_digits(n as nat),
    decreases n,
{
    if n >= 10 {
        push_decimal(buf, n / 10);
    }
    let ghost mid = buf@;
    let d = ((0x30 + n % 10) as u8) as char;
    proof {
        assert(d == decimal_digit((n % 10) as nat));
    }
    push_char(buf, d);
    proof {
        if n < 10 {
            assert(old(buf)@ + decimal_digits(n as nat) =~= old(buf)@.push(d));
        } else {
            assert(old(buf)@ + decimal_digits(n as nat) =~= (old(buf)@ + decimal_digits(
                (n / 10) as nat,
            )).push(d));
        }
    }
}

} // verus!
