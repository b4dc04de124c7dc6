//! The numeric value attached to a symbol or computed from an operand
//! expression: either a single byte or a two-byte word.  Values widen from
//! one byte to two freely; narrowing a two-byte value to one byte is never
//! done implicitly.

use vstd::prelude::*;

verus! {

#[derive(Clone, Copy, PartialEq, Eq, Structural, Debug)]
pub enum InsertableNum {
    Byte(u8),
    TwoByte(u16),
}

impl InsertableNum {
    /// The numeric value, regardless of width.
    pub open spec fn spec_value(self) -> u32 {
        match self {
            InsertableNum::Byte(n) => n as u32,
            InsertableNum::TwoByte(n) => n as u32,
        }
    }

    /// Whether the value carries the two-byte width tag.
    pub open spec fn spec_is_two_bytes(self) -> bool {
        self is TwoByte
    }

    /// The value as a plain integer, losing the width tag.
    pub fn unwrap(self) -> (r: u32)
        ensures
            r == self.spec_value(),
    {
        match self {
            InsertableNum::Byte(num) => num as u32,
            InsertableNum::TwoByte(num) => num as u32,
        }
    }

    /// The value as a single byte.  Narrowing is refused, so a two-byte
    /// value may not be passed in.
    pub fn unwrap_byte(self) -> (r: u8)
        requires
            !self.spec_is_two_bytes(),
        ensures
            r == self.spec_value(),
    {
        match self {
            InsertableNum::Byte(num) => num,
            InsertableNum::TwoByte(_) => {
                proof {
                    assert(false);
                }
                0
            },
        }
    }

    /// The value widened to two bytes; a one-byte value upcasts freely.
    pub fn unwrap_twobyte(self) -> (r: u16)
        ensures
            r == self.spec_value(),
    {
        match self {
            InsertableNum::TwoByte(num) => num,
            InsertableNum::Byte(num) => num as u16,
        }
    }

    /// Whether this value is tagged as two bytes wide.
    pub fn is_two_bytes(self) -> (r: bool)
        ensures
            r == self.spec_is_two_bytes(),
    {
        match self {
            InsertableNum::TwoByte(_) => true,
            InsertableNum::Byte(_) => false,
        }
    }
}

} // verus!
