//! The one-byte mark that tells how a value is stored.

use vstd::prelude::*;

verus! {

/// How a value is stored: in place, or as a reference to it.
#[derive(Clone, Copy, Debug, PartialEq, Eq, Structural)]
pub enum BinaryStyle {
    Value,
    Reference,
}

/// The byte that marks `style`.
pub open spec fn style_byte(style: BinaryStyle) -> u8 {
    match style {
        BinaryStyle::Value => 0,
        BinaryStyle::Reference => 1,
    }
}

impl BinaryStyle {
    /// The style that `input` marks. Only 0 and 1 mark a style.
    pub fn from(input: u8) -> (style: BinaryStyle)
        requires
            input <= 1,
        ensures
            style_byte(style) == input,
    {
        if input == 0 {
            BinaryStyle::Value
        } else {
            BinaryStyle::Reference
        }
    }

    /// The style that `input` marks, if it marks one.
    pub fn try_from_byte(input: u8) -> (style: Option<BinaryStyle>)
        ensures
            match style {
                Some(s) => style_byte(s) == input,
                None => input > 1,
            },
    {
        if input <= 1 {
            Some(BinaryStyle::from(input))
        } else {
            None
        }
    }

    /// The byte that marks this style.
    pub fn convert_to_byte(self) -> (byte: u8)
        ensures
            byte == style_byte(self),
    {
        match self {
            BinaryStyle::Value => 0,
            BinaryStyle::Reference => 1,
        }
    }
}

/// Each style is read back from its byte, and no two styles share a byte.
pub proof fn lemma_style_byte_is_one_to_one(a: BinaryStyle, b: BinaryStyle)
    ensures
        style_byte(a) <= 1,
        style_byte(a) == style_byte(b) ==> a == b,
{
}

} // verus!
