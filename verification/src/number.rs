//! JSON numbers.

use vstd::prelude::*;

use crate::json::{Num, Text};
use crate::text;

verus! {

/// The text that `serde_json` prints for the finite binary64 number with the
/// bit pattern `bits`.
pub uninterp spec fn float_text(bits: u64) -> Text;

/// Whether a binary64 bit pattern is that of a finite number.
pub open spec fn finite(bits: u64) -> bool {
    (bits / 0x10_0000_0000_0000) % 0x800 != 0x7ff
}

/// Whether a bit pattern is that of a zero of either sign.
pub open spec fn zero(bits: u64) -> bool {
    bits == 0 || bits == 0x8000_0000_0000_0000
}

/// The parts of a number: an integer of at least zero, an integer below zero, or
/// a finite binary64 number with the text that it prints as.
#[derive(Debug)]
pub enum Parts {
    PosInt(u64),
    NegInt(i64),
    Float { bits: u64, text: String },
}

impl View for Parts {
    type V = Num;

    open spec fn view(&self) -> Num {
        match *self {
            Parts::PosInt(n) => Num::PosInt(n),
            Parts::NegInt(n) => Num::NegInt(n),
            Parts::Float { bits, text } => Num::Float(bits),
        }
    }
}

/// Whether the parts are those of a number.
pub open spec fn proper(p: Parts) -> bool {
    match p {
        Parts::PosInt(_) => true,
        Parts::NegInt(n) => n < 0,
        Parts::Float { bits, text } => finite(bits) && text@ == float_text(bits),
    }
}

/// The text of a number.
pub open spec fn number_text(n: Num) -> Text {
    match n {
        Num::PosInt(n) => text::decimal(n as nat),
        Num::NegInt(n) => text::decimal_int(n as int),
        Num::Float(bits) => float_text(bits),
    }
}

/// The number that an integer is.
pub open spec fn int_number(n: i64) -> Num {
    if n >= 0 {
        Num::PosInt(n as u64)
    } else {
        Num::NegInt(n)
    }
}

/// Whether two numbers are equal: integers as integers, floating point numbers
/// as such. An integer never equals a floating point number.
pub open spec fn same_number(a: Num, b: Num) -> bool {
    match (a, b) {
        (Num::PosInt(x), Num::PosInt(y)) => x == y,
        (Num::NegInt(x), Num::NegInt(y)) => x == y,
        (Num::Float(x), Num::Float(y)) => x == y || (zero(x) && zero(y)),
        _ => false,
    }
}

/// A JSON number.
#[derive(Debug)]
pub struct JsonNumber {
    parts: Parts,
}

impl View for JsonNumber {
    type V = Num;

    closed spec fn view(&self) -> Num {
        self.parts@
    }
}

impl JsonNumber {
    /// The parts are those of a number.
    #[verifier::type_invariant]
    spec fn well_formed(&self) -> bool {
        proper(self.parts)
    }

    /// The number with these parts.
    pub fn from_parts(parts: Parts) -> (r: JsonNumber)
        requires
            proper(parts),
        ensures
            r@ == parts@,
    {
        JsonNumber { parts }
    }

    /// The number `n`.
    pub fn from_i64(n: i64) -> (r: JsonNumber)
        ensures
            r@ == int_number(n),
    {
        if n >= 0 {
            JsonNumber { parts: Parts::PosInt(n as u64) }
        } else {
            JsonNumber { parts: Parts::NegInt(n) }
        }
    }

    /// The parts of the number.
    pub fn parts(&self) -> (r: &Parts)
        ensures
            r@ == self@,
            proper(*r),
    {
        proof {
            use_type_invariant(self);
        }
        &self.parts
    }

    /// The text of the number.
    pub fn to_text(&self) -> (r: String)
        ensures
            r@ == number_text(self@),
    {
        match self.parts() {
            Parts::PosInt(n) => text::u64_text(*n),
            Parts::NegInt(n) => text::i64_text(*n),
            Parts::Float { bits, text } => text.clone(),
        }
    }

    /// Whether two numbers are equal.
    pub fn same(&self, other: &JsonNumber) -> (b: bool)
        ensures
            b == same_number(self@, other@),
    {
        match (self.parts(), other.parts()) {
            (Parts::PosInt(x), Parts::PosInt(y)) => *x == *y,
            (Parts::NegInt(x), Parts::NegInt(y)) => *x == *y,
            (Parts::Float { bits: x, text: _ }, Parts::Float { bits: y, text: _ }) => *x == *y
                || ((*x == 0 || *x == 0x8000_0000_0000_0000) && (*y == 0 || *y
                == 0x8000_0000_0000_0000)),
            _ => false,
        }
    }
}

impl Clone for JsonNumber {
    fn clone(&self) -> (r: JsonNumber)
        ensures
            r@ == self@,
    {
        let parts = match self.parts() {
            Parts::PosInt(n) => Parts::PosInt(*n),
            Parts::NegInt(n) => Parts::NegInt(*n),
            Parts::Float { bits, text } => Parts::Float { bits: *bits, text: text.clone() },
        };
        JsonNumber { parts }
    }
}

} // verus!
