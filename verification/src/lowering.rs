//! Lowerings that add no node: values carry their bit patterns, so reading
//! the bits of an integer as a floating-point value of the same width, or
//! the other way round, reads the very output it starts from.

use vstd::prelude::*;

use crate::ir::{IntegerType, Link, NumberType};

verus! {

/// Lowers an integer-to-floating-point reinterpretation as identity.
pub fn transmute_to_number(source: Link, from: IntegerType) -> (lowered: Link)
    ensures
        lowered == source,
{
    match from {
        IntegerType::I32 | IntegerType::I64 => source,
    }
}

/// Lowers a floating-point-to-integer reinterpretation as identity.
pub fn transmute_to_integer(source: Link, from: NumberType) -> (lowered: Link)
    ensures
        lowered == source,
{
    match from {
        NumberType::F32 | NumberType::F64 => source,
    }
}

} // verus!
