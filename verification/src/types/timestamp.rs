//! Timestamps, stored as a 64-bit integer.

use vstd::prelude::*;

use crate::types::{InputError, Tag, Type};
use crate::util::decimal::{int_to_decimal, spec_parse_int};
use crate::util::io::Output;

verus! {

/// Timestamp type for storing date/time values.
#[derive(Copy, Clone, Debug, Eq, Hash, PartialEq, Ord, PartialOrd, Structural)]
pub struct Timestamp {
    /// The underlying timestamp value
    pub value: i64,
}

/// What reading a text as a TIMESTAMP gives: an integer text whose value fits in 64 bits.
pub open spec fn spec_timestamp_input(s: Seq<char>) -> Result<Timestamp, InputError> {
    match spec_parse_int(s) {
        Some(v) => if i64::MIN <= v <= i64::MAX {
            Ok(Timestamp { value: v as i64 })
        } else {
            Err(InputError::InvalidTimestamp)
        },
        None => Err(InputError::InvalidTimestamp),
    }
}

/// Reading the text that `Timestamp::output` writes for a value gives the
/// value back.
pub proof fn law_timestamp_output_input(v: i64)
    ensures
        spec_timestamp_input(int_to_decimal(v as int)) == Ok::<Timestamp, InputError>(Timestamp { value: v }),
{
    crate::util::decimal::lemma_parse_int_decimal(v as int);
}

impl Timestamp {
    /// Creates a new Timestamp from an i64 value.
    pub fn new(value: i64) -> (r: Self)
        ensures
            r.value == value,
    {
        Self { value }
    }

    /// Reads a text as a Timestamp.
    pub fn input(input: &str, ty: Type) -> (r: Result<Self, InputError>)
        requires
            ty.has_valid_tag(),
            ty.spec_tag() == Tag::Timestamp,
        ensures
            r == spec_timestamp_input(input@),
    {
        match crate::util::decimal::parse_i64(input) {
            Some(v) => Ok(Self { value: v }),
            None => Err(InputError::InvalidTimestamp),
        }
    }

    /// Writes a Timestamp to the output.
    pub fn output(writer: &mut Output, ty: Type, out: Self)
        requires
            ty.has_valid_tag(),
            ty.spec_tag() == Tag::Timestamp,
        ensures
            final(writer)@ == old(writer)@ + int_to_decimal(out.value as int),
    {
        writer.write_i64(out.value);
    }
}

} // verus!
