//! Booleans.

use vstd::prelude::*;

use crate::types::{InputError, Tag, Type};
use crate::util::io::Output;

verus! {

/// Boolean type.
#[derive(Copy, Clone, Debug, Eq, Hash, PartialEq, Ord, PartialOrd, Structural)]
pub struct Bool {
    /// The underlying boolean value
    pub value: bool,
}

/// The text of a boolean.
pub open spec fn bool_text(b: bool) -> Seq<char> {
    if b {
        seq!['t', 'r', 'u', 'e']
    } else {
        seq!['f', 'a', 'l', 's', 'e']
    }
}

/// What reading a text as a BOOL gives: exactly `true` or `false`.
pub open spec fn spec_bool_input(s: Seq<char>) -> Result<Bool, InputError> {
    if s == bool_text(true) {
        Ok(Bool { value: true })
    } else if s == bool_text(false) {
        Ok(Bool { value: false })
    } else {
        Err(InputError::InvalidBool)
    }
}

/// Reading the text that `Bool::output` writes for a value gives the value
/// back.
pub proof fn law_bool_output_input(b: bool)
    ensures
        spec_bool_input(bool_text(b)) == Ok::<Bool, InputError>(Bool { value: b }),
{
    assert(bool_text(false) != bool_text(true));
}

impl Bool {
    /// Creates a new Bool from a bool value.
    pub fn new(value: bool) -> (r: Self)
        ensures
            r.value == value,
    {
        Self { value }
    }

    /// Reads a text as a Bool.
    pub fn input(input: &str, ty: Type) -> (r: Result<Self, InputError>)
        requires
            ty.has_valid_tag(),
            ty.spec_tag() == Tag::Bool,
        ensures
            r == spec_bool_input(input@),
    {
        proof {
            reveal_strlit("true");
            reveal_strlit("false");
        }
        assert("true"@ =~= bool_text(true));
        assert("false"@ =~= bool_text(false));
        if crate::util::strings::str_eq(input, "true") {
            Ok(Self { value: true })
        } else if crate::util::strings::str_eq(input, "false") {
            Ok(Self { value: false })
        } else {
            Err(InputError::InvalidBool)
        }
    }

    /// Writes a Bool to the output.
    pub fn output(writer: &mut Output, ty: Type, out: Self)
        requires
            ty.has_valid_tag(),
            ty.spec_tag() == Tag::Bool,
        ensures
            final(writer)@ == old(writer)@ + bool_text(out.value),
    {
        proof {
            reveal_strlit("true");
            reveal_strlit("false");
        }
        assert("true"@ =~= bool_text(true));
        assert("false"@ =~= bool_text(false));
        if out.value {
            writer.write("true");
        } else {
            writer.write("false");
        }
    }

    /// The value as a `bool`.
    pub fn to_bool(self) -> (b: bool)
        ensures
            b == self.value,
    {
        self.value
    }
}

} // verus!
