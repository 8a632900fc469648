//! 32-bit signed integers.

use vstd::prelude::*;

use crate::types::numeric::{Numeric, encode_signed, numeric_type_ok, pow10, spec_numeric_input};
use crate::types::{InputError, Tag, Type};
use crate::util::decimal::{i64_to_string, int_to_decimal, lemma_parse_int_decimal, spec_parse_int};
use crate::util::io::Output;
use crate::util::strings::{spec_trim, trim, trim_end, trim_start};

verus! {

/// 32-bit signed integer type.
#[derive(Copy, Clone, Debug, Eq, Hash, PartialEq, Ord, PartialOrd, Structural)]
pub struct Integer {
    /// The underlying 32-bit signed integer value
    pub value: i32,
}

/// What reading a text as an INTEGER gives: whitespace alone reads as -1,
/// anything else must be an integer text whose value fits in 32 bits.
pub open spec fn spec_integer_input(s: Seq<char>) -> Result<Integer, InputError> {
    if spec_trim(s).len() == 0 {
        Ok(Integer { value: -1i32 })
    } else {
        match spec_parse_int(s) {
            Some(v) => if i32::MIN <= v <= i32::MAX {
                Ok(Integer { value: v as i32 })
            } else {
                Err(InputError::InvalidInteger)
            },
            None => Err(InputError::InvalidInteger),
        }
    }
}

/// Truncating division of integers (rounds toward zero).
pub open spec fn trunc_div(a: int, b: int) -> int {
    let q = (if a < 0 { -a } else { a }) / (if b < 0 { -b } else { b });
    if (a < 0) != (b < 0) { -q } else { q }
}

/// `i32::wrapping_div`: truncating division, where `i32::MIN / -1` wraps to `i32::MIN`.
pub open spec fn wrapping_div_i32(a: i32, b: i32) -> i32 {
    let q = trunc_div(a as int, b as int);
    if q > i32::MAX { i32::MIN } else { q as i32 }
}

/// Reading the text that `Integer::output` writes for a value gives the
/// value back.
pub proof fn law_integer_output_input(v: i32)
    ensures
        spec_integer_input(int_to_decimal(v as int)) == Ok::<Integer, InputError>(Integer { value: v }),
{
    let s = int_to_decimal(v as int);
    lemma_parse_int_decimal(v as int);
    assert(trim_start(s) == s);
    assert(trim_end(s) == s);
}

impl Integer {
    /// Creates a new Integer from an i32 value.
    pub fn new(value: i32) -> (r: Self)
        ensures
            r.value == value,
    {
        Self { value }
    }

    /// Reads a text as an Integer.
    pub fn input(input: &str, ty: Type) -> (r: Result<Self, InputError>)
        requires
            ty.has_valid_tag(),
            ty.spec_tag() == Tag::Integer,
        ensures
            r == spec_integer_input(input@),
    {
        // Empty (or whitespace-only) input reads as the sentinel value -1.
        if trim(input).unicode_len() == 0 {
            return Ok(Self { value: -1 });
        }
        match crate::util::decimal::parse_i32(input) {
            Some(v) => Ok(Self { value: v }),
            None => Err(InputError::InvalidInteger),
        }
    }

    /// Writes an Integer to the output.
    pub fn output(writer: &mut Output, ty: Type, out: Self)
        requires
            ty.has_valid_tag(),
            ty.spec_tag() == Tag::Integer,
        ensures
            final(writer)@ == old(writer)@ + int_to_decimal(out.value as int),
    {
        writer.write_i64(out.value as i64);
    }

    /// Converts this Integer to a Numeric of the given type, by reading its decimal text.
    pub fn to_numeric(&self, ty: Type) -> (r: Result<Numeric, InputError>)
        requires
            numeric_type_ok(ty),
        ensures
            r == spec_numeric_input(int_to_decimal(self.value as int), ty),
            r == if (if self.value < 0 { -self.value } else { self.value as int }) * pow10(
                ty.spec_scale() as nat,
            ) >= pow10(ty.spec_precision() as nat) {
                Err::<Numeric, InputError>(
                    InputError::NumericOverflow { precision: ty.spec_precision(), scale: ty.spec_scale() },
                )
            } else {
                Ok(Numeric { value: encode_signed(self.value * pow10(ty.spec_scale() as nat)) })
            },
    {
        proof {
            crate::types::numeric_text::lemma_integer_text_input(self.value as int, ty);
        }
        let s = i64_to_string(self.value as i64);
        Numeric::input(s.as_str(), ty)
    }

    /// The value as an `i32`.
    pub fn to_i32(self) -> (v: i32)
        ensures
            v == self.value,
    {
        self.value
    }
}

impl vstd::std_specs::ops::AddSpecImpl for Integer {
    open spec fn obeys_add_spec() -> bool {
        true
    }

    open spec fn add_req(self, rhs: Self) -> bool {
        true
    }

    open spec fn add_spec(self, rhs: Self) -> Self {
        Integer { value: vstd::wrapping::i32_specs::wrapping_add(self.value, rhs.value) }
    }
}

impl vstd::std_specs::ops::SubSpecImpl for Integer {
    open spec fn obeys_sub_spec() -> bool {
        true
    }

    open spec fn sub_req(self, rhs: Self) -> bool {
        true
    }

    open spec fn sub_spec(self, rhs: Self) -> Self {
        Integer { value: vstd::wrapping::i32_specs::wrapping_sub(self.value, rhs.value) }
    }
}

impl vstd::std_specs::ops::MulSpecImpl for Integer {
    open spec fn obeys_mul_spec() -> bool {
        true
    }

    open spec fn mul_req(self, rhs: Self) -> bool {
        true
    }

    open spec fn mul_spec(self, rhs: Self) -> Self {
        Integer { value: vstd::wrapping::i32_specs::wrapping_mul(self.value, rhs.value) }
    }
}

impl core::ops::Add for Integer {
    type Output = Self;

    /// Wrapping addition.
    fn add(self, other: Self) -> (r: Self)
        ensures
            r.value == vstd::wrapping::i32_specs::wrapping_add(self.value, other.value),
    {
        Self { value: self.value.wrapping_add(other.value) }
    }
}

impl core::ops::Sub for Integer {
    type Output = Self;

    /// Wrapping subtraction.
    fn sub(self, other: Self) -> (r: Self)
        ensures
            r.value == vstd::wrapping::i32_specs::wrapping_sub(self.value, other.value),
    {
        Self { value: self.value.wrapping_sub(other.value) }
    }
}

impl core::ops::Mul for Integer {
    type Output = Self;

    /// Wrapping multiplication.
    fn mul(self, other: Self) -> (r: Self)
        ensures
            r.value == vstd::wrapping::i32_specs::wrapping_mul(self.value, other.value),
    {
        Self { value: self.value.wrapping_mul(other.value) }
    }
}

impl Integer {
    /// Wrapping division (the divisor must not be zero).
    pub fn div(self, other: Self) -> (r: Self)
        requires
            other.value != 0,
        ensures
            r.value == wrapping_div_i32(self.value, other.value),
    {
        let a: i64 = self.value as i64;
        let b: i64 = other.value as i64;
        let ma: i64 = if a < 0 { -a } else { a };
        let mb: i64 = if b < 0 { -b } else { b };
        let q: i64 = ma / mb;
        let sq: i64 = if (a < 0) != (b < 0) { -q } else { q };
        proof {
            assert(q <= ma) by (nonlinear_arith)
                requires q == ma / mb, mb >= 1, ma >= 0;
        }
        if sq > 2147483647 {
            Self { value: -2147483648 }
        } else {
            Self { value: sq as i32 }
        }
    }

    /// Wrapping addition in place.
    pub fn add_assign(&mut self, rhs: Self)
        ensures
            final(self).value == vstd::wrapping::i32_specs::wrapping_add(old(self).value, rhs.value),
    {
        self.value = self.value.wrapping_add(rhs.value);
    }

    /// Wrapping subtraction in place.
    pub fn sub_assign(&mut self, rhs: Self)
        ensures
            final(self).value == vstd::wrapping::i32_specs::wrapping_sub(old(self).value, rhs.value),
    {
        self.value = self.value.wrapping_sub(rhs.value);
    }

    /// Wrapping multiplication in place.
    pub fn mul_assign(&mut self, rhs: Self)
        ensures
            final(self).value == vstd::wrapping::i32_specs::wrapping_mul(old(self).value, rhs.value),
    {
        self.value = self.value.wrapping_mul(rhs.value);
    }

    /// Wrapping division in place (the divisor must not be zero).
    pub fn div_assign(&mut self, rhs: Self)
        requires
            rhs.value != 0,
        ensures
            final(self).value == wrapping_div_i32(old(self).value, rhs.value),
    {
        let r = self.div(rhs);
        self.value = r.value;
    }
}

} // verus!
