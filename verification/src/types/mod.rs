//! The type system: a bit-packed description of a column type.
//!
//! The type is encoded in a 64-bit word: bits 63..56 hold the tag, bits 55..24
//! the precision, bits 23..8 the scale and bit 0 the nullable flag.

use vstd::prelude::*;

pub mod bool;
pub mod integer;
pub mod numeric;
pub mod numeric_order;
pub mod numeric_text;
pub mod text;
pub mod text_bytes;
pub mod text_order;
pub mod timestamp;

verus! {

/// Type tags used to identify the different database types.
#[derive(Debug, Clone, Copy, PartialEq, Eq, Structural)]
pub enum Tag {
    /// Boolean type
    Bool,
    /// Fixed-length character type
    Char,
    /// 32-bit signed integer type
    Integer,
    /// Fixed-precision decimal type with configurable precision and scale
    Numeric,
    /// Variable-length text type
    Text,
    /// Timestamp type for date/time values
    Timestamp,
    /// Variable-length character type
    VarChar,
}

/// Why a text could not be read as a value of a type.
#[derive(Debug, Clone, Copy, PartialEq, Eq, Structural)]
pub enum InputError {
    /// The text is not a 32-bit integer.
    InvalidInteger,
    /// The text is neither `true` nor `false`.
    InvalidBool,
    /// The text is not a 64-bit integer.
    InvalidTimestamp,
    /// The text is not a decimal number.
    InvalidNumeric,
    /// The number does not fit the precision of its NUMERIC type.
    NumericOverflow { precision: u32, scale: u16 },
}

/// The byte that stands for a tag in the packed encoding.
pub open spec fn tag_code(t: Tag) -> u8 {
    match t {
        Tag::Bool => 0,
        Tag::Char => 1,
        Tag::Integer => 2,
        Tag::Numeric => 3,
        Tag::Text => 4,
        Tag::Timestamp => 5,
        Tag::VarChar => 6,
    }
}

/// The tag that a tag byte stands for (meaningful for bytes below 7).
pub open spec fn tag_of_code(c: u8) -> Tag {
    if c == 0 {
        Tag::Bool
    } else if c == 1 {
        Tag::Char
    } else if c == 2 {
        Tag::Integer
    } else if c == 3 {
        Tag::Numeric
    } else if c == 4 {
        Tag::Text
    } else if c == 5 {
        Tag::Timestamp
    } else {
        Tag::VarChar
    }
}

/// Is the tag one of the three character types?
pub open spec fn is_text_tag(t: Tag) -> bool {
    t == Tag::Text || t == Tag::Char || t == Tag::VarChar
}

/// Is the tag that of a text type (CHAR, VARCHAR or TEXT)?
pub fn is_text(t: Tag) -> (b: bool)
    ensures
        b == is_text_tag(t),
{
    match t {
        Tag::Char | Tag::VarChar | Tag::Text => true,
        _ => false,
    }
}

impl Tag {
    /// The byte of this tag in the packed encoding.
    pub fn code(&self) -> (c: u8)
        ensures
            c == tag_code(*self),
    {
        match self {
            Tag::Bool => 0,
            Tag::Char => 1,
            Tag::Integer => 2,
            Tag::Numeric => 3,
            Tag::Text => 4,
            Tag::Timestamp => 5,
            Tag::VarChar => 6,
        }
    }
}

/// The packed word for a tag byte, a precision, a scale and a nullable flag.
pub open spec fn spec_pack(tag: u8, precision: u32, scale: u16, nullable: bool) -> u64 {
    (((tag as u64) << 56u64) | ((precision as u64) << 24u64) | ((scale as u64) << 8u64)
        | (if nullable { 1u64 } else { 0u64 })) as u64
}

/// Compact representation of a database type in one 64-bit word.
#[derive(Clone, Copy, Debug, PartialEq, Eq, Hash, Structural)]
pub struct Type {
    pub code: u64,
}

impl Type {
    /// The tag byte (bits 63..56).
    pub open spec fn tag_byte(self) -> u8 {
        (self.code >> 56u64) as u8
    }

    /// The precision field (bits 55..24).
    pub open spec fn spec_precision(self) -> u32 {
        (self.code >> 24u64) as u32
    }

    /// The scale field (bits 23..8).
    pub open spec fn spec_scale(self) -> u16 {
        (self.code >> 8u64) as u16
    }

    /// The nullable flag (bit 0).
    pub open spec fn spec_nullable(self) -> bool {
        self.code & 1u64 == 1u64
    }

    /// The tag byte names one of the tags.
    pub open spec fn has_valid_tag(self) -> bool {
        self.tag_byte() < 7
    }

    /// The tag of this type.
    pub open spec fn spec_tag(self) -> Tag {
        tag_of_code(self.tag_byte())
    }

    /// Internal constructor for types with all parameters.
    fn new(tag: Tag, precision: u32, scale: u16, nullable: bool) -> (t: Self)
        ensures
            t.code == spec_pack(tag_code(tag), precision, scale, nullable),
            t.spec_tag() == tag,
            t.has_valid_tag(),
            t.spec_precision() == precision,
            t.spec_scale() == scale,
            t.spec_nullable() == nullable,
    {
        let c = tag.code();
        let n: u64 = if nullable { 1 } else { 0 };
        let code: u64 = ((c as u64) << 56u64) | ((precision as u64) << 24u64) | ((scale as u64)
            << 8u64) | n;
        proof {
            lemma_pack_fields(c, precision, scale, nullable);
        }
        assert(code == spec_pack(c, precision, scale, nullable));
        Self { code }
    }

    /// Creates a BOOLEAN type.
    pub fn new_bool() -> (t: Self)
        ensures
            t == Type::spec_new(Tag::Bool, 0, 0, false),
    {
        Self::new(Tag::Bool, 0, 0, false)
    }

    /// Creates an INTEGER type.
    pub fn new_integer() -> (t: Self)
        ensures
            t == Type::spec_new(Tag::Integer, 0, 0, false),
    {
        Self::new(Tag::Integer, 0, 0, false)
    }

    /// Creates a CHAR type with the given length.
    pub fn new_char(precision: u32) -> (t: Self)
        ensures
            t == Type::spec_new(Tag::Char, precision, 0, false),
    {
        Self::new(Tag::Char, precision, 0, false)
    }

    /// Creates a NUMERIC type with the given precision (1 to 18 digits) and
    /// scale (0 to 18 digits after the point). Precisions and scales from 19
    /// up to SQL's 38 are refused: a NUMERIC value is stored as a scaled
    /// 64-bit integer, which holds at most 18 decimal digits, so no value of
    /// such a type could be read, stored or written.
    pub fn new_numeric(precision: u32, scale: u16) -> (t: Self)
        requires
            0 < precision <= numeric::MAX_PRECISION_NUMERIC,
            scale <= numeric::MAX_SCALE_NUMERIC,
        ensures
            t == Type::spec_new(Tag::Numeric, precision, scale, false),
    {
        Self::new(Tag::Numeric, precision, scale, false)
    }

    /// Creates a TEXT type.
    pub fn new_text() -> (t: Self)
        ensures
            t == Type::spec_new(Tag::Text, 0, 0, false),
    {
        Self::new(Tag::Text, 0, 0, false)
    }

    /// Creates a TIMESTAMP type.
    pub fn new_timestamp() -> (t: Self)
        ensures
            t == Type::spec_new(Tag::Timestamp, 0, 0, false),
    {
        Self::new(Tag::Timestamp, 0, 0, false)
    }

    /// Creates a VARCHAR type with the given maximum length.
    pub fn new_varchar(precision: u32) -> (t: Self)
        ensures
            t == Type::spec_new(Tag::VarChar, precision, 0, false),
    {
        Self::new(Tag::VarChar, precision, 0, false)
    }

    /// The type built from a tag, a precision, a scale and a nullable flag.
    pub open spec fn spec_new(tag: Tag, precision: u32, scale: u16, nullable: bool) -> Type {
        Type { code: spec_pack(tag_code(tag), precision, scale, nullable) }
    }

    /// Returns the nullable version of this type.
    pub fn as_nullable(&self) -> (t: Self)
        ensures
            t.code == self.code | 1u64,
    {
        Self { code: self.code | 1 }
    }

    /// Does the code hold one of the seven tags?
    pub fn valid_tag(&self) -> (b: bool)
        ensures
            b == self.has_valid_tag(),
    {
        ((self.code >> 56u64) as u8) < 7
    }

    /// Returns the tag of this type.
    pub fn tag(&self) -> (t: Tag)
        requires
            self.has_valid_tag(),
        ensures
            t == self.spec_tag(),
            tag_code(t) == self.tag_byte(),
    {
        let b: u8 = (self.code >> 56u64) as u8;
        if b == 0 {
            Tag::Bool
        } else if b == 1 {
            Tag::Char
        } else if b == 2 {
            Tag::Integer
        } else if b == 3 {
            Tag::Numeric
        } else if b == 4 {
            Tag::Text
        } else if b == 5 {
            Tag::Timestamp
        } else {
            Tag::VarChar
        }
    }

    /// Returns the precision (total digits for NUMERIC, length for CHAR/VARCHAR).
    pub fn precision(&self) -> (p: u32)
        ensures
            p == self.spec_precision(),
    {
        (self.code >> 24u64) as u32
    }

    /// Returns the scale (digits after the decimal point) for NUMERIC types.
    pub fn scale(&self) -> (s: u16)
        ensures
            s == self.spec_scale(),
    {
        (self.code >> 8u64) as u16
    }

    /// Returns true if this type allows NULL values.
    pub fn is_nullable(&self) -> (b: bool)
        ensures
            b == self.spec_nullable(),
    {
        self.code & 1 == 1
    }

    /// The name of the type's Rust representation, as used in generated code.
    pub fn fmt_codegen(&self) -> (s: &'static str)
        requires
            self.has_valid_tag(),
        ensures
            s@ == codegen_name(self.spec_tag()),
    {
        match self.tag() {
            Tag::Bool => {
                proof { reveal_strlit("Bool"); }
                "Bool"
            },
            Tag::Char => {
                proof { reveal_strlit("Char"); }
                "Char"
            },
            Tag::Integer => {
                proof { reveal_strlit("Integer"); }
                "Integer"
            },
            Tag::Numeric => {
                proof { reveal_strlit("Numeric"); }
                "Numeric"
            },
            Tag::Text => {
                proof { reveal_strlit("Text"); }
                "Text"
            },
            Tag::Timestamp => {
                proof { reveal_strlit("Timestamp"); }
                "Timestamp"
            },
            Tag::VarChar => {
                proof { reveal_strlit("VarChar"); }
                "VarChar"
            },
        }
    }

    /// The packed word of this type.
    pub fn to_code(&self) -> (c: u64)
        ensures
            c == self.code,
    {
        self.code
    }

    /// The type with the given packed word.
    pub fn from_code(code: u64) -> (t: Self)
        ensures
            t.code == code,
    {
        Self { code }
    }
}

/// The name under which generated code refers to a tag's representation.
pub open spec fn codegen_name(t: Tag) -> Seq<char> {
    match t {
        Tag::Bool => seq!['B', 'o', 'o', 'l'],
        Tag::Char => seq!['C', 'h', 'a', 'r'],
        Tag::Integer => seq!['I', 'n', 't', 'e', 'g', 'e', 'r'],
        Tag::Numeric => seq!['N', 'u', 'm', 'e', 'r', 'i', 'c'],
        Tag::Text => seq!['T', 'e', 'x', 't'],
        Tag::Timestamp => seq!['T', 'i', 'm', 'e', 's', 't', 'a', 'm', 'p'],
        Tag::VarChar => seq!['V', 'a', 'r', 'C', 'h', 'a', 'r'],
    }
}

/// Each field of a packed word reads back the value that was packed into it.
pub proof fn lemma_pack_fields(tag: u8, precision: u32, scale: u16, nullable: bool)
    ensures
        ((spec_pack(tag, precision, scale, nullable) >> 56u64) as u8) == tag,
        ((spec_pack(tag, precision, scale, nullable) >> 24u64) as u32) == precision,
        ((spec_pack(tag, precision, scale, nullable) >> 8u64) as u16) == scale,
        (spec_pack(tag, precision, scale, nullable) & 1u64 == 1u64) == nullable,
{
    let n: u64 = if nullable { 1u64 } else { 0u64 };
    assert(n == 0 || n == 1);
    let c: u64 = ((tag as u64) << 56u64) | ((precision as u64) << 24u64) | ((scale as u64) << 8u64) | n;
    assert(((c >> 56u64) as u8) == tag) by (bit_vector)
        requires c == ((tag as u64) << 56u64) | ((precision as u64) << 24u64) | ((scale as u64) << 8u64) | n, n <= 1;
    assert(((c >> 24u64) as u32) == precision) by (bit_vector)
        requires c == ((tag as u64) << 56u64) | ((precision as u64) << 24u64) | ((scale as u64) << 8u64) | n, n <= 1;
    assert(((c >> 8u64) as u16) == scale) by (bit_vector)
        requires c == ((tag as u64) << 56u64) | ((precision as u64) << 24u64) | ((scale as u64) << 8u64) | n, n <= 1;
    assert((c & 1u64 == 1u64) == (n == 1)) by (bit_vector)
        requires c == ((tag as u64) << 56u64) | ((precision as u64) << 24u64) | ((scale as u64) << 8u64) | n, n <= 1;
}

/// A type built from a tag, precision, scale and nullable flag gives each of
/// them back through its accessors.
pub proof fn lemma_type_roundtrip(tag: Tag, precision: u32, scale: u16, nullable: bool)
    ensures
        Type::spec_new(tag, precision, scale, nullable).has_valid_tag(),
        Type::spec_new(tag, precision, scale, nullable).spec_tag() == tag,
        Type::spec_new(tag, precision, scale, nullable).spec_precision() == precision,
        Type::spec_new(tag, precision, scale, nullable).spec_scale() == scale,
        Type::spec_new(tag, precision, scale, nullable).spec_nullable() == nullable,
{
    lemma_pack_fields(tag_code(tag), precision, scale, nullable);
}

/// Making a type nullable keeps its tag, precision and scale and sets the flag.
pub proof fn law_as_nullable_keeps_fields(t: Type)
    ensures
        (Type { code: t.code | 1u64 }).tag_byte() == t.tag_byte(),
        (Type { code: t.code | 1u64 }).spec_precision() == t.spec_precision(),
        (Type { code: t.code | 1u64 }).spec_scale() == t.spec_scale(),
        (Type { code: t.code | 1u64 }).spec_nullable(),
{
    let c = t.code;
    assert((((c | 1u64) >> 56u64) as u8) == ((c >> 56u64) as u8)) by (bit_vector);
    assert((((c | 1u64) >> 24u64) as u32) == ((c >> 24u64) as u32)) by (bit_vector);
    assert((((c | 1u64) >> 8u64) as u16) == ((c >> 8u64) as u16)) by (bit_vector);
    assert(((c | 1u64) & 1u64) == 1u64) by (bit_vector);
}

} // verus!
