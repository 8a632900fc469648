//! Variable-length text.

use vstd::prelude::*;

use crate::types::{InputError, Tag, Type, is_text_tag};
use crate::util::io::Output;

verus! {

/// Variable-length text (CHAR, VARCHAR and TEXT columns).
#[derive(Clone, Debug, Eq, Ord, Hash)]
pub struct Text {
    /// The characters of the text
    pub value: String,
}

impl View for Text {
    type V = Seq<char>;

    open spec fn view(&self) -> Seq<char> {
        self.value@
    }
}

/// A borrowed view of a text stored in a table.
#[derive(Clone, Copy, Debug)]
pub struct TextView<'a> {
    /// The characters of the text
    pub text: &'a str,
}

impl<'a> View for TextView<'a> {
    type V = Seq<char>;

    open spec fn view(&self) -> Seq<char> {
        self.text@
    }
}

impl<'a> TextView<'a> {
    /// The text.
    pub fn as_str(&self) -> (s: &'a str)
        ensures
            s@ == self@,
    {
        self.text
    }
}

impl Text {
    /// Reads a text (no conversion: every text is a valid CHAR, VARCHAR or TEXT value).
    pub fn input(input: &str, ty: Type) -> (r: Result<Self, InputError>)
        requires
            ty.has_valid_tag(),
            is_text_tag(ty.spec_tag()),
            vstd::utf8::encode_utf8(input@).len() <= u32::MAX,
        ensures
            r matches Ok(t) && t@ == input@,
    {
        Ok(Self { value: String::from_str(input) })
    }

    /// Writes a Text to the output.
    pub fn output(writer: &mut Output, ty: Type, out: &Self)
        requires
            ty.has_valid_tag(),
            is_text_tag(ty.spec_tag()),
        ensures
            final(writer)@ == old(writer)@ + out@,
    {
        writer.write(out.value.as_str());
    }

    /// The UTF-8 bytes of the text.
    pub fn as_slice(&self) -> (b: &[u8])
        ensures
            b@ == vstd::utf8::encode_utf8(self@),
    {
        self.value.as_str().as_bytes()
    }

    /// The text.
    pub fn as_str(&self) -> (s: &str)
        ensures
            s@ == self@,
    {
        self.value.as_str()
    }

    /// A view of the text.
    pub fn view_of(&self) -> (v: TextView<'_>)
        ensures
            v@ == self@,
    {
        TextView { text: self.value.as_str() }
    }
}

} // verus!
