//! An output buffer that collects the text a statement writes.

use vstd::prelude::*;

verus! {

/// Collects written text; the program around the library hands it to its writer.
pub struct Output {
    buf: String,
}

impl View for Output {
    type V = Seq<char>;

    closed spec fn view(&self) -> Seq<char> {
        self.buf@
    }
}

impl Output {
    /// An empty buffer.
    pub fn new() -> (o: Self)
        ensures
            o@ == Seq::<char>::empty(),
    {
        Output { buf: String::new() }
    }

    /// Appends `s`.
    pub fn write(&mut self, s: &str)
        ensures
            final(self)@ == old(self)@ + s@,
    {
        self.buf.append(s);
    }

    /// Appends `s` and a line break.
    pub fn writeln(&mut self, s: &str)
        ensures
            final(self)@ == old(self)@ + s@ + seq!['\n'],
    {
        self.buf.append(s);
        proof { reveal_strlit("\n"); }
        self.buf.append("\n");
        assert("\n"@ =~= seq!['\n']);
    }

    /// Appends the decimal text of an unsigned integer.
    pub fn write_u64(&mut self, n: u64)
        ensures
            final(self)@ == old(self)@ + crate::util::decimal::nat_to_decimal(n as nat),
    {
        crate::util::decimal::push_u64(&mut self.buf, n);
    }

    /// Appends the decimal text of a signed integer.
    pub fn write_i64(&mut self, v: i64)
        ensures
            final(self)@ == old(self)@ + crate::util::decimal::int_to_decimal(v as int),
    {
        crate::util::decimal::push_i64(&mut self.buf, v);
    }

    /// The text written so far.
    pub fn as_str(&self) -> (s: &str)
        ensures
            s@ == self@,
    {
        self.buf.as_str()
    }

    /// Gives up the buffer and returns its text.
    pub fn into_string(self) -> (s: String)
        ensures
            s@ == self@,
    {
        self.buf
    }
}

} // verus!
