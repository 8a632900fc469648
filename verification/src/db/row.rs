//! The physical layout of a row: each value occupies a fixed-size slot.
//!
//! A BOOL takes one byte (0 or 1); an INTEGER four and a NUMERIC or TIMESTAMP
//! eight little-endian bytes. A text slot takes sixteen bytes: the length of
//! the text in UTF-8 bytes (four bytes), four zero bytes, and the index of the
//! text in the table's text store (eight bytes).

use vstd::prelude::*;
use vstd::bytes::{
    spec_u32_from_le_bytes, spec_u32_to_le_bytes, spec_u64_from_le_bytes, spec_u64_to_le_bytes,
    u32_from_le_bytes, u32_to_le_bytes, u64_from_le_bytes, u64_to_le_bytes,
};
use vstd::slice::slice_subrange;

use crate::db::column::column_size;
use crate::db::error::DbError;
use crate::db::value::{Value, ValueModel, model_has_tag};
use crate::types::bool::{Bool, spec_bool_input};
use crate::types::integer::{Integer, spec_integer_input};
use crate::types::numeric::{Numeric, numeric_type_ok, spec_numeric_input};
use crate::types::text::{Text, TextView};
use crate::types::timestamp::{Timestamp, spec_timestamp_input};
use crate::types::{InputError, Tag, Type, is_text_tag};

verus! {

broadcast use vstd::slice::group_slice_axioms;

/// The characters of each stored text.
pub open spec fn text_views(texts: Seq<String>) -> Seq<Seq<char>> {
    texts.map_values(|s: String| s@)
}

/// The number of UTF-8 bytes of a text.
pub open spec fn utf8_len(s: Seq<char>) -> nat {
    vstd::utf8::encode_utf8(s).len()
}

/// The slot bytes of a value; a text is stored at `text_index` of the text store.
pub open spec fn encode_model(m: ValueModel, text_index: nat) -> Seq<u8> {
    match m {
        ValueModel::Bool(b) => seq![if b { 1u8 } else { 0u8 }],
        ValueModel::Integer(i) => spec_u32_to_le_bytes(i as u32),
        ValueModel::Numeric(n) => spec_u64_to_le_bytes(n),
        ValueModel::Timestamp(t) => spec_u64_to_le_bytes(t as u64),
        ValueModel::Text(s) => spec_u32_to_le_bytes(utf8_len(s) as u32) + seq![0u8, 0u8, 0u8, 0u8]
            + spec_u64_to_le_bytes(text_index as u64),
    }
}

/// The index in the text store that a text slot holds.
pub open spec fn slot_text_index(bytes: Seq<u8>) -> nat {
    spec_u64_from_le_bytes(bytes.subrange(8, 16)) as nat
}

/// The value that the bytes of a slot of the given type stand for.
pub open spec fn decode_model(bytes: Seq<u8>, t: Tag, texts: Seq<Seq<char>>) -> ValueModel {
    match t {
        Tag::Bool => ValueModel::Bool(bytes[0] != 0),
        Tag::Integer => ValueModel::Integer(spec_u32_from_le_bytes(bytes) as i32),
        Tag::Numeric => ValueModel::Numeric(spec_u64_from_le_bytes(bytes)),
        Tag::Timestamp => ValueModel::Timestamp(spec_u64_from_le_bytes(bytes) as i64),
        _ => ValueModel::Text(texts[slot_text_index(bytes) as int]),
    }
}

/// Reading the slot of a value gives the value back.
pub proof fn lemma_decode_encode(m: ValueModel, t: Tag, texts: Seq<Seq<char>>, idx: nat)
    requires
        model_has_tag(m, t),
        idx <= u64::MAX,
        m is Text ==> idx < texts.len() && texts[idx as int] == m->Text_0,
    ensures
        encode_model(m, idx).len() == column_size(t),
        decode_model(encode_model(m, idx), t, texts) == m,
        is_text_tag(t) ==> slot_text_index(encode_model(m, idx)) == idx,
{
    vstd::bytes::lemma_auto_spec_u32_to_from_le_bytes();
    vstd::bytes::lemma_auto_spec_u64_to_from_le_bytes();
    match m {
        ValueModel::Integer(i) => {
            assert((i as u32) as i32 == i) by (bit_vector);
        },
        ValueModel::Timestamp(v) => {
            assert((v as u64) as i64 == v) by (bit_vector);
        },
        ValueModel::Text(s) => {
            let e = encode_model(m, idx);
            assert(e.subrange(8, 16) =~= spec_u64_to_le_bytes(idx as u64));
        },
        _ => {},
    }
}

/// Decoding the slot that encoding a value appended to a row, with the text
/// store as encoding left it, gives the value back: what `encode_value_fixed`
/// (or `encode_field_fixed`) writes, `decode_value_fixed` and
/// `decode_value_ref` read as the same value, and a text slot refers to a
/// text in the store.
pub proof fn law_decode_after_encode(before: Seq<u8>, m: ValueModel, t: Tag, texts: Seq<Seq<char>>)
    requires
        model_has_tag(m, t),
        texts.len() < u64::MAX,
    ensures
        ({
            let after = before + encode_model(m, texts.len());
            let slot = after.subrange(before.len() as int, (before.len() + column_size(t)) as int);
            &&& before.len() + column_size(t) <= after.len()
            &&& is_text_tag(t) ==> slot_text_index(slot) < texts_after(texts, m).len()
            &&& decode_model(slot, t, texts_after(texts, m)) == m
        }),
{
    let t2 = texts_after(texts, m);
    if m is Text {
        assert(t2[texts.len() as int] == m->Text_0);
    }
    lemma_decode_encode(m, t, t2, texts.len());
    let after = before + encode_model(m, texts.len());
    assert(after.subrange(before.len() as int, (before.len() + column_size(t)) as int) =~= encode_model(m, texts.len()));
    if is_text_tag(t) {
        assert(m is Text);
    }
}

/// The slot of a value is as long as its column's size.
pub proof fn lemma_encode_len(m: ValueModel, t: Tag, idx: nat)
    requires
        model_has_tag(m, t),
    ensures
        encode_model(m, idx).len() == column_size(t),
{
    vstd::bytes::lemma_auto_spec_u32_to_from_le_bytes();
    vstd::bytes::lemma_auto_spec_u64_to_from_le_bytes();
}

/// A field read as a value of a type gives a value of that type.
pub proof fn lemma_field_input_tag(s: Seq<char>, ty: Type)
    requires
        spec_field_input(s, ty) is Ok,
    ensures
        model_has_tag(spec_field_input(s, ty)->Ok_0, ty.spec_tag()),
{
}

/// Decoding the slot that encoding a field's value appended gives the value
/// the field reads as: what `encode_field_fixed` writes, `decode_value_ref`
/// and `decode_value_fixed` read back.
pub proof fn law_decode_after_field_encode(before: Seq<u8>, s: Seq<char>, ty: Type, texts: Seq<Seq<char>>)
    requires
        spec_field_input(s, ty) is Ok,
        texts.len() < u64::MAX,
    ensures
        ({
            let m = spec_field_input(s, ty)->Ok_0;
            let after = before + encode_model(m, texts.len());
            let slot = after.subrange(before.len() as int, (before.len() + column_size(ty.spec_tag())) as int);
            &&& after.len() == before.len() + column_size(ty.spec_tag())
            &&& is_text_tag(ty.spec_tag()) ==> slot_text_index(slot) < texts_after(texts, m).len()
            &&& decode_model(slot, ty.spec_tag(), texts_after(texts, m)) == m
        }),
{
    let m = spec_field_input(s, ty)->Ok_0;
    lemma_field_input_tag(s, ty);
    lemma_encode_len(m, ty.spec_tag(), texts.len());
    law_decode_after_encode(before, m, ty.spec_tag(), texts);
}

/// What reading a field of a file as a value of the given type gives.
pub open spec fn spec_field_input(s: Seq<char>, ty: Type) -> Result<ValueModel, InputError> {
    match ty.spec_tag() {
        Tag::Bool => match spec_bool_input(s) {
            Ok(b) => Ok(ValueModel::Bool(b.value)),
            Err(e) => Err(e),
        },
        Tag::Integer => match spec_integer_input(s) {
            Ok(i) => Ok(ValueModel::Integer(i.value)),
            Err(e) => Err(e),
        },
        Tag::Numeric => match spec_numeric_input(s, ty) {
            Ok(n) => Ok(ValueModel::Numeric(n.value)),
            Err(e) => Err(e),
        },
        Tag::Timestamp => match spec_timestamp_input(s) {
            Ok(t) => Ok(ValueModel::Timestamp(t.value)),
            Err(e) => Err(e),
        },
        _ => Ok(ValueModel::Text(s)),
    }
}

/// The fields for which reading stays within the arithmetic and the slot layout.
pub open spec fn field_input_defined(s: Seq<char>, ty: Type) -> bool {
    &&& ty.has_valid_tag()
    &&& ty.spec_tag() == Tag::Numeric ==> numeric_type_ok(ty)
    &&& is_text_tag(ty.spec_tag()) ==> utf8_len(s) <= u32::MAX
}

/// The values whose slot bytes can be written.
pub open spec fn value_storable(m: ValueModel) -> bool {
    m is Text ==> utf8_len(m->Text_0) <= u32::MAX
}

/// The text store after storing a value: a text is appended, other values leave it alone.
pub open spec fn texts_after(texts: Seq<Seq<char>>, m: ValueModel) -> Seq<Seq<char>> {
    match m {
        ValueModel::Text(s) => texts.push(s),
        _ => texts,
    }
}

/// A value read from a table: texts are borrowed from the table's text store.
#[derive(Debug, Clone, Copy)]
pub enum ValueRef<'a> {
    Bool(bool),
    Integer(i32),
    Numeric(u64),
    Timestamp(i64),
    Text(TextView<'a>),
}

impl<'a> ValueRef<'a> {
    /// The content of the value.
    pub open spec fn model(&self) -> ValueModel {
        match self {
            ValueRef::Bool(b) => ValueModel::Bool(*b),
            ValueRef::Integer(i) => ValueModel::Integer(*i),
            ValueRef::Numeric(n) => ValueModel::Numeric(*n),
            ValueRef::Timestamp(t) => ValueModel::Timestamp(*t),
            ValueRef::Text(t) => ValueModel::Text(t@),
        }
    }

    /// The bytes of a value as the hash join compares them: the fixed-size
    /// little-endian bytes of a number, the UTF-8 bytes of a text.
    pub fn value_ref_to_bytes(v: ValueRef) -> (b: Vec<u8>)
        ensures
            b@ == value_bytes(v.model()),
    {
        match v {
            ValueRef::Bool(b) => {
                let mut out = Vec::new();
                out.push(if b { 1u8 } else { 0u8 });
                assert(out@ =~= value_bytes(v.model()));
                out
            },
            ValueRef::Integer(i) => u32_to_le_bytes(#[verifier::truncate] (i as u32)),
            ValueRef::Numeric(n) => u64_to_le_bytes(n),
            ValueRef::Timestamp(t) => u64_to_le_bytes(#[verifier::truncate] (t as u64)),
            ValueRef::Text(tv) => vstd::slice::slice_to_vec(tv.as_str().as_bytes()),
        }
    }

    /// Equality of two values read from tables: same type and same content.
    pub fn equals(&self, other: &ValueRef) -> (r: bool)
        ensures
            r == (self.model() == other.model()),
    {
        match (self, other) {
            (ValueRef::Bool(a), ValueRef::Bool(b)) => *a == *b,
            (ValueRef::Integer(a), ValueRef::Integer(b)) => *a == *b,
            (ValueRef::Numeric(a), ValueRef::Numeric(b)) => *a == *b,
            (ValueRef::Timestamp(a), ValueRef::Timestamp(b)) => *a == *b,
            (ValueRef::Text(a), ValueRef::Text(b)) => crate::util::strings::str_eq(a.as_str(), b.as_str()),
            _ => false,
        }
    }
}

/// The bytes by which the hash join compares a value.
pub open spec fn value_bytes(m: ValueModel) -> Seq<u8> {
    match m {
        ValueModel::Bool(b) => seq![if b { 1u8 } else { 0u8 }],
        ValueModel::Integer(i) => spec_u32_to_le_bytes(i as u32),
        ValueModel::Numeric(n) => spec_u64_to_le_bytes(n),
        ValueModel::Timestamp(t) => spec_u64_to_le_bytes(t as u64),
        ValueModel::Text(s) => vstd::utf8::encode_utf8(s),
    }
}

/// Appends the slot of a text stored at `index` of the text store.
fn push_text_slot(buf: &mut Vec<u8>, len: u32, index: u64)
    ensures
        final(buf)@ == old(buf)@ + spec_u32_to_le_bytes(len) + seq![0u8, 0u8, 0u8, 0u8]
            + spec_u64_to_le_bytes(index),
{
    let mut a = u32_to_le_bytes(len);
    buf.append(&mut a);
    buf.push(0u8);
    buf.push(0u8);
    buf.push(0u8);
    buf.push(0u8);
    let mut b = u64_to_le_bytes(index);
    buf.append(&mut b);
    assert(final(buf)@ =~= old(buf)@ + spec_u32_to_le_bytes(len) + seq![0u8, 0u8, 0u8, 0u8]
        + spec_u64_to_le_bytes(index));
}

/// Appends the slot of a text to the row and the text to the text store.
pub fn push_text_struct(buf: &mut Vec<u8>, texts: &mut Vec<String>, t: Text)
    requires
        utf8_len(t@) <= u32::MAX,
    ensures
        final(buf)@ == old(buf)@ + encode_model(ValueModel::Text(t@), old(texts)@.len()),
        text_views(final(texts)@) == text_views(old(texts)@).push(t@),
{
    let len = t.value.as_str().len();
    let index = texts.len() as u64;
    push_text_slot(buf, len as u32, index);
    let ghost v = t@;
    texts.push(t.value);
    assert(text_views(final(texts)@) =~= text_views(old(texts)@).push(v));
}

/// Appends the slot of a value of the column's type to the row.
pub fn encode_value_fixed(buf: &mut Vec<u8>, texts: &mut Vec<String>, col_type: Type, v: &Value) -> (r:
    Result<(), DbError>)
    requires
        col_type.has_valid_tag(),
        model_has_tag(v.model(), col_type.spec_tag()) ==> value_storable(v.model()),
    ensures
        model_has_tag(v.model(), col_type.spec_tag()) ==> {
            &&& r is Ok
            &&& final(buf)@ == old(buf)@ + encode_model(v.model(), old(texts)@.len())
            &&& final(buf)@.len() == old(buf)@.len() + column_size(col_type.spec_tag())
            &&& text_views(final(texts)@) == texts_after(text_views(old(texts)@), v.model())
        },
        !model_has_tag(v.model(), col_type.spec_tag()) ==> {
            &&& r == Err::<(), DbError>(DbError::TypeMismatch)
            &&& final(buf)@ == old(buf)@
            &&& final(texts)@ == old(texts)@
        },
{
    proof {
        if model_has_tag(v.model(), col_type.spec_tag()) {
            lemma_encode_len(v.model(), col_type.spec_tag(), old(texts)@.len());
        }
    }
    let tag = col_type.tag();
    match (tag, v) {
        (Tag::Bool, Value::Bool(b)) => {
            buf.push(if b.value { 1u8 } else { 0u8 });
            assert(final(buf)@ =~= old(buf)@ + encode_model(v.model(), old(texts)@.len()));
            Ok(())
        },
        (Tag::Integer, Value::Integer(i)) => {
            let mut bytes = u32_to_le_bytes(#[verifier::truncate] (i.value as u32));
            buf.append(&mut bytes);
            Ok(())
        },
        (Tag::Numeric, Value::Numeric(n)) => {
            let mut bytes = u64_to_le_bytes(n.value);
            buf.append(&mut bytes);
            Ok(())
        },
        (Tag::Timestamp, Value::Timestamp(ts)) => {
            let mut bytes = u64_to_le_bytes(#[verifier::truncate] (ts.value as u64));
            buf.append(&mut bytes);
            Ok(())
        },
        (Tag::Text, Value::Text(t)) | (Tag::Char, Value::Text(t)) | (Tag::VarChar, Value::Text(t)) => {
            push_text_struct(buf, texts, Text { value: t.value.clone() });
            Ok(())
        },
        _ => Err(DbError::TypeMismatch),
    }
}

/// Can the field be read as a value of the type without overflow, and does a
/// text field fit the slot's length?
pub fn field_readable(field: &str, col_type: Type) -> (b: bool)
    ensures
        b == field_input_defined(field@, col_type),
{
    if !col_type.valid_tag() {
        return false;
    }
    match col_type.tag() {
        Tag::Numeric => col_type.precision() <= 18 && col_type.scale() <= 18,
        Tag::Text | Tag::Char | Tag::VarChar => field.as_bytes().len() <= 4294967295,
        _ => true,
    }
}

/// Reads a field of a file as a value of the column's type.
pub fn field_input(field: &str, col_type: Type) -> (r: Result<Value, InputError>)
    requires
        field_input_defined(field@, col_type),
    ensures
        match spec_field_input(field@, col_type) {
            Ok(m) => r matches Ok(v) && v.model() == m,
            Err(e) => r == Err::<Value, InputError>(e),
        },
{
    match col_type.tag() {
        Tag::Bool => match Bool::input(field, col_type) {
            Ok(v) => Ok(Value::Bool(v)),
            Err(e) => Err(e),
        },
        Tag::Integer => match Integer::input(field, col_type) {
            Ok(v) => Ok(Value::Integer(v)),
            Err(e) => Err(e),
        },
        Tag::Numeric => match Numeric::input(field, col_type) {
            Ok(v) => Ok(Value::Numeric(v)),
            Err(e) => Err(e),
        },
        Tag::Timestamp => match Timestamp::input(field, col_type) {
            Ok(v) => Ok(Value::Timestamp(v)),
            Err(e) => Err(e),
        },
        Tag::Text | Tag::Char | Tag::VarChar => match Text::input(field, col_type) {
            Ok(t) => Ok(Value::Text(t)),
            Err(e) => Err(e),
        },
    }
}

/// Reads a field of a file as a value of the column's type and appends its slot to the row.
pub fn encode_field_fixed(buf: &mut Vec<u8>, texts: &mut Vec<String>, col_type: Type, field: &str) -> (r:
    Result<(), DbError>)
    requires
        field_input_defined(field@, col_type),
    ensures
        match spec_field_input(field@, col_type) {
            Ok(m) => {
                &&& r is Ok
                &&& final(buf)@ == old(buf)@ + encode_model(m, old(texts)@.len())
                &&& final(buf)@.len() == old(buf)@.len() + column_size(col_type.spec_tag())
                &&& text_views(final(texts)@) == texts_after(text_views(old(texts)@), m)
            },
            Err(e) => {
                &&& r == Err::<(), DbError>(DbError::Input(e))
                &&& final(buf)@ == old(buf)@
                &&& final(texts)@ == old(texts)@
            },
        },
{
    proof {
        if spec_field_input(field@, col_type) is Ok {
            lemma_field_input_tag(field@, col_type);
            lemma_encode_len(spec_field_input(field@, col_type)->Ok_0, col_type.spec_tag(), old(texts)@.len());
        }
    }
    match col_type.tag() {
        Tag::Bool => match Bool::input(field, col_type) {
            Ok(v) => {
                buf.push(if v.value { 1u8 } else { 0u8 });
                assert(final(buf)@ =~= old(buf)@ + encode_model(ValueModel::Bool(v.value), old(texts)@.len()));
                Ok(())
            },
            Err(e) => Err(DbError::Input(e)),
        },
        Tag::Integer => match Integer::input(field, col_type) {
            Ok(v) => {
                let mut bytes = u32_to_le_bytes(#[verifier::truncate] (v.value as u32));
                buf.append(&mut bytes);
                Ok(())
            },
            Err(e) => Err(DbError::Input(e)),
        },
        Tag::Numeric => match Numeric::input(field, col_type) {
            Ok(v) => {
                let mut bytes = u64_to_le_bytes(v.value);
                buf.append(&mut bytes);
                Ok(())
            },
            Err(e) => Err(DbError::Input(e)),
        },
        Tag::Timestamp => match Timestamp::input(field, col_type) {
            Ok(v) => {
                let mut bytes = u64_to_le_bytes(#[verifier::truncate] (v.value as u64));
                buf.append(&mut bytes);
                Ok(())
            },
            Err(e) => Err(DbError::Input(e)),
        },
        Tag::Text | Tag::Char | Tag::VarChar => match Text::input(field, col_type) {
            Ok(t) => {
                push_text_struct(buf, texts, t);
                Ok(())
            },
            Err(e) => Err(DbError::Input(e)),
        },
    }
}

/// The index in the text store held by the text slot at `off`.
pub fn slot_index_at(row: &[u8], off: usize) -> (i: u64)
    requires
        off + 16 <= row@.len(),
    ensures
        i == slot_text_index(row@.subrange(off as int, off + 16)),
{
    let n = row.len();
    let s = slice_subrange(row, off + 8, off + 16);
    assert(s@ =~= row@.subrange(off as int, off + 16).subrange(8, 16));
    u64_from_le_bytes(s)
}

/// The text whose slot is at `off`.
pub fn text_view_at<'a>(row: &[u8], off: usize, texts: &'a Vec<String>) -> (t: TextView<'a>)
    requires
        off + 16 <= row@.len(),
        slot_text_index(row@.subrange(off as int, off + 16)) < texts@.len(),
    ensures
        t@ == text_views(texts@)[slot_text_index(row@.subrange(off as int, off + 16)) as int],
{
    let idx = slot_index_at(row, off);
    let n = texts.len();
    assert(idx < n);
    let i = idx as usize;
    assert(i as nat == idx as nat);
    let t = TextView { text: texts[i].as_str() };
    assert(text_views(texts@)[i as int] == texts@[i as int]@);
    t
}

/// Reads the value of the column's type from its slot at `off`, borrowing texts.
pub fn decode_value_ref<'a>(row: &[u8], off: usize, col_type: Type, texts: &'a Vec<String>) -> (v:
    ValueRef<'a>)
    requires
        col_type.has_valid_tag(),
        off + column_size(col_type.spec_tag()) <= row@.len(),
        is_text_tag(col_type.spec_tag()) ==> slot_text_index(row@.subrange(off as int, off + 16))
            < texts@.len(),
    ensures
        v.model() == decode_model(
            row@.subrange(off as int, off + column_size(col_type.spec_tag())),
            col_type.spec_tag(),
            text_views(texts@),
        ),
{
    let n = row.len();
    match col_type.tag() {
        Tag::Bool => ValueRef::Bool(row[off] != 0),
        Tag::Integer => {
            let s = slice_subrange(row, off, off + 4);
            ValueRef::Integer(#[verifier::truncate] (u32_from_le_bytes(s) as i32))
        },
        Tag::Numeric => {
            let s = slice_subrange(row, off, off + 8);
            ValueRef::Numeric(u64_from_le_bytes(s))
        },
        Tag::Timestamp => {
            let s = slice_subrange(row, off, off + 8);
            ValueRef::Timestamp(#[verifier::truncate] (u64_from_le_bytes(s) as i64))
        },
        Tag::Text | Tag::Char | Tag::VarChar => ValueRef::Text(text_view_at(row, off, texts)),
    }
}

/// Reads the value of the column's type from its slot at `off` as an owned value.
pub fn decode_value_fixed(row: &[u8], off: usize, col_type: Type, texts: &Vec<String>) -> (v: Value)
    requires
        col_type.has_valid_tag(),
        off + column_size(col_type.spec_tag()) <= row@.len(),
        is_text_tag(col_type.spec_tag()) ==> slot_text_index(row@.subrange(off as int, off + 16))
            < texts@.len(),
    ensures
        v.model() == decode_model(
            row@.subrange(off as int, off + column_size(col_type.spec_tag())),
            col_type.spec_tag(),
            text_views(texts@),
        ),
{
    match decode_value_ref(row, off, col_type, texts) {
        ValueRef::Bool(b) => Value::Bool(Bool::new(b)),
        ValueRef::Integer(i) => Value::Integer(Integer::new(i)),
        ValueRef::Numeric(n) => Value::Numeric(Numeric::new(n)),
        ValueRef::Timestamp(t) => Value::Timestamp(Timestamp::new(t)),
        ValueRef::Text(tv) => Value::Text(Text { value: String::from_str(tv.as_str()) }),
    }
}

} // verus!
