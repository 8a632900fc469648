//! A row-store table with a contiguous, fixed-width row layout and a
//! primary-key index.

use vstd::prelude::*;
use vstd::bytes::{spec_u32_to_le_bytes, u32_to_le_bytes};
use vstd::slice::slice_subrange;

use crate::db::column::{Column, column_size};
use crate::db::error::DbError;
use crate::db::key_index::{KeyIndex, key_index_contents};
use crate::db::row::{
    ValueRef, decode_model, decode_value_ref, encode_model, encode_value_fixed, field_input,
    field_input_defined, field_readable, slot_text_index, spec_field_input, text_view_at, text_views, utf8_len,
    value_storable,
};
use crate::db::value::{Value, ValueModel, model_has_tag};
use crate::parser::ast::Table as AstTable;
use crate::types::{InputError, Tag, is_text_tag};
use crate::util::strings::str_eq;
use crate::util::io::Output;
use crate::util::decimal::{int_to_decimal, nat_to_decimal};
use crate::types::bool::bool_text;

verus! {

broadcast use vstd::slice::group_slice_axioms;

/// The number of bytes that the first `i` columns occupy in a row.
pub open spec fn prefix_size(cols: Seq<Column>, i: int) -> nat
    decreases i,
{
    if i <= 0 {
        0
    } else {
        prefix_size(cols, i - 1) + column_size(cols[i - 1].ty.spec_tag())
    }
}

/// Column offsets only grow.
pub proof fn lemma_prefix_size_monotone(cols: Seq<Column>, i: int, j: int)
    requires
        i <= j,
    ensures
        prefix_size(cols, i) <= prefix_size(cols, j),
    decreases j - i,
{
    if i < j {
        lemma_prefix_size_monotone(cols, i, j - 1);
    }
}

/// Concatenation of byte strings, in order.
pub open spec fn concat_parts(parts: Seq<Seq<u8>>) -> Seq<u8>
    decreases parts.len(),
{
    if parts.len() == 0 {
        Seq::empty()
    } else {
        concat_parts(parts.drop_last()) + parts.last()
    }
}

/// Appending one more part to the concatenation.
pub proof fn lemma_concat_parts_take(parts: Seq<Seq<u8>>, j: int)
    requires
        0 <= j < parts.len(),
    ensures
        concat_parts(parts.take(j + 1)) == concat_parts(parts.take(j)) + parts[j],
{
    assert(parts.take(j + 1).drop_last() =~= parts.take(j));
}

/// The bytes by which a key value is compared: the UTF-8 length (four
/// little-endian bytes) and the UTF-8 bytes of a text, the slot bytes of any
/// other value.
pub open spec fn key_part(m: ValueModel) -> Seq<u8> {
    match m {
        ValueModel::Text(s) => spec_u32_to_le_bytes(utf8_len(s) as u32) + vstd::utf8::encode_utf8(s),
        _ => encode_model(m, 0),
    }
}

/// The key bytes of a stored slot: those of the text it refers to, or the slot itself.
pub open spec fn slot_key_part(bytes: Seq<u8>, t: Tag, texts: Seq<Seq<char>>) -> Seq<u8> {
    if is_text_tag(t) {
        key_part(ValueModel::Text(texts[slot_text_index(bytes) as int]))
    } else {
        bytes
    }
}

/// The characters of each text.
pub open spec fn strs_view(fields: Seq<&str>) -> Seq<Seq<char>> {
    fields.map_values(|f: &str| f@)
}

/// The content of a sequence of values.
pub open spec fn values_model(vs: Seq<Value>) -> Seq<ValueModel> {
    vs.map_values(|v: Value| v.model())
}


/// The positions, in increasing order, among the first `n` of the names that equal `name`.
pub open spec fn matching_positions(ids: Seq<Seq<char>>, name: Seq<char>, n: int) -> Seq<usize>
    decreases n,
{
    if n <= 0 {
        Seq::empty()
    } else {
        matching_positions(ids, name, n - 1) + if ids[n - 1] == name {
            seq![(n - 1) as usize]
        } else {
            Seq::empty()
        }
    }
}

/// The key positions for the first `m` primary-key names: for each name in
/// order, the positions of the columns that bear it.
pub open spec fn key_positions_for(ids: Seq<Seq<char>>, pks: Seq<Seq<char>>, m: int) -> Seq<usize>
    decreases m,
{
    if m <= 0 {
        Seq::empty()
    } else {
        key_positions_for(ids, pks, m - 1) + matching_positions(ids, pks[m - 1], ids.len() as int)
    }
}

/// The names of the columns of a table definition.
pub open spec fn ast_column_ids(t: AstTable) -> Seq<Seq<char>> {
    t.columns@.map_values(|c: crate::parser::ast::Column| c.id@)
}

/// The names of the primary-key columns of a table definition.
pub open spec fn ast_key_names(t: AstTable) -> Seq<Seq<char>> {
    t.primary_key@.map_values(|s: String| s@)
}

/// The table definitions that a table can be made of.
pub open spec fn ast_table_ok(t: AstTable) -> bool {
    &&& forall|i: int| 0 <= i < t.columns@.len() ==> #[trigger] t.columns@[i].ty.has_valid_tag()
    &&& 16 * t.columns@.len() <= usize::MAX
}

proof fn lemma_prefix_size_bound(cols: Seq<Column>, i: int)
    requires
        0 <= i,
    ensures
        prefix_size(cols, i) <= 16 * i,
    decreases i,
{
    if i > 0 {
        lemma_prefix_size_bound(cols, i - 1);
    }
}

proof fn lemma_matching_positions_bound(ids: Seq<Seq<char>>, name: Seq<char>, n: int)
    requires
        0 <= n,
    ensures
        forall|j: int|
            0 <= j < matching_positions(ids, name, n).len() ==> #[trigger] matching_positions(
                ids,
                name,
                n,
            )[j] < n,
    decreases n,
{
    if n > 0 {
        lemma_matching_positions_bound(ids, name, n - 1);
        let a = matching_positions(ids, name, n - 1);
        let b: Seq<usize> = if ids[n - 1] == name {
            seq![(n - 1) as usize]
        } else {
            Seq::empty()
        };
        assert(matching_positions(ids, name, n) == a + b);
        assert forall|j: int| 0 <= j < (a + b).len() implies #[trigger] (a + b)[j] < n by {
            if j >= a.len() {
                assert((a + b)[j] == b[j - a.len()]);
            }
        }
    }
}

proof fn lemma_key_positions_bound(ids: Seq<Seq<char>>, pks: Seq<Seq<char>>, m: int)
    requires
        0 <= m,
    ensures
        forall|j: int|
            0 <= j < key_positions_for(ids, pks, m).len() ==> #[trigger] key_positions_for(
                ids,
                pks,
                m,
            )[j] < ids.len(),
    decreases m,
{
    if m > 0 {
        lemma_key_positions_bound(ids, pks, m - 1);
        lemma_matching_positions_bound(ids, pks[m - 1], ids.len() as int);
        let a = key_positions_for(ids, pks, m - 1);
        let b = matching_positions(ids, pks[m - 1], ids.len() as int);
        assert forall|j: int| 0 <= j < (a + b).len() implies #[trigger] (a + b)[j] < ids.len() by {
            if j >= a.len() {
                assert((a + b)[j] == b[j - a.len()]);
            }
        }
    }
}

/// The slot bytes hold the value: it reads back, a text slot refers to a
/// stored text, and its key bytes are those of the value.
pub open spec fn slot_holds(bytes: Seq<u8>, t: Tag, tv: Seq<Seq<char>>, m: ValueModel) -> bool {
    &&& decode_model(bytes, t, tv) == m
    &&& is_text_tag(t) ==> slot_text_index(bytes) < tv.len()
    &&& slot_key_part(bytes, t, tv) == key_part(m)
}

/// The texts `tv2` extend the texts `tv`.
pub open spec fn texts_extend(tv: Seq<Seq<char>>, tv2: Seq<Seq<char>>) -> bool {
    &&& tv.len() <= tv2.len()
    &&& forall|i: int| 0 <= i < tv.len() ==> #[trigger] tv2[i] == tv[i]
}

/// What a slot reads as, and its key bytes, stay when texts are appended.
pub proof fn lemma_slot_stable(bytes: Seq<u8>, t: Tag, tv: Seq<Seq<char>>, tv2: Seq<Seq<char>>)
    requires
        texts_extend(tv, tv2),
        is_text_tag(t) ==> slot_text_index(bytes) < tv.len(),
    ensures
        decode_model(bytes, t, tv2) == decode_model(bytes, t, tv),
        slot_key_part(bytes, t, tv2) == slot_key_part(bytes, t, tv),
        is_text_tag(t) ==> slot_text_index(bytes) < tv2.len(),
{
    if is_text_tag(t) {
        assert(tv2[slot_text_index(bytes) as int] == tv[slot_text_index(bytes) as int]);
    }
}

/// Encodes the values of a row, one slot per column, appending texts to the store.
fn encode_row(cols: &Vec<Column>, texts: &mut Vec<String>, row: &Vec<Value>) -> (rb: Vec<u8>)
    requires
        row@.len() == cols@.len(),
        forall|c: int| 0 <= c < cols@.len() ==> #[trigger] cols@[c].ty.has_valid_tag(),
        forall|c: int|
            0 <= c < cols@.len() ==> model_has_tag(
                #[trigger] row@[c].model(),
                cols@[c].ty.spec_tag(),
            ),
        forall|c: int| 0 <= c < cols@.len() ==> value_storable(#[trigger] row@[c].model()),
    ensures
        rb@.len() == prefix_size(cols@, cols@.len() as int),
        texts_extend(text_views(old(texts)@), text_views(final(texts)@)),
        forall|c: int|
            0 <= c < cols@.len() ==> slot_holds(
                #[trigger] rb@.subrange(prefix_size(cols@, c) as int, prefix_size(cols@, c + 1) as int),
                cols@[c].ty.spec_tag(),
                text_views(final(texts)@),
                row@[c].model(),
            ),
{
    let n = cols.len();
    let mut rb: Vec<u8> = Vec::new();
    let mut i: usize = 0;
    while i < n
        invariant
            i <= n,
            n == cols@.len(),
            row@.len() == n,
            forall|c: int| 0 <= c < cols@.len() ==> #[trigger] cols@[c].ty.has_valid_tag(),
            forall|c: int|
                0 <= c < cols@.len() ==> model_has_tag(
                    #[trigger] row@[c].model(),
                    cols@[c].ty.spec_tag(),
                ),
            forall|c: int| 0 <= c < cols@.len() ==> value_storable(#[trigger] row@[c].model()),
            rb@.len() == prefix_size(cols@, i as int),
            texts_extend(text_views(old(texts)@), text_views(texts@)),
            forall|c: int|
                0 <= c < i ==> slot_holds(
                    #[trigger] rb@.subrange(prefix_size(cols@, c) as int, prefix_size(cols@, c + 1) as int),
                    cols@[c].ty.spec_tag(),
                    text_views(texts@),
                    row@[c].model(),
                ),
        decreases n - i,
    {
        let ghost rb0 = rb@;
        let ghost tv0 = text_views(texts@);
        let ghost m = row@[i as int].model();
        let ghost t = cols@[i as int].ty.spec_tag();
        let len0 = texts.len();
        let r = encode_value_fixed(&mut rb, texts, cols[i].ty, &row[i]);
        proof {
            let tv1 = text_views(texts@);
            assert(texts_extend(tv0, tv1)) by {
                if m is Text {
                    assert(tv1 == tv0.push(m->Text_0));
                }
            }
            assert(tv0.len() == len0);
            crate::db::row::lemma_decode_encode(m, t, tv1, len0 as nat);
            let slot = rb@.subrange(prefix_size(cols@, i as int) as int, prefix_size(cols@, i + 1) as int);
            assert(slot =~= encode_model(m, len0 as nat));
            assert forall|c: int| 0 <= c < i + 1 implies slot_holds(
                #[trigger] rb@.subrange(prefix_size(cols@, c) as int, prefix_size(cols@, c + 1) as int),
                cols@[c].ty.spec_tag(),
                text_views(texts@),
                row@[c].model(),
            ) by {
                if c < i {
                    lemma_prefix_size_monotone(cols@, c + 1, i as int);
                    let b = rb@.subrange(prefix_size(cols@, c) as int, prefix_size(cols@, c + 1) as int);
                    assert(b =~= rb0.subrange(prefix_size(cols@, c) as int, prefix_size(cols@, c + 1) as int));
                    lemma_slot_stable(b, cols@[c].ty.spec_tag(), tv0, tv1);
                }
            }
            assert forall|k: int| 0 <= k < text_views(old(texts)@).len() implies #[trigger] tv1[k]
                == text_views(old(texts)@)[k] by {
                assert(tv1[k] == tv0[k]);
            }
        }
        i = i + 1;
    }
    rb
}

/// A row-store table: rows of fixed-width slots stored back to back, the
/// texts that text slots refer to, and an index from primary keys to rows.
pub struct Table {
    /// The columns, in order
    pub columns: Vec<Column>,
    /// Row bytes laid out as row 0, row 1, ...
    pub raw_data: Vec<u8>,
    /// The number of bytes of a row
    pub row_size: usize,
    /// The number of rows
    pub num_rows: usize,
    /// Offset of each column within a row (packed, no padding)
    pub col_offsets: Vec<usize>,
    /// Primary-key index: key bytes to row id
    pub key_index: KeyIndex,
    /// Positions of the primary-key columns, in key order
    pub key_positions: Vec<usize>,
    /// The texts that text slots refer to; only ever appended to
    pub texts: Vec<String>,
}

impl Table {
    /// The tag of column `c`.
    pub open spec fn col_tag(&self, c: int) -> Tag {
        self.columns@[c].ty.spec_tag()
    }

    /// The number of bytes of a slot of column `c`.
    pub open spec fn col_size(&self, c: int) -> nat {
        column_size(self.col_tag(c))
    }

    /// The characters of each stored text.
    pub open spec fn texts_view(&self) -> Seq<Seq<char>> {
        text_views(self.texts@)
    }

    /// Where row `r` starts in the row bytes.
    pub open spec fn row_start(&self, r: int) -> int {
        r * self.row_size
    }

    /// The bytes of row `r`.
    pub open spec fn row_bytes(&self, r: int) -> Seq<u8> {
        self.raw_data@.subrange(self.row_start(r), self.row_start(r) + self.row_size)
    }

    /// The bytes of the slot of column `c` in the row bytes `rb`.
    pub open spec fn slot_of(&self, rb: Seq<u8>, c: int) -> Seq<u8> {
        rb.subrange(self.col_offsets@[c] as int, self.col_offsets@[c] + self.col_size(c))
    }

    /// The bytes of the slot of column `c` in row `r`.
    pub open spec fn slot(&self, r: int, c: int) -> Seq<u8> {
        self.slot_of(self.row_bytes(r), c)
    }

    /// The value in row `r`, column `c`.
    pub open spec fn cell(&self, r: int, c: int) -> ValueModel {
        decode_model(self.slot(r, c), self.col_tag(c), self.texts_view())
    }

    /// The key parts of the row bytes `rb`, one per key column.
    pub open spec fn row_key_parts(&self, rb: Seq<u8>) -> Seq<Seq<u8>> {
        Seq::new(
            self.key_positions@.len(),
            |j: int|
                slot_key_part(
                    self.slot_of(rb, self.key_positions@[j] as int),
                    self.col_tag(self.key_positions@[j] as int),
                    self.texts_view(),
                ),
        )
    }

    /// The primary-key bytes of the row bytes `rb`.
    pub open spec fn key_of_row_bytes(&self, rb: Seq<u8>) -> Seq<u8> {
        concat_parts(self.row_key_parts(rb))
    }

    /// The primary-key bytes of row `r`.
    pub open spec fn row_key(&self, r: int) -> Seq<u8> {
        self.key_of_row_bytes(self.row_bytes(r))
    }

    /// The primary-key bytes of the given key values, if they match the key
    /// columns in number and type.
    pub open spec fn key_values_bytes(&self, key: Seq<ValueModel>) -> Option<Seq<u8>> {
        if key.len() == self.key_positions@.len() && (forall|j: int|
            0 <= j < key.len() ==> model_has_tag(
                #[trigger] key[j],
                self.col_tag(self.key_positions@[j] as int),
            )) {
            Some(concat_parts(Seq::new(key.len(), |j: int| key_part(key[j]))))
        } else {
            None
        }
    }

    /// The row that the index holds for the key bytes, if any.
    pub open spec fn lookup(&self, k: Seq<u8>) -> Option<usize> {
        if key_index_contents(self.key_index).dom().contains(k) {
            Some(key_index_contents(self.key_index)[k])
        } else {
            None
        }
    }

    /// The row that the index holds for the key values, if any.
    pub open spec fn lookup_key(&self, key: Seq<ValueModel>) -> Option<usize> {
        match self.key_values_bytes(key) {
            Some(k) => self.lookup(k),
            None => None,
        }
    }

    /// The layout of the columns: types, offsets and row size agree.
    pub open spec fn layout_wf(&self) -> bool {
        &&& self.columns@.len() == self.col_offsets@.len()
        &&& forall|c: int| 0 <= c < self.columns@.len() ==> #[trigger] self.columns@[c].ty.has_valid_tag()
        &&& forall|c: int|
            0 <= c < self.columns@.len() ==> #[trigger] self.col_offsets@[c] == prefix_size(
                self.columns@,
                c,
            )
        &&& self.row_size == prefix_size(self.columns@, self.columns@.len() as int)
        &&& forall|j: int|
            0 <= j < self.key_positions@.len() ==> #[trigger] self.key_positions@[j]
                < self.columns@.len()
    }

    /// Every text slot of the row bytes refers to a stored text.
    pub open spec fn text_slots_wf(&self, rb: Seq<u8>) -> bool {
        forall|c: int|
            0 <= c < self.columns@.len() && is_text_tag(self.col_tag(c)) ==> slot_text_index(
                #[trigger] self.slot_of(rb, c),
            ) < self.texts@.len()
    }

    /// The table's invariant.
    pub open spec fn wf(&self) -> bool {
        &&& self.layout_wf()
        &&& self.raw_data@.len() == self.num_rows * self.row_size
        &&& forall|r: int| 0 <= r < self.num_rows ==> #[trigger] self.text_slots_wf(self.row_bytes(r))
        &&& forall|k: Seq<u8>|
            #[trigger] key_index_contents(self.key_index).dom().contains(k) ==> {
                &&& key_index_contents(self.key_index)[k] < self.num_rows
                &&& self.row_key(key_index_contents(self.key_index)[k] as int) == k
            }
    }

    /// The key bytes of a row of values: the key parts of its key columns.
    pub open spec fn row_values_key(&self, row: Seq<ValueModel>) -> Seq<u8> {
        concat_parts(
            Seq::new(self.key_positions@.len(), |j: int| key_part(row[self.key_positions@[j] as int])),
        )
    }

    /// The values belong to the columns' types, one per column.
    pub open spec fn row_matches(&self, row: Seq<ValueModel>) -> bool {
        &&& row.len() == self.columns@.len()
        &&& forall|c: int| 0 <= c < row.len() ==> model_has_tag(#[trigger] row[c], self.col_tag(c))
    }

    /// This table is `old` with one more row, holding `row`, whose key the
    /// index now maps to it.
    pub open spec fn row_appended(&self, old: &Table, row: Seq<ValueModel>) -> bool {
        &&& self.wf()
        &&& self.same_schema(old)
        &&& self.num_rows == old.num_rows + 1
        &&& texts_extend(old.texts_view(), self.texts_view())
        &&& forall|r: int, c: int|
            0 <= r < old.num_rows && 0 <= c < self.columns@.len() ==> #[trigger] self.cell(r, c)
                == old.cell(r, c)
        &&& forall|c: int|
            0 <= c < self.columns@.len() ==> #[trigger] self.cell(old.num_rows as int, c) == row[c]
        &&& forall|r: int| 0 <= r < old.num_rows ==> #[trigger] self.row_key(r) == old.row_key(r)
        &&& self.row_key(old.num_rows as int) == self.row_values_key(row)
        &&& key_index_contents(self.key_index) == key_index_contents(old.key_index).insert(
            self.row_key(old.num_rows as int),
            old.num_rows,
        )
    }

    /// Reading the first `i` fields as values of the columns' types: the
    /// values, or the error of the first field that cannot be read.
    pub open spec fn parse_fields(&self, fields: Seq<Seq<char>>, i: int) -> Result<
        Seq<ValueModel>,
        InputError,
    >
        decreases i,
    {
        if i <= 0 {
            Ok(Seq::empty())
        } else {
            match self.parse_fields(fields, i - 1) {
                Err(e) => Err(e),
                Ok(ms) => match spec_field_input(fields[i - 1], self.columns@[i - 1].ty) {
                    Ok(m) => Ok(ms.push(m)),
                    Err(e) => Err(e),
                },
            }
        }
    }

    /// The fields can be read without overflow or oversized texts.
    pub open spec fn fields_readable(&self, fields: Seq<Seq<char>>) -> bool {
        forall|c: int|
            0 <= c < self.columns@.len() && c < fields.len() ==> field_input_defined(
                #[trigger] fields[c],
                self.columns@[c].ty,
            )
    }

    /// This table is `old` with the field in row `row_id`, column `col`
    /// replaced by `m`; where the field is part of the primary key and the
    /// row's key changed, the index maps the new key, not the old one, to the row.
    pub open spec fn field_updated(&self, old: &Table, row_id: int, col: int, m: ValueModel) -> bool {
        &&& self.wf()
        &&& self.same_schema(old)
        &&& self.num_rows == old.num_rows
        &&& texts_extend(old.texts_view(), self.texts_view())
        &&& forall|r: int, c: int|
            0 <= r < old.num_rows && 0 <= c < self.columns@.len() && (r != row_id || c != col)
                ==> #[trigger] self.cell(r, c) == old.cell(r, c)
        &&& self.cell(row_id, col) == m
        &&& forall|r: int| 0 <= r < old.num_rows && r != row_id ==> #[trigger] self.row_key(r) == old.row_key(r)
        &&& !old.key_positions@.contains(col as usize) ==> self.row_key(row_id) == old.row_key(row_id)
        &&& key_index_contents(self.key_index) == if self.row_key(row_id) == old.row_key(row_id) {
            key_index_contents(old.key_index)
        } else {
            key_index_contents(old.key_index).remove(old.row_key(row_id)).insert(
                self.row_key(row_id),
                row_id as usize,
            )
        }
    }

    /// An empty, well-formed table with the columns and primary key of the
    /// table definition.
    pub open spec fn fresh_for(&self, asttable: AstTable) -> bool {
        &&& self.wf()
        &&& self.num_rows == 0
        &&& self.texts@.len() == 0
        &&& key_index_contents(self.key_index).dom().is_empty()
        &&& self.columns@.len() == asttable.columns@.len()
        &&& forall|i: int|
            0 <= i < self.columns@.len() ==> {
                &&& (#[trigger] self.columns@[i]).id@ == asttable.columns@[i].id@
                &&& self.columns@[i].ty == asttable.columns@[i].ty
                &&& self.columns@[i].primary_key == ast_key_names(asttable).contains(
                    asttable.columns@[i].id@,
                )
            }
        &&& self.key_positions@ == key_positions_for(
            ast_column_ids(asttable),
            ast_key_names(asttable),
            asttable.primary_key@.len() as int,
        )
    }

    /// The two tables have the same columns and primary key.
    pub open spec fn same_schema(&self, other: &Table) -> bool {
        &&& self.columns@ == other.columns@
        &&& self.col_offsets@ == other.col_offsets@
        &&& self.row_size == other.row_size
        &&& self.key_positions@ == other.key_positions@
    }
}

/// `r * s` is at least `r` when `s` is positive, and zero when `s` is.
proof fn lemma_row_start_le(r: int, s: int)
    requires
        0 <= r,
        0 <= s,
    ensures
        s > 0 ==> r <= r * s,
        s == 0 ==> r * s == 0,
{
    if s > 0 {
        assert(r <= r * s) by (nonlinear_arith)
            requires
                0 <= r,
                0 < s,
        ;
    }
}

/// A row before row `n` ends where some later row starts.
proof fn lemma_row_end(r: int, n: int, s: int)
    requires
        0 <= r < n,
        0 <= s,
    ensures
        r * s + s <= n * s,
        0 <= r * s,
{
    assert(r * s + s <= n * s) by (nonlinear_arith)
        requires
            0 <= r < n,
            0 <= s,
    ;
    assert(0 <= r * s) by (nonlinear_arith)
        requires
            0 <= r,
            0 <= s,
    ;
}

impl Table {
    /// The rows of a well-formed table lie within its row bytes, and only those.
    pub proof fn lemma_row_in_range(&self, r: int)
        requires
            self.wf(),
            0 <= r,
        ensures
            r < self.num_rows ==> 0 <= self.row_start(r) && self.row_start(r) + self.row_size
                <= self.raw_data@.len(),
            self.row_size > 0 && self.row_start(r) + self.row_size <= self.raw_data@.len() ==> r
                < self.num_rows,
    {
        if r < self.num_rows {
            lemma_row_end(r, self.num_rows as int, self.row_size as int);
        }
        if self.row_size > 0 && self.row_start(r) + self.row_size <= self.raw_data@.len() {
            if r >= self.num_rows {
                assert(self.num_rows * self.row_size + self.row_size <= r * self.row_size
                    + self.row_size) by (nonlinear_arith)
                    requires
                        self.num_rows <= r,
                        0 < self.row_size,
                ;
            }
        }
    }

    /// A slot lies within its row.
    pub proof fn lemma_slot_in_row(&self, c: int)
        requires
            self.layout_wf(),
            0 <= c < self.columns@.len(),
        ensures
            self.col_offsets@[c] + self.col_size(c) <= self.row_size,
            self.col_offsets@[c] + self.col_size(c) == prefix_size(self.columns@, c + 1),
    {
        lemma_prefix_size_monotone(self.columns@, c + 1, self.columns@.len() as int);
    }
}

/// Appending the bytes of a row whose slots hold `row` gives a table with one more row.
proof fn lemma_append_row(old: &Table, new: &Table, rb: Seq<u8>, row: Seq<ValueModel>)
    requires
        old.wf(),
        new.same_schema(old),
        new.num_rows == old.num_rows + 1,
        new.raw_data@ == old.raw_data@ + rb,
        rb.len() == old.row_size,
        texts_extend(old.texts_view(), new.texts_view()),
        row.len() == old.columns@.len(),
        forall|c: int|
            0 <= c < old.columns@.len() ==> slot_holds(
                #[trigger] new.slot_of(rb, c),
                new.col_tag(c),
                new.texts_view(),
                row[c],
            ),
        key_index_contents(new.key_index) == key_index_contents(old.key_index).insert(
            new.key_of_row_bytes(rb),
            old.num_rows,
        ),
    ensures
        new.row_appended(old, row),
{
    let n = old.num_rows as int;
    let rs = old.row_size as int;
    let ncols = old.columns@.len();
    assert((n + 1) * rs == n * rs + rs) by (nonlinear_arith);
    assert(new.row_bytes(n) =~= rb);
    assert forall|r: int| 0 <= r < n implies #[trigger] new.row_bytes(r) == old.row_bytes(r) by {
        lemma_row_end(r, n, rs);
        assert(new.row_bytes(r) =~= old.row_bytes(r));
    }
    assert forall|r: int, c: int| 0 <= r < n && 0 <= c < ncols implies #[trigger] new.cell(r, c)
        == old.cell(r, c) && new.slot_of(new.row_bytes(r), c) == old.slot_of(old.row_bytes(r), c) by {
        assert(new.row_bytes(r) == old.row_bytes(r));
        assert(old.text_slots_wf(old.row_bytes(r)));
        lemma_slot_stable(old.slot(r, c), old.col_tag(c), old.texts_view(), new.texts_view());
    }
    assert forall|r: int| 0 <= r < new.num_rows implies #[trigger] new.text_slots_wf(
        new.row_bytes(r),
    ) by {
        if r < n {
            assert(new.row_bytes(r) == old.row_bytes(r));
            assert(old.text_slots_wf(old.row_bytes(r)));
            assert forall|c: int| 0 <= c < ncols && is_text_tag(new.col_tag(c)) implies slot_text_index(
                #[trigger] new.slot_of(new.row_bytes(r), c),
            ) < new.texts@.len() by {
                assert(old.slot_of(old.row_bytes(r), c) == new.slot_of(new.row_bytes(r), c));
                assert(new.texts_view().len() == new.texts@.len());
                assert(old.texts_view().len() == old.texts@.len());
            }
        } else {
            assert forall|c: int| 0 <= c < ncols && is_text_tag(new.col_tag(c)) implies slot_text_index(
                #[trigger] new.slot_of(new.row_bytes(r), c),
            ) < new.texts@.len() by {
                assert(slot_holds(new.slot_of(rb, c), new.col_tag(c), new.texts_view(), row[c]));
                assert(new.texts_view().len() == new.texts@.len());
            }
        }
    }
    assert forall|c: int| 0 <= c < ncols implies #[trigger] new.cell(n, c) == row[c] by {
        assert(slot_holds(new.slot_of(rb, c), new.col_tag(c), new.texts_view(), row[c]));
    }
    assert forall|r: int| 0 <= r < n implies #[trigger] new.row_key(r) == old.row_key(r) by {
        assert(new.row_bytes(r) == old.row_bytes(r));
        assert(old.text_slots_wf(old.row_bytes(r)));
        assert forall|j: int| 0 <= j < new.key_positions@.len() implies #[trigger] new.row_key_parts(
            new.row_bytes(r),
        )[j] == old.row_key_parts(old.row_bytes(r))[j] by {
            let c = new.key_positions@[j] as int;
            lemma_slot_stable(old.slot_of(old.row_bytes(r), c), old.col_tag(c), old.texts_view(), new.texts_view());
        }
        assert(new.row_key_parts(new.row_bytes(r)) =~= old.row_key_parts(old.row_bytes(r)));
    }
    assert(new.row_key_parts(rb) =~= Seq::new(
        new.key_positions@.len(),
        |j: int| key_part(row[new.key_positions@[j] as int]),
    )) by {
        assert forall|j: int| 0 <= j < new.key_positions@.len() implies #[trigger] new.row_key_parts(
            rb,
        )[j] == key_part(row[new.key_positions@[j] as int]) by {
            let c = new.key_positions@[j] as int;
            assert(slot_holds(new.slot_of(rb, c), new.col_tag(c), new.texts_view(), row[c]));
        }
    }
    assert forall|k: Seq<u8>| #[trigger] key_index_contents(new.key_index).dom().contains(
        k,
    ) implies {
        &&& key_index_contents(new.key_index)[k] < new.num_rows
        &&& new.row_key(key_index_contents(new.key_index)[k] as int) == k
    } by {
        if k != new.key_of_row_bytes(rb) {
            assert(key_index_contents(old.key_index).dom().contains(k));
        }
    }
}

/// Overwriting the slot bytes of one field leaves every other field, and
/// every other row's key, as it was.
proof fn lemma_overwrite(old: &Table, new: &Table, row_id: int, col: int, tmp: Seq<u8>, m: ValueModel)
    requires
        old.wf(),
        new.same_schema(old),
        new.num_rows == old.num_rows,
        texts_extend(old.texts_view(), new.texts_view()),
        0 <= row_id < old.num_rows,
        0 <= col < old.columns@.len(),
        tmp.len() == old.col_size(col),
        slot_holds(tmp, old.col_tag(col), new.texts_view(), m),
        new.raw_data@.len() == old.raw_data@.len(),
        forall|i: int|
            0 <= i < new.raw_data@.len() ==> #[trigger] new.raw_data@[i] == if old.row_start(row_id)
                + old.col_offsets@[col] <= i < old.row_start(row_id) + old.col_offsets@[col]
                + old.col_size(col) {
                tmp[i - old.row_start(row_id) - old.col_offsets@[col]]
            } else {
                old.raw_data@[i]
            },
    ensures
        forall|r: int, c: int|
            0 <= r < old.num_rows && 0 <= c < old.columns@.len() && (r != row_id || c != col)
                ==> #[trigger] new.slot(r, c) == old.slot(r, c),
        new.slot(row_id, col) == tmp,
        forall|r: int| 0 <= r < new.num_rows ==> #[trigger] new.text_slots_wf(new.row_bytes(r)),
        forall|r: int, c: int|
            0 <= r < old.num_rows && 0 <= c < old.columns@.len() && (r != row_id || c != col)
                ==> #[trigger] new.cell(r, c) == old.cell(r, c),
        new.cell(row_id, col) == m,
        forall|r: int| 0 <= r < old.num_rows && r != row_id ==> #[trigger] new.row_key(r) == old.row_key(r),
        !old.key_positions@.contains(col as usize) ==> new.row_key(row_id) == old.row_key(row_id),
{
    let n = old.num_rows as int;
    let rs = old.row_size as int;
    let ncols = old.columns@.len() as int;
    let p = old.row_start(row_id) + old.col_offsets@[col];
    let sz = old.col_size(col) as int;
    lemma_row_end(row_id, n, rs);
    old.lemma_slot_in_row(col);
    assert forall|r: int| 0 <= r < n && r != row_id implies #[trigger] new.row_bytes(r)
        == old.row_bytes(r) by {
        lemma_row_end(r, n, rs);
        if r < row_id {
            lemma_row_end(r, row_id, rs);
        } else {
            lemma_row_end(row_id, r, rs);
        }
        assert(new.row_bytes(r) =~= old.row_bytes(r));
    }
    assert forall|c: int| 0 <= c < ncols && c != col implies #[trigger] new.slot_of(
        new.row_bytes(row_id),
        c,
    ) == old.slot_of(old.row_bytes(row_id), c) by {
        old.lemma_slot_in_row(c);
        if c < col {
            lemma_prefix_size_monotone(old.columns@, c + 1, col);
        } else {
            lemma_prefix_size_monotone(old.columns@, col + 1, c);
        }
        assert(new.slot_of(new.row_bytes(row_id), c) =~= old.slot_of(old.row_bytes(row_id), c));
    }
    assert(new.slot(row_id, col) =~= tmp);
    assert forall|r: int, c: int|
        0 <= r < n && 0 <= c < ncols && (r != row_id || c != col) implies #[trigger] new.slot(r, c)
        == old.slot(r, c) by {
        if r != row_id {
            assert(new.row_bytes(r) == old.row_bytes(r));
        }
    }
    assert forall|r: int, c: int|
        0 <= r < n && 0 <= c < ncols && (r != row_id || c != col) implies #[trigger] new.cell(r, c)
        == old.cell(r, c) by {
        assert(new.slot(r, c) == old.slot(r, c));
        assert(old.text_slots_wf(old.row_bytes(r)));
        assert(old.slot_of(old.row_bytes(r), c) == old.slot(r, c));
        lemma_slot_stable(old.slot(r, c), old.col_tag(c), old.texts_view(), new.texts_view());
    }
    assert forall|r: int| 0 <= r < n implies #[trigger] new.text_slots_wf(new.row_bytes(r)) by {
        assert(old.text_slots_wf(old.row_bytes(r)));
        assert forall|c: int| 0 <= c < ncols && is_text_tag(new.col_tag(c)) implies slot_text_index(
            #[trigger] new.slot_of(new.row_bytes(r), c),
        ) < new.texts@.len() by {
            assert(new.texts_view().len() == new.texts@.len());
            assert(old.texts_view().len() == old.texts@.len());
            if r == row_id && c == col {
                assert(new.slot_of(new.row_bytes(r), c) == tmp);
            } else {
                assert(new.slot(r, c) == old.slot(r, c));
                assert(old.slot_of(old.row_bytes(r), c) == old.slot(r, c));
            }
        }
    }
    assert forall|r: int| 0 <= r < n && (r != row_id || !old.key_positions@.contains(col as usize))
        implies #[trigger] new.row_key(r) == old.row_key(r) by {
        assert(old.text_slots_wf(old.row_bytes(r)));
        assert forall|j: int| 0 <= j < new.key_positions@.len() implies #[trigger] new.row_key_parts(
            new.row_bytes(r),
        )[j] == old.row_key_parts(old.row_bytes(r))[j] by {
            let c = new.key_positions@[j] as int;
            if r == row_id {
                assert(old.key_positions@[j] == c);
                assert(c != col);
            }
            assert(new.slot(r, c) == old.slot(r, c));
            assert(old.slot_of(old.row_bytes(r), c) == old.slot(r, c));
            lemma_slot_stable(old.slot(r, c), old.col_tag(c), old.texts_view(), new.texts_view());
        }
        assert(new.row_key_parts(new.row_bytes(r)) =~= old.row_key_parts(old.row_bytes(r)));
    }
}

impl Table {
    /// Creates an empty table with the columns and primary key of a table definition.
    pub fn new(asttable: &AstTable) -> (t: Self)
        requires
            ast_table_ok(*asttable),
        ensures
            t.fresh_for(*asttable),
    {
        let ghost ids = ast_column_ids(*asttable);
        let ghost pks = ast_key_names(*asttable);
        let n = asttable.columns.len();
        let mut cols: Vec<Column> = Vec::new();
        let mut i: usize = 0;
        while i < n
            invariant
                i <= n,
                n == asttable.columns@.len(),
                cols@.len() == i,
                forall|k: int|
                    0 <= k < i ==> {
                        &&& (#[trigger] cols@[k]).id@ == asttable.columns@[k].id@
                        &&& cols@[k].ty == asttable.columns@[k].ty
                        &&& !cols@[k].primary_key
                    },
            decreases n - i,
        {
            let ast_col = &asttable.columns[i];
            cols.push(Column { id: ast_col.id.clone(), ty: ast_col.ty, primary_key: false });
            i = i + 1;
        }
        let mut key_pos: Vec<usize> = Vec::new();
        let m = asttable.primary_key.len();
        let mut p: usize = 0;
        while p < m
            invariant
                p <= m,
                n == asttable.columns@.len(),
                m == asttable.primary_key@.len(),
                ids == ast_column_ids(*asttable),
                pks == ast_key_names(*asttable),
                cols@.len() == n,
                key_pos@ == key_positions_for(ids, pks, p as int),
                forall|k: int|
                    0 <= k < n ==> {
                        &&& (#[trigger] cols@[k]).id@ == asttable.columns@[k].id@
                        &&& cols@[k].ty == asttable.columns@[k].ty
                        &&& cols@[k].primary_key == pks.take(p as int).contains(ids[k])
                    },
            decreases m - p,
        {
            let pk = &asttable.primary_key[p];
            let ghost before = key_pos@;
            let mut c: usize = 0;
            while c < n
                invariant
                    c <= n,
                    p < m,
                    n == asttable.columns@.len(),
                    m == asttable.primary_key@.len(),
                    ids == ast_column_ids(*asttable),
                    pks == ast_key_names(*asttable),
                    pk@ == pks[p as int],
                    cols@.len() == n,
                    key_pos@ == before + matching_positions(ids, pks[p as int], c as int),
                    forall|k: int|
                        0 <= k < n ==> {
                            &&& (#[trigger] cols@[k]).id@ == asttable.columns@[k].id@
                            &&& cols@[k].ty == asttable.columns@[k].ty
                            &&& cols@[k].primary_key == (pks.take(p as int).contains(ids[k]) || (k
                                < c && ids[k] == pks[p as int]))
                        },
                decreases n - c,
            {
                if str_eq(cols[c].id.as_str(), pk.as_str()) {
                    let col = Column { id: cols[c].id.clone(), ty: cols[c].ty, primary_key: true };
                    cols.set(c, col);
                    key_pos.push(c);
                }
                c = c + 1;
            }
            proof {
                assert forall|k: int| 0 <= k < n implies (#[trigger] cols@[k]).primary_key
                    == pks.take(p + 1).contains(ids[k]) by {
                    let a = pks.take(p as int);
                    let b = pks.take(p + 1);
                    let x = ids[k];
                    if a.contains(x) {
                        let w = choose|w: int| 0 <= w < a.len() && a[w] == x;
                        assert(b[w] == x);
                    }
                    if x == pks[p as int] {
                        assert(b[p as int] == x);
                    }
                    if b.contains(x) {
                        let w = choose|w: int| 0 <= w < b.len() && b[w] == x;
                        if w < p {
                            assert(a[w] == x);
                        }
                    }
                }
            }
            p = p + 1;
        }
        let mut offsets: Vec<usize> = Vec::new();
        let mut off: usize = 0;
        let mut c: usize = 0;
        while c < n
            invariant
                c <= n,
                cols@.len() == n,
                16 * n <= usize::MAX,
                forall|k: int| 0 <= k < n ==> (#[trigger] cols@[k]).ty.has_valid_tag(),
                offsets@.len() == c,
                off == prefix_size(cols@, c as int),
                forall|k: int| 0 <= k < c ==> #[trigger] offsets@[k] == prefix_size(cols@, k),
            decreases n - c,
        {
            offsets.push(off);
            proof {
                lemma_prefix_size_bound(cols@, c + 1);
            }
            off = off + cols[c].size();
            c = c + 1;
        }
        proof {
            lemma_key_positions_bound(ids, pks, m as int);
            assert(pks.take(m as int) =~= pks);
        }
        let t = Table {
            row_size: off,
            columns: cols,
            raw_data: Vec::new(),
            num_rows: 0,
            col_offsets: offsets,
            key_index: KeyIndex::new(),
            key_positions: key_pos,
            texts: Vec::new(),
        };
        proof {
            assert(t.layout_wf());
            assert(t.num_rows * t.row_size == 0) by (nonlinear_arith)
                requires
                    t.num_rows == 0,
            ;
            assert forall|k: Seq<u8>| #[trigger] key_index_contents(t.key_index).dom().contains(
                k,
            ) implies false by {
                assert(key_index_contents(t.key_index).dom() =~= Set::<Seq<u8>>::empty());
            }
        }
        t
    }
}

impl Table {
    /// The bytes of row `row_id`, if the table has such a row.
    pub fn row_ptr(&self, row_id: usize) -> (r: Option<&[u8]>)
        requires
            self.wf(),
        ensures
            r is Some <==> self.row_start(row_id as int) + self.row_size <= self.raw_data@.len(),
            r matches Some(b) ==> b@ == self.row_bytes(row_id as int),
    {
        let total = self.raw_data.len();
        let start = match row_id.checked_mul(self.row_size) {
            Some(s) => s,
            None => {
                proof {
                    lemma_row_start_le(row_id as int, self.row_size as int);
                }
                return None;
            },
        };
        let end = match start.checked_add(self.row_size) {
            Some(e) => e,
            None => {
                return None;
            },
        };
        if end <= total {
            Some(slice_subrange(self.raw_data.as_slice(), start, end))
        } else {
            None
        }
    }

    /// The position of the first column with the given name.
    pub fn get_col_index(&self, col_name: &str) -> (r: Option<usize>)
        ensures
            match r {
                Some(i) => {
                    &&& i < self.columns@.len()
                    &&& self.columns@[i as int].id@ == col_name@
                    &&& forall|k: int| 0 <= k < i ==> (#[trigger] self.columns@[k]).id@ != col_name@
                },
                None => forall|k: int|
                    0 <= k < self.columns@.len() ==> (#[trigger] self.columns@[k]).id@ != col_name@,
            },
    {
        let n = self.columns.len();
        let mut i: usize = 0;
        while i < n
            invariant
                i <= n,
                n == self.columns@.len(),
                forall|k: int| 0 <= k < i ==> (#[trigger] self.columns@[k]).id@ != col_name@,
            decreases n - i,
        {
            if str_eq(self.columns[i].id.as_str(), col_name) {
                return Some(i);
            }
            i = i + 1;
        }
        None
    }

    /// The primary-key bytes of a row's bytes.
    fn key_bytes_from_row_bytes(&self, row_bytes: &[u8]) -> (out: Vec<u8>)
        requires
            self.layout_wf(),
            row_bytes@.len() == self.row_size,
            self.text_slots_wf(row_bytes@),
        ensures
            out@ == self.key_of_row_bytes(row_bytes@),
    {
        let ghost parts = self.row_key_parts(row_bytes@);
        let m = self.key_positions.len();
        let mut out: Vec<u8> = Vec::new();
        let mut j: usize = 0;
        while j < m
            invariant
                j <= m,
                m == self.key_positions@.len(),
                self.layout_wf(),
                row_bytes@.len() == self.row_size,
                self.text_slots_wf(row_bytes@),
                parts == self.row_key_parts(row_bytes@),
                out@ == concat_parts(parts.take(j as int)),
            decreases m - j,
        {
            let c = self.key_positions[j];
            let off = self.col_offsets[c];
            let col = &self.columns[c];
            proof {
                lemma_prefix_size_monotone(self.columns@, c + 1, self.columns@.len() as int);
                lemma_concat_parts_take(parts, j as int);
            }
            let sz = col.size();
            let ghost slot = self.slot_of(row_bytes@, c as int);
            if crate::types::is_text(col.ty.tag()) {
                assert(slot_text_index(self.slot_of(row_bytes@, c as int)) < self.texts@.len());
                assert(row_bytes@.subrange(off as int, off + 16) == slot);
                let tv = text_view_at(row_bytes, off, &self.texts);
                let bytes = tv.as_str().as_bytes();
                let mut len_bytes = u32_to_le_bytes(#[verifier::truncate] (bytes.len() as u32));
                out.append(&mut len_bytes);
                let mut content = vstd::slice::slice_to_vec(bytes);
                out.append(&mut content);
            } else {
                let field = slice_subrange(row_bytes, off, off + sz);
                let mut content = vstd::slice::slice_to_vec(field);
                out.append(&mut content);
            }
            j = j + 1;
        }
        assert(parts.take(m as int) =~= parts);
        out
    }

    /// The primary-key bytes of key values, or `None` where they do not match
    /// the key columns in number or type.
    fn key_bytes_from_key_values(&self, key: &Vec<Value>) -> (r: Option<Vec<u8>>)
        requires
            self.layout_wf(),
        ensures
            match r {
                Some(b) => self.key_values_bytes(values_model(key@)) == Some(b@),
                None => self.key_values_bytes(values_model(key@)) is None,
            },
    {
        let ghost km = values_model(key@);
        let m = self.key_positions.len();
        if key.len() != m {
            return None;
        }
        let ghost parts = Seq::new(km.len(), |j: int| key_part(km[j]));
        let mut out: Vec<u8> = Vec::new();
        let mut j: usize = 0;
        while j < m
            invariant
                j <= m,
                m == self.key_positions@.len(),
                m == key@.len(),
                km == values_model(key@),
                self.layout_wf(),
                parts == Seq::new(km.len(), |j: int| key_part(km[j])),
                out@ == concat_parts(parts.take(j as int)),
                forall|k: int|
                    0 <= k < j ==> model_has_tag(
                        #[trigger] km[k],
                        self.col_tag(self.key_positions@[k] as int),
                    ),
            decreases m - j,
        {
            let c = self.key_positions[j];
            let ty = self.columns[c].ty;
            proof {
                lemma_concat_parts_take(parts, j as int);
            }
            if crate::types::is_text(ty.tag()) {
                match &key[j] {
                    Value::Text(t) => {
                        let bytes = t.as_slice();
                        let mut len_bytes = u32_to_le_bytes(
                            #[verifier::truncate] (bytes.len() as u32),
                        );
                        out.append(&mut len_bytes);
                        let mut content = vstd::slice::slice_to_vec(bytes);
                        out.append(&mut content);
                    },
                    _ => {
                        return None;
                    },
                }
            } else {
                let ghost before = out@;
                let mut scratch: Vec<String> = Vec::new();
                match encode_value_fixed(&mut out, &mut scratch, ty, &key[j]) {
                    Ok(()) => {
                        assert(out@ == before + key_part(km[j as int]));
                    },
                    Err(_) => {
                        return None;
                    },
                }
            }
            j = j + 1;
        }
        assert(parts.take(m as int) =~= parts);
        Some(out)
    }

    /// The id of the row that the index holds for the key, if any.
    pub fn get_row_id(&self, key: &Vec<Value>) -> (r: Option<usize>)
        requires
            self.wf(),
        ensures
            r == self.lookup_key(values_model(key@)),
    {
        let key_bytes = self.key_bytes_from_key_values(key)?;
        self.key_index.get(key_bytes.as_slice())
    }
}

/// A row seen through its table.
#[derive(Clone, Copy)]
pub struct RowView<'a> {
    /// The table of the row
    pub table: &'a Table,
    /// The id of the row
    pub row_id: usize,
}

impl Table {
    /// A view of the row that the index holds for the key, if any.
    pub fn get_view(&self, key: &Vec<Value>) -> (r: Option<RowView<'_>>)
        requires
            self.wf(),
        ensures
            match self.lookup_key(values_model(key@)) {
                Some(id) => r matches Some(v) && v.row_id == id && *v.table == *self,
                None => r is None,
            },
    {
        let key_bytes = self.key_bytes_from_key_values(key)?;
        let row_id = self.key_index.get(key_bytes.as_slice())?;
        Some(RowView { table: self, row_id })
    }
}

impl<'a> RowView<'a> {
    /// The value in column `col_idx` of the row, if the row and the column exist.
    pub fn get(&self, col_idx: usize) -> (r: Option<ValueRef<'a>>)
        requires
            self.table.wf(),
        ensures
            match r {
                Some(v) => {
                    &&& self.row_id < self.table.num_rows
                    &&& col_idx < self.table.columns@.len()
                    &&& v.model() == self.table.cell(self.row_id as int, col_idx as int)
                },
                None => !(self.row_id < self.table.num_rows && col_idx
                    < self.table.columns@.len()),
            },
    {
        let table: &'a Table = self.table;
        if col_idx >= table.columns.len() {
            return None;
        }
        proof {
            table.lemma_row_in_range(self.row_id as int);
            table.lemma_slot_in_row(col_idx as int);
        }
        let row = table.row_ptr(self.row_id)?;
        let col = &table.columns[col_idx];
        let off = table.col_offsets[col_idx];
        proof {
            assert(table.text_slots_wf(table.row_bytes(self.row_id as int)));
            assert(table.slot_of(row@, col_idx as int) =~= row@.subrange(
                off as int,
                off + column_size(col.ty.spec_tag()),
            ));
        }
        Some(decode_value_ref(row, off, col.ty, &table.texts))
    }

    /// The slot bytes of column `col_idx` of the row, if the row and the column exist.
    pub fn get_bytes(&self, col_idx: usize) -> (r: Option<&'a [u8]>)
        requires
            self.table.wf(),
        ensures
            match r {
                Some(b) => {
                    &&& self.row_id < self.table.num_rows
                    &&& col_idx < self.table.columns@.len()
                    &&& b@ == self.table.slot(self.row_id as int, col_idx as int)
                },
                None => !(self.row_id < self.table.num_rows && col_idx
                    < self.table.columns@.len()),
            },
    {
        let table: &'a Table = self.table;
        if col_idx >= table.columns.len() {
            return None;
        }
        proof {
            table.lemma_row_in_range(self.row_id as int);
            table.lemma_slot_in_row(col_idx as int);
        }
        let row = table.row_ptr(self.row_id)?;
        let col = &table.columns[col_idx];
        let off = table.col_offsets[col_idx];
        let sz = col.size();
        Some(slice_subrange(row, off, off + sz))
    }
}

/// A copy of a vector of positions.
fn copy_usizes(v: &Vec<usize>) -> (r: Vec<usize>)
    ensures
        r@ == v@,
{
    let mut r: Vec<usize> = Vec::new();
    let mut i: usize = 0;
    while i < v.len()
        invariant
            i <= v@.len(),
            r@ == v@.take(i as int),
        decreases v@.len() - i,
    {
        r.push(v[i]);
        i = i + 1;
        assert(r@ =~= v@.take(i as int));
    }
    assert(v@.take(v@.len() as int) =~= v@);
    r
}

/// Does the value belong to the type?
fn value_matches(v: &Value, ty: crate::types::Type) -> (b: bool)
    requires
        ty.has_valid_tag(),
    ensures
        b == model_has_tag(v.model(), ty.spec_tag()),
{
    match v {
        Value::Bool(_) => ty.tag() == Tag::Bool,
        Value::Integer(_) => ty.tag() == Tag::Integer,
        Value::Numeric(_) => ty.tag() == Tag::Numeric,
        Value::Timestamp(_) => ty.tag() == Tag::Timestamp,
        Value::Text(_) => crate::types::is_text(ty.tag()),
    }
}

impl Table {
    /// Appends a row of values, one per column, and indexes it by its primary key.
    pub fn insert(&mut self, row: Vec<Value>) -> (r: Result<(), DbError>)
        requires
            old(self).wf(),
            old(self).num_rows < usize::MAX,
            forall|c: int| 0 <= c < row@.len() ==> value_storable(#[trigger] row@[c].model()),
        ensures
            row@.len() != old(self).columns@.len() ==> {
                &&& r == Err::<(), DbError>(
                    DbError::ColumnCountMismatch {
                        expected: old(self).columns@.len() as usize,
                        got: row@.len() as usize,
                    },
                )
                &&& *final(self) == *old(self)
            },
            row@.len() == old(self).columns@.len() && !old(self).row_matches(values_model(row@))
                ==> {
                &&& r == Err::<(), DbError>(DbError::TypeMismatch)
                &&& *final(self) == *old(self)
            },
            old(self).row_matches(values_model(row@)) ==> {
                &&& r is Ok
                &&& final(self).row_appended(old(self), values_model(row@))
            },
    {
        let n = self.columns.len();
        if row.len() != n {
            return Err(DbError::ColumnCountMismatch { expected: n, got: row.len() });
        }
        let mut i: usize = 0;
        while i < n
            invariant
                i <= n,
                n == self.columns@.len(),
                row@.len() == n,
                self.wf(),
                forall|c: int|
                    0 <= c < i ==> model_has_tag(#[trigger] row@[c].model(), self.col_tag(c)),
            decreases n - i,
        {
            if !value_matches(&row[i], self.columns[i].ty) {
                proof {
                    assert(!model_has_tag(values_model(row@)[i as int], self.col_tag(i as int)));
                }
                return Err(DbError::TypeMismatch);
            }
            i = i + 1;
        }
        proof {
            assert(self.row_matches(values_model(row@)));
            lemma_prefix_size_bound(self.columns@, n as int);
        }
        let rb = encode_row(&self.columns, &mut self.texts, &row);
        proof {
            assert forall|c: int| 0 <= c < n implies slot_holds(
                #[trigger] self.slot_of(rb@, c),
                self.col_tag(c),
                self.texts_view(),
                values_model(row@)[c],
            ) by {
                assert(self.slot_of(rb@, c) == rb@.subrange(
                    prefix_size(self.columns@, c) as int,
                    prefix_size(self.columns@, c + 1) as int,
                ));
            }
            assert forall|c: int| 0 <= c < n && is_text_tag(self.col_tag(c)) implies slot_text_index(
                #[trigger] self.slot_of(rb@, c),
            ) < self.texts@.len() by {
                assert(slot_holds(self.slot_of(rb@, c), self.col_tag(c), self.texts_view(), values_model(row@)[c]));
            }
        }
        let key = self.key_bytes_from_row_bytes(rb.as_slice());
        let ghost mid = *self;
        let row_id = self.num_rows;
        self.key_index.insert(key, row_id);
        let mut rb2 = rb;
        self.raw_data.append(&mut rb2);
        self.num_rows = row_id + 1;
        proof {
            assert forall|c: int| 0 <= c < n implies slot_holds(
                #[trigger] self.slot_of(rb@, c),
                self.col_tag(c),
                self.texts_view(),
                values_model(row@)[c],
            ) by {
                assert(self.slot_of(rb@, c) == mid.slot_of(rb@, c));
                assert(slot_holds(mid.slot_of(rb@, c), mid.col_tag(c), mid.texts_view(), values_model(row@)[c]));
            }
            assert(self.key_of_row_bytes(rb@) == mid.key_of_row_bytes(rb@)) by {
                assert(self.row_key_parts(rb@) =~= mid.row_key_parts(rb@));
            }
            lemma_append_row(old(self), self, rb@, values_model(row@));
        }
        Ok(())
    }
}

impl Table {
    /// Reads the first fields of a record, one per column, and appends them as a row;
    /// fields beyond the columns are ignored. A record that is refused leaves
    /// the table as it was: no bytes of its fields stay behind, so the rows
    /// after it are stored in their own slots.
    pub fn insert_fields(&mut self, fields: &[&str]) -> (r: Result<(), DbError>)
        requires
            old(self).wf(),
            old(self).num_rows < usize::MAX,
            old(self).fields_readable(strs_view(fields@)),
        ensures
            fields@.len() < old(self).columns@.len() ==> {
                &&& r == Err::<(), DbError>(
                    DbError::ColumnCountMismatch {
                        expected: old(self).columns@.len() as usize,
                        got: fields@.len() as usize,
                    },
                )
                &&& *final(self) == *old(self)
            },
            fields@.len() >= old(self).columns@.len() ==> match old(self).parse_fields(
                strs_view(fields@),
                old(self).columns@.len() as int,
            ) {
                Ok(ms) => r is Ok && final(self).row_appended(old(self), ms),
                Err(e) => r == Err::<(), DbError>(DbError::Input(e)) && *final(self) == *old(self),
            },
    {
        let n = self.columns.len();
        if fields.len() < n {
            return Err(DbError::ColumnCountMismatch { expected: n, got: fields.len() });
        }
        let mut row: Vec<Value> = Vec::new();
        assert(values_model(row@) =~= Seq::<ValueModel>::empty());
        let mut i: usize = 0;
        while i < n
            invariant
                i <= n,
                n == self.columns@.len(),
                n <= fields@.len(),
                self.wf(),
                self.fields_readable(strs_view(fields@)),
                self.parse_fields(strs_view(fields@), i as int) == Ok::<Seq<ValueModel>, InputError>(
                    values_model(row@),
                ),
                row@.len() == i,
                forall|c: int| 0 <= c < i ==> value_storable(#[trigger] row@[c].model()),
            decreases n - i,
        {
            let ty = self.columns[i].ty;
            assert(field_input_defined(strs_view(fields@)[i as int], self.columns@[i as int].ty));
            match field_input(fields[i], ty) {
                Ok(v) => {
                    let ghost before = row@;
                    row.push(v);
                    proof {
                        assert(values_model(row@) =~= values_model(before).push(v.model()));
                        assert(self.parse_fields(strs_view(fields@), i + 1) == Ok::<Seq<ValueModel>, InputError>(
                            values_model(before).push(v.model()),
                        ));
                        assert forall|c: int| 0 <= c < i + 1 implies value_storable(
                            #[trigger] row@[c].model(),
                        ) by {
                            if c == i {
                                if is_text_tag(ty.spec_tag()) {
                                    assert(value_storable(v.model()));
                                }
                            } else {
                                assert(row@[c] == before[c]);
                            }
                        }
                    }
                },
                Err(e) => {
                    proof {
                        lemma_parse_fields_err(self, strs_view(fields@), i as int + 1, n as int);
                    }
                    return Err(DbError::Input(e));
                },
            }
            i = i + 1;
        }
        proof {
            assert forall|c: int| 0 <= c < n implies model_has_tag(
                #[trigger] values_model(row@)[c],
                self.col_tag(c),
            ) by {
                lemma_parse_fields_types(self, strs_view(fields@), n as int, c);
            }
        }
        self.insert(row)
    }

    /// An empty table with the same columns and primary key.
    pub fn empty_like(&self) -> (t: Self)
        requires
            self.wf(),
        ensures
            t.wf(),
            t.same_schema(self),
            t.num_rows == 0,
            t.texts@.len() == 0,
            key_index_contents(t.key_index).dom().is_empty(),
    {
        let t = Table {
            columns: Column::duplicate_all(&self.columns),
            raw_data: Vec::new(),
            row_size: self.row_size,
            num_rows: 0,
            col_offsets: copy_usizes(&self.col_offsets),
            key_index: KeyIndex::new(),
            key_positions: copy_usizes(&self.key_positions),
            texts: Vec::new(),
        };
        proof {
            assert(t.columns@ =~= self.columns@);
            assert(t.num_rows * t.row_size == 0) by (nonlinear_arith)
                requires
                    t.num_rows == 0,
            ;
            assert forall|k: Seq<u8>| #[trigger] key_index_contents(t.key_index).dom().contains(
                k,
            ) implies false by {
                assert(key_index_contents(t.key_index).dom() =~= Set::<Seq<u8>>::empty());
            }
        }
        t
    }

    /// The slot bytes of a field, if the row exists.
    pub fn field_bytes(&self, row_id: usize, col_idx: usize) -> (r: Option<&[u8]>)
        requires
            self.wf(),
            col_idx < self.columns@.len(),
        ensures
            match r {
                Some(b) => self.row_start(row_id as int) + self.row_size <= self.raw_data@.len()
                    && b@ == self.slot(row_id as int, col_idx as int),
                None => !(self.row_start(row_id as int) + self.row_size <= self.raw_data@.len()),
            },
    {
        let row = self.row_ptr(row_id)?;
        proof {
            self.lemma_slot_in_row(col_idx as int);
        }
        let off = self.col_offsets[col_idx];
        let sz = self.columns[col_idx].size();
        Some(slice_subrange(row, off, off + sz))
    }
}

/// How a row dump shows a value: its kind and its content.
pub open spec fn value_dump_text(m: ValueModel) -> Seq<char> {
    match m {
        ValueModel::Integer(i) => "Integer("@ + int_to_decimal(i as int) + ")"@,
        ValueModel::Numeric(n) => "Numeric("@ + nat_to_decimal(n as nat) + ")"@,
        ValueModel::Bool(b) => "Bool("@ + bool_text(b) + ")"@,
        ValueModel::Timestamp(t) => "Timestamp("@ + int_to_decimal(t as int) + ")"@,
        ValueModel::Text(s) => "Text(\""@ + s + "\")"@,
    }
}

/// Appends how a row dump shows the value.
fn write_value_dump(out: &mut Output, v: ValueRef)
    ensures
        final(out)@ == old(out)@ + value_dump_text(v.model()),
{
    let ghost before = out@;
    match v {
        ValueRef::Integer(x) => {
            out.write("Integer(");
            out.write_i64(x as i64);
            out.write(")");
        },
        ValueRef::Numeric(x) => {
            out.write("Numeric(");
            out.write_u64(x);
            out.write(")");
        },
        ValueRef::Bool(b) => {
            out.write("Bool(");
            out.write(if b { "true" } else { "false" });
            out.write(")");
        },
        ValueRef::Timestamp(x) => {
            out.write("Timestamp(");
            out.write_i64(x);
            out.write(")");
        },
        ValueRef::Text(t) => {
            out.write("Text(\"");
            out.write(t.as_str());
            out.write("\")");
        },
    }
    proof {
        if v is Bool {
            reveal_strlit("true");
            reveal_strlit("false");
        }
        assert(out@ =~= before + value_dump_text(v.model()));
    }
}

impl Table {
    /// The dump of the first `n` fields of row `r`: for each, its column's
    /// name and its value.
    pub open spec fn fields_dump(&self, r: int, n: int) -> Seq<char>
        decreases n,
    {
        if n <= 0 {
            Seq::empty()
        } else {
            self.fields_dump(r, n - 1) + " "@ + self.columns@[n - 1].id@ + " : "@ + value_dump_text(
                self.cell(r, n - 1),
            )
        }
    }

    /// The dump of row `r`: a header line, then one line with every field.
    pub open spec fn row_dump(&self, r: int) -> Seq<char> {
        "Row "@ + nat_to_decimal(r as nat) + ":\n"@ + self.fields_dump(r, self.columns@.len() as int)
            + "\n"@
    }

    /// The dump of a row, for debugging; `None` where the row does not exist.
    pub fn debug_row(&self, row_id: usize) -> (r: Option<String>)
        requires
            self.wf(),
        ensures
            match r {
                Some(s) => row_id < self.num_rows && s@ == self.row_dump(row_id as int),
                None => row_id >= self.num_rows,
            },
    {
        if row_id >= self.num_rows {
            return None;
        }
        let mut out = Output::new();
        out.write("Row ");
        out.write_u64(row_id as u64);
        out.write(":\n");
        let view = RowView { table: self, row_id };
        let ghost head = out@;
        let n = self.columns.len();
        for i in 0..n
            invariant
                n == self.columns@.len(),
                self.wf(),
                row_id < self.num_rows,
                view.table == self,
                view.row_id == row_id,
                out@ == head + self.fields_dump(row_id as int, i as int),
        {
            out.write(" ");
            out.write(self.columns[i].id.as_str());
            out.write(" : ");
            let v = match view.get(i) {
                Some(v) => v,
                None => {
                    return None;
                },
            };
            write_value_dump(&mut out, v);
        }
        out.write("\n");
        Some(out.into_string())
    }
}

/// Reads a record's fields, one per column, as values of the columns' types and
/// appends them as a row.
pub fn insert_row_into_table(table: &mut Table, row: &[&str]) -> (r: Result<(), DbError>)
    requires
        old(table).wf(),
        old(table).num_rows < usize::MAX,
        row@.len() <= old(table).columns@.len(),
        old(table).fields_readable(strs_view(row@)),
    ensures
        match old(table).parse_fields(strs_view(row@), row@.len() as int) {
            Err(e) => r == Err::<(), DbError>(DbError::Input(e)) && *final(table) == *old(table),
            Ok(ms) => if row@.len() < old(table).columns@.len() {
                &&& r == Err::<(), DbError>(
                    DbError::ColumnCountMismatch {
                        expected: old(table).columns@.len() as usize,
                        got: row@.len() as usize,
                    },
                )
                &&& *final(table) == *old(table)
            } else {
                r is Ok && final(table).row_appended(old(table), ms)
            },
        },
{
    let n = row.len();
    let mut values: Vec<Value> = Vec::new();
    assert(values_model(values@) =~= Seq::<ValueModel>::empty());
    let mut i: usize = 0;
    while i < n
        invariant
            i <= n,
            n == row@.len(),
            n <= table.columns@.len(),
            table.wf(),
            table.fields_readable(strs_view(row@)),
            table.parse_fields(strs_view(row@), i as int) == Ok::<Seq<ValueModel>, InputError>(
                values_model(values@),
            ),
            values@.len() == i,
            forall|c: int| 0 <= c < i ==> value_storable(#[trigger] values@[c].model()),
        decreases n - i,
    {
        let ty = table.columns[i].ty;
        assert(field_input_defined(strs_view(row@)[i as int], table.columns@[i as int].ty));
        match field_input(row[i], ty) {
            Ok(v) => {
                let ghost before = values@;
                values.push(v);
                proof {
                    assert(values_model(values@) =~= values_model(before).push(v.model()));
                    assert(table.parse_fields(strs_view(row@), i + 1) == Ok::<Seq<ValueModel>, InputError>(
                        values_model(before).push(v.model()),
                    ));
                    assert forall|c: int| 0 <= c < i + 1 implies value_storable(
                        #[trigger] values@[c].model(),
                    ) by {
                        if c == i {
                            if is_text_tag(ty.spec_tag()) {
                                assert(value_storable(v.model()));
                            }
                        } else {
                            assert(values@[c] == before[c]);
                        }
                    }
                }
            },
            Err(e) => {
                proof {
                    lemma_parse_fields_err(table, strs_view(row@), i as int + 1, n as int);
                }
                return Err(DbError::Input(e));
            },
        }
        i = i + 1;
    }
    proof {
        if n == table.columns@.len() {
            assert forall|c: int| 0 <= c < n implies model_has_tag(
                #[trigger] values_model(values@)[c],
                table.col_tag(c),
            ) by {
                lemma_parse_fields_types(table, strs_view(row@), n as int, c);
            }
        }
    }
    table.insert(values)
}

/// Once a field cannot be read, reading more fields gives the same error.
proof fn lemma_parse_fields_err(t: &Table, fields: Seq<Seq<char>>, i: int, j: int)
    requires
        0 <= i <= j,
        t.parse_fields(fields, i) is Err,
    ensures
        t.parse_fields(fields, j) == t.parse_fields(fields, i),
    decreases j - i,
{
    if i < j {
        lemma_parse_fields_err(t, fields, i, j - 1);
    }
}

/// The values read from the fields belong to the columns' types.
proof fn lemma_parse_fields_types(t: &Table, fields: Seq<Seq<char>>, i: int, c: int)
    requires
        0 <= c < i <= t.columns@.len(),
        t.columns@[c].ty.has_valid_tag(),
        t.parse_fields(fields, i) is Ok,
    ensures
        t.parse_fields(fields, i)->Ok_0.len() == i,
        model_has_tag(t.parse_fields(fields, i)->Ok_0[c], t.col_tag(c)),
    decreases i,
{
    if c < i - 1 {
        lemma_parse_fields_types(t, fields, i - 1, c);
    } else if i > 1 {
        lemma_parse_fields_len(t, fields, i - 1);
    }
}

proof fn lemma_parse_fields_len(t: &Table, fields: Seq<Seq<char>>, i: int)
    requires
        0 <= i,
        t.parse_fields(fields, i) is Ok,
    ensures
        t.parse_fields(fields, i)->Ok_0.len() == i,
    decreases i,
{
    if i > 0 {
        lemma_parse_fields_len(t, fields, i - 1);
    }
}

/// Does the vector hold the position?
fn contains_position(v: &Vec<usize>, x: usize) -> (b: bool)
    ensures
        b == v@.contains(x),
{
    let mut i: usize = 0;
    while i < v.len()
        invariant
            i <= v@.len(),
            forall|k: int| 0 <= k < i ==> v@[k] != x,
        decreases v@.len() - i,
    {
        if v[i] == x {
            assert(v@[i as int] == x);
            return true;
        }
        i = i + 1;
    }
    false
}

/// Are the two byte strings equal?
fn bytes_equal(a: &[u8], b: &[u8]) -> (r: bool)
    ensures
        r == (a@ == b@),
{
    if a.len() != b.len() {
        return false;
    }
    let mut i: usize = 0;
    while i < a.len()
        invariant
            i <= a@.len(),
            a@.len() == b@.len(),
            forall|k: int| 0 <= k < i ==> a@[k] == b@[k],
        decreases a@.len() - i,
    {
        if a[i] != b[i] {
            return false;
        }
        i = i + 1;
    }
    assert(a@ =~= b@);
    true
}

impl Table {
    /// Overwrites one field of the row that the index holds for the key.
    pub fn put_field(&mut self, key: &Vec<Value>, col_idx: usize, value: &Value) -> (r: Result<
        (),
        DbError,
    >)
        requires
            old(self).wf(),
            value_storable(value.model()),
        ensures
            col_idx >= old(self).columns@.len() ==> r == Err::<(), DbError>(
                DbError::ColumnOutOfBounds,
            ),
            col_idx < old(self).columns@.len() && old(self).key_values_bytes(values_model(key@))
                is None ==> r == Err::<(), DbError>(DbError::InvalidKey),
            col_idx < old(self).columns@.len() && old(self).key_values_bytes(values_model(key@))
                is Some && old(self).lookup_key(values_model(key@)) is None ==> r == Err::<
                (),
                DbError,
            >(DbError::KeyNotFound),
            col_idx < old(self).columns@.len() && old(self).lookup_key(values_model(key@)) is Some
                && !model_has_tag(value.model(), old(self).col_tag(col_idx as int)) ==> r == Err::<
                (),
                DbError,
            >(DbError::TypeMismatch),
            r is Err ==> *final(self) == *old(self),
            col_idx < old(self).columns@.len() && model_has_tag(
                value.model(),
                old(self).col_tag(col_idx as int),
            ) ==> match old(self).lookup_key(values_model(key@)) {
                Some(row_id) => r is Ok && final(self).field_updated(
                    old(self),
                    row_id as int,
                    col_idx as int,
                    value.model(),
                ),
                None => r is Err,
            },
    {
        if col_idx >= self.columns.len() {
            return Err(DbError::ColumnOutOfBounds);
        }
        let key_bytes = match self.key_bytes_from_key_values(key) {
            Some(k) => k,
            None => {
                return Err(DbError::InvalidKey);
            },
        };
        let row_id = match self.key_index.get(key_bytes.as_slice()) {
            Some(id) => id,
            None => {
                return Err(DbError::KeyNotFound);
            },
        };
        let ty = self.columns[col_idx].ty;
        if !value_matches(value, ty) {
            return Err(DbError::TypeMismatch);
        }
        proof {
            self.lemma_row_in_range(row_id as int);
            self.lemma_slot_in_row(col_idx as int);
            lemma_row_end(row_id as int, self.num_rows as int, self.row_size as int);
        }
        let off = self.col_offsets[col_idx];
        let sz = self.columns[col_idx].size();
        let mut tmp: Vec<u8> = Vec::new();
        let len0 = self.texts.len();
        let ghost tv0 = self.texts_view();
        let ghost m = value.model();
        let _ = encode_value_fixed(&mut tmp, &mut self.texts, ty, value);
        proof {
            let tv1 = self.texts_view();
            assert(texts_extend(tv0, tv1)) by {
                if m is Text {
                    assert(tv1 == tv0.push(m->Text_0));
                }
            }
            crate::db::row::lemma_decode_encode(m, ty.spec_tag(), tv1, len0 as nat);
            assert(tmp@ =~= encode_model(m, len0 as nat));
        }
        let total = self.raw_data.len();
        assert(row_id * self.row_size + self.row_size <= total);
        let rstart = row_id * self.row_size;
        let start = rstart + off;
        let ghost raw0 = self.raw_data@;
        let ghost texts1 = self.texts@;
        let rs = self.row_size;
        let mut k: usize = 0;
        while k < sz
            invariant
                k <= sz,
                raw0.len() == total,
                self.same_schema(old(self)),
                self.num_rows == old(self).num_rows,
                self.texts@ == texts1,
                self.key_index == old(self).key_index,
                sz == tmp@.len(),
                start + sz <= raw0.len(),
                self.raw_data@.len() == raw0.len(),
                forall|i: int|
                    0 <= i < raw0.len() ==> #[trigger] self.raw_data@[i] == if start <= i < start
                        + k {
                        tmp@[i - start]
                    } else {
                        raw0[i]
                    },
            decreases sz - k,
        {
            self.raw_data.set(start + k, tmp[k]);
            k = k + 1;
        }
        let ghost mid = *self;
        proof {
            lemma_overwrite(old(self), &mid, row_id as int, col_idx as int, tmp@, m);
        }
        if contains_position(&self.key_positions, col_idx) {
            let row = slice_subrange(self.raw_data.as_slice(), rstart, rstart + rs);
            assert(row@ == mid.row_bytes(row_id as int));
            let new_key = self.key_bytes_from_row_bytes(row);
            if !bytes_equal(new_key.as_slice(), key_bytes.as_slice()) {
                self.key_index.remove(key_bytes.as_slice());
                self.key_index.insert(new_key, row_id);
            }
        }
        proof {
            assert(self.same_schema(&mid));
            assert forall|r: int| 0 <= r < self.num_rows implies #[trigger] self.row_key(r) == mid.row_key(r) by {
                assert(self.row_key_parts(self.row_bytes(r)) =~= mid.row_key_parts(mid.row_bytes(r)));
            }
            assert forall|r: int, c: int| 0 <= r < self.num_rows && 0 <= c < self.columns@.len()
                implies #[trigger] self.cell(r, c) == mid.cell(r, c) by {}
            assert forall|r: int| 0 <= r < self.num_rows implies #[trigger] self.text_slots_wf(
                self.row_bytes(r),
            ) by {
                assert(mid.text_slots_wf(mid.row_bytes(r)));
                assert(self.row_bytes(r) == mid.row_bytes(r));
                assert forall|c: int| 0 <= c < self.columns@.len() && is_text_tag(self.col_tag(c))
                    implies slot_text_index(#[trigger] self.slot_of(self.row_bytes(r), c))
                    < self.texts@.len() by {
                    assert(self.slot_of(self.row_bytes(r), c) == mid.slot_of(mid.row_bytes(r), c));
                }
            }
            assert forall|k: Seq<u8>| #[trigger] key_index_contents(self.key_index).dom().contains(k)
                implies {
                &&& key_index_contents(self.key_index)[k] < self.num_rows
                &&& self.row_key(key_index_contents(self.key_index)[k] as int) == k
            } by {
                let rid = key_index_contents(self.key_index)[k];
                if k != self.row_key(row_id as int) {
                    assert(key_index_contents(old(self).key_index).dom().contains(k));
                    assert(key_index_contents(old(self).key_index)[k] == rid);
                    if rid == row_id {
                        assert(old(self).row_key(row_id as int) == key_bytes@);
                        assert(k == key_bytes@);
                    }
                }
            }
        }
        Ok(())
    }
}

/// The key values of a row: its values in the primary-key columns, in key order.
pub open spec fn key_of_row_values(t: &Table, row: Seq<ValueModel>) -> Seq<ValueModel> {
    Seq::new(t.key_positions@.len(), |j: int| row[t.key_positions@[j] as int])
}

/// After a row is appended, looking up its key values finds it, and reading
/// it gives back its values; the rows before it read as before.
pub proof fn law_insert_then_lookup(old: &Table, new: &Table, row: Seq<ValueModel>)
    requires
        old.wf(),
        old.row_matches(row),
        new.row_appended(old, row),
    ensures
        new.lookup_key(key_of_row_values(new, row)) == Some(old.num_rows),
        forall|c: int|
            0 <= c < new.columns@.len() ==> #[trigger] new.cell(old.num_rows as int, c) == row[c],
        forall|r: int, c: int|
            0 <= r < old.num_rows && 0 <= c < new.columns@.len() ==> #[trigger] new.cell(r, c)
                == old.cell(r, c),
{
    let key = key_of_row_values(new, row);
    assert forall|j: int| 0 <= j < key.len() implies model_has_tag(
        #[trigger] key[j],
        new.col_tag(new.key_positions@[j] as int),
    ) by {
        assert(new.key_positions@[j] < new.columns@.len());
    }
    assert(Seq::new(key.len(), |j: int| key_part(key[j])) =~= Seq::new(
        new.key_positions@.len(),
        |j: int| key_part(row[new.key_positions@[j] as int]),
    ));
}

/// Overwriting a field that is not part of the primary key keeps every key
/// lookup as it was.
pub proof fn law_put_field_keeps_lookups(
    old: &Table,
    new: &Table,
    row_id: int,
    col: int,
    m: ValueModel,
    key: Seq<ValueModel>,
)
    requires
        old.wf(),
        new.field_updated(old, row_id, col, m),
        !old.key_positions@.contains(col as usize),
    ensures
        new.lookup_key(key) == old.lookup_key(key),
{
}

/// The characters of each field of a record.
pub open spec fn record_view(rec: Seq<String>) -> Seq<Seq<char>> {
    rec.map_values(|f: String| f@)
}

/// The characters of each field of each record.
pub open spec fn records_view(recs: Seq<Vec<String>>) -> Seq<Seq<Seq<char>>> {
    recs.map_values(|r: Vec<String>| record_view(r@))
}

impl Table {
    /// What appending a record gives: its values, or why it was refused.
    pub open spec fn record_result(&self, rec: Seq<Seq<char>>) -> Result<Seq<ValueModel>, DbError> {
        if rec.len() < self.columns@.len() {
            Err(
                DbError::ColumnCountMismatch {
                    expected: self.columns@.len() as usize,
                    got: rec.len() as usize,
                },
            )
        } else {
            match self.parse_fields(rec, self.columns@.len() as int) {
                Ok(ms) => Ok(ms),
                Err(e) => Err(DbError::Input(e)),
            }
        }
    }

    /// This table is `old` with the first `k` records appended as rows, in order.
    pub open spec fn records_appended(&self, old: &Table, recs: Seq<Seq<Seq<char>>>, k: int) -> bool {
        &&& self.wf()
        &&& self.same_schema(old)
        &&& self.num_rows == old.num_rows + k
        &&& forall|j: int| 0 <= j < k ==> (#[trigger] old.record_result(recs[j])) is Ok
        &&& forall|r: int, c: int|
            0 <= r < old.num_rows && 0 <= c < self.columns@.len() ==> #[trigger] self.cell(r, c)
                == old.cell(r, c)
        &&& forall|j: int, c: int|
            0 <= j < k && 0 <= c < self.columns@.len() ==> #[trigger] self.cell(old.num_rows + j, c)
                == old.record_result(recs[j])->Ok_0[c]
    }

    /// Appends the records as rows, in order, up to the first that is
    /// refused; fields beyond the columns are ignored.
    pub fn load_records(&mut self, records: &Vec<Vec<String>>) -> (r: Result<(), DbError>)
        requires
            old(self).wf(),
            forall|k: int|
                0 <= k < records@.len() ==> old(self).fields_readable(
                    record_view((#[trigger] records@[k])@),
                ),
        ensures
            r is Ok ==> final(self).records_appended(old(self), records_view(records@), records@.len() as int),
            r matches Err(e) ==> exists|j: int|
                0 <= j < records@.len() && final(self).records_appended(
                    old(self),
                    records_view(records@),
                    j,
                ) && (old(self).record_result(records_view(records@)[j]) == Err::<Seq<ValueModel>, DbError>(e)
                    || (e == DbError::TableFull && final(self).num_rows == usize::MAX)),
    {
        let ghost recs = records_view(records@);
        let n = records.len();
        let mut i: usize = 0;
        proof {
            assert forall|r: int, c: int|
                0 <= r < self.num_rows && 0 <= c < self.columns@.len() implies #[trigger] self.cell(r, c)
                == old(self).cell(r, c) by {}
        }
        while i < n
            invariant
                i <= n,
                n == records@.len(),
                recs == records_view(records@),
                self.records_appended(old(self), recs, i as int),
                forall|k: int|
                    0 <= k < records@.len() ==> old(self).fields_readable(
                        record_view((#[trigger] records@[k])@),
                    ),
            decreases n - i,
        {
            let rec = &records[i];
            let mut fields: Vec<&str> = Vec::new();
            let mut k: usize = 0;
            while k < rec.len()
                invariant
                    k <= rec@.len(),
                    strs_view(fields@) == record_view(rec@).take(k as int),
                decreases rec@.len() - k,
            {
                let f = rec[k].as_str();
                let ghost before = fields@;
                fields.push(f);
                proof {
                    assert(f@ == rec@[k as int]@);
                    assert(fields@ == before.push(f));
                    assert(strs_view(fields@) =~= strs_view(before).push(f@));
                    assert(record_view(rec@).take(k + 1) =~= record_view(rec@).take(k as int).push(rec@[k as int]@));
                }
                k = k + 1;
            }
            assert(record_view(rec@).take(rec@.len() as int) =~= record_view(rec@));
            assert(recs[i as int] == record_view(rec@));
            if self.num_rows == usize::MAX {
                return Err(DbError::TableFull);
            }
            let ghost before = *self;
            proof {
                assert(self.fields_readable(strs_view(fields@))) by {
                    assert(old(self).fields_readable(record_view(records@[i as int]@)));
                }
            }
            match self.insert_fields(fields.as_slice()) {
                Ok(()) => {},
                Err(e) => {
                    proof {
                        assert(old(self).record_result(recs[i as int]) == Err::<Seq<ValueModel>, DbError>(e)) by {
                            assert(old(self).parse_fields(recs[i as int], old(self).columns@.len() as int)
                                == before.parse_fields(recs[i as int], before.columns@.len() as int)) by {
                                lemma_parse_fields_same_schema(old(self), &before, recs[i as int], old(self).columns@.len() as int);
                            }
                        }
                    }
                    return Err(e);
                },
            }
            proof {
                lemma_parse_fields_same_schema(old(self), &before, recs[i as int], old(self).columns@.len() as int);
                assert forall|j: int, c: int|
                    0 <= j < i + 1 && 0 <= c < self.columns@.len() implies #[trigger] self.cell(
                    old(self).num_rows + j,
                    c,
                ) == old(self).record_result(recs[j])->Ok_0[c] by {
                    if j < i {
                        assert(self.cell(old(self).num_rows + j, c) == before.cell(old(self).num_rows + j, c));
                    }
                }
                assert forall|r: int, c: int|
                    0 <= r < old(self).num_rows && 0 <= c < self.columns@.len() implies #[trigger] self.cell(r, c)
                    == old(self).cell(r, c) by {
                    assert(self.cell(r, c) == before.cell(r, c));
                }
            }
            i = i + 1;
        }
        Ok(())
    }
}

/// Reading the first `i` fields depends only on the columns.
proof fn lemma_parse_fields_same_schema(a: &Table, b: &Table, fields: Seq<Seq<char>>, i: int)
    requires
        a.columns@ == b.columns@,
    ensures
        a.parse_fields(fields, i) == b.parse_fields(fields, i),
    decreases i,
{
    if i > 0 {
        lemma_parse_fields_same_schema(a, b, fields, i - 1);
    }
}

/// The delimiter byte of a COPY statement.
pub open spec fn spec_delimiter_byte(d: Seq<char>) -> Result<u8, DbError> {
    if d == "\\t"@ || d == "\t"@ {
        Ok(9u8)
    } else if d.len() == 0 {
        Err(DbError::EmptyDelimiter)
    } else {
        Ok((d[0] as u32) as u8)
    }
}

/// The delimiter byte of a COPY statement: a tab for `\t` (written as a
/// backslash and a `t`, or as the tab itself), else the low byte of its first
/// character; an empty delimiter is refused.
pub fn delimiter_byte(delimiter: &str) -> (r: Result<u8, DbError>)
    ensures
        r == spec_delimiter_byte(delimiter@),
{
    if str_eq(delimiter, "\\t") || str_eq(delimiter, "\t") {
        proof {
            reveal_strlit("\t");
        }
        return Ok(9u8);
    }
    if delimiter.unicode_len() == 0 {
        return Err(DbError::EmptyDelimiter);
    }
    let c = delimiter.get_char(0);
    Ok(#[verifier::truncate] ((c as u32) as u8))
}

impl Table {
    /// Are the fields of every record readable as values of the columns' types?
    fn records_readable(&self, records: &Vec<Vec<String>>) -> (b: bool)
        ensures
            b == forall|k: int|
                0 <= k < records@.len() ==> self.fields_readable(record_view((#[trigger] records@[k])@)),
    {
        let n = records.len();
        let ncols = self.columns.len();
        let mut i: usize = 0;
        while i < n
            invariant
                i <= n,
                n == records@.len(),
                ncols == self.columns@.len(),
                forall|k: int| 0 <= k < i ==> self.fields_readable(record_view((#[trigger] records@[k])@)),
            decreases n - i,
        {
            let rec = &records[i];
            let mut c: usize = 0;
            while c < ncols && c < rec.len()
                invariant
                    c <= ncols,
                    ncols == self.columns@.len(),
                    i < n,
                    n == records@.len(),
                    *rec == records@[i as int],
                    forall|j: int|
                        0 <= j < c ==> field_input_defined(#[trigger] record_view(rec@)[j], self.columns@[j].ty),
                decreases ncols - c,
            {
                if !field_readable(rec[c].as_str(), self.columns[c].ty) {
                    proof {
                        let fv = record_view(records@[i as int]@);
                        assert(fv == record_view(rec@));
                        assert(!field_input_defined(fv[c as int], self.columns@[c as int].ty));
                        assert(!self.fields_readable(fv));
                    }
                    return false;
                }
                c = c + 1;
            }
            i = i + 1;
        }
        true
    }

    /// This table is `old` after loading the CSV data with the delimiter,
    /// with the result `r`: see `load_csv`.
    pub open spec fn csv_loaded(
        &self,
        old: &Table,
        data: Seq<u8>,
        delimiter: Seq<char>,
        r: Result<(), DbError>,
    ) -> bool {
        match spec_delimiter_byte(delimiter) {
            Err(_) => r == Err::<(), DbError>(DbError::EmptyDelimiter) && *self == *old,
            Ok(d) => {
                let (recs, failed) = crate::db::csv_source::csv_read(data, d, true, Some(92u8), false);
                if !(forall|k: int| 0 <= k < recs.len() ==> old.fields_readable(#[trigger] recs[k])) {
                    r == Err::<(), DbError>(DbError::UnreadableField) && *self == *old
                } else {
                    &&& r is Ok ==> !failed && self.records_appended(old, recs, recs.len() as int)
                    &&& r == Err::<(), DbError>(DbError::Csv) ==> failed && self.records_appended(
                        old,
                        recs,
                        recs.len() as int,
                    )
                    &&& r matches Err(e) ==> (e != DbError::Csv ==> exists|j: int|
                        0 <= j < recs.len() && self.records_appended(old, recs, j) && (old.record_result(
                            recs[j],
                        ) == Err::<Seq<ValueModel>, DbError>(e) || (e == DbError::TableFull && self.num_rows
                            == usize::MAX)))
                    &&& (forall|k: int| 0 <= k < recs.len() ==> (#[trigger] old.record_result(recs[k])) is Ok)
                        && old.num_rows + recs.len() <= usize::MAX ==> r == if failed {
                        Err::<(), DbError>(DbError::Csv)
                    } else {
                        Ok(())
                    }
                }
            },
        }
    }

    /// Loads CSV data into the table: the delimiter as `delimiter_byte`
    /// reads it, quotes doubled inside quoted fields, backslash as escape, no
    /// header row. The records are appended as `load_records` appends them;
    /// data with a field that would overflow its type is refused before any
    /// row is appended, and malformed data after the records before it.
    pub fn load_csv(&mut self, data: &[u8], delimiter: &str) -> (r: Result<(), DbError>)
        requires
            old(self).wf(),
        ensures
            final(self).wf(),
            final(self).csv_loaded(old(self), data@, delimiter@, r),
    {
        let delim = match delimiter_byte(delimiter) {
            Ok(d) => d,
            Err(e) => {
                return Err(e);
            },
        };
        let (records, err) = crate::db::csv_source::read_csv_records(data, delim, true, Some(92u8), false);
        let ghost recs = crate::db::csv_source::records_chars(records@);
        proof {
            assert(records_view(records@) =~= recs);
            assert forall|k: int|
                #![trigger recs[k]]
                #![trigger records@[k]]
                0 <= k < recs.len() implies self.fields_readable(recs[k]) == self.fields_readable(
                    record_view(records@[k]@),
                ) by {
                assert(recs[k] == record_view(records@[k]@));
            }
            assert(recs.len() == records@.len());
        }
        if !self.records_readable(&records) {
            proof {
                let k = choose|k: int|
                    0 <= k < records@.len() && !self.fields_readable(record_view((#[trigger] records@[k])@));
                assert(!self.fields_readable(recs[k]));
                let (rs, failed) = crate::db::csv_source::csv_read(data@, delim, true, Some(92u8), false);
                assert(rs == recs);
            }
            return Err(DbError::UnreadableField);
        }
        let r = self.load_records(&records);
        match r {
            Ok(()) => {},
            Err(e) => {
                proof {
                    let j = choose|j: int|
                        0 <= j < records@.len() && self.records_appended(old(self), records_view(records@), j)
                            && (old(self).record_result(records_view(records@)[j]) == Err::<
                            Seq<ValueModel>,
                            DbError,
                        >(e) || (e == DbError::TableFull && self.num_rows == usize::MAX));
                    assert(recs.len() == records@.len());
                    assert(self.records_appended(old(self), recs, j));
                    let (rs, failed) = crate::db::csv_source::csv_read(data@, delim, true, Some(92u8), false);
                    assert(rs == recs);
                    assert(0 <= j < rs.len() && self.records_appended(old(self), rs, j));
                    assert(e != DbError::Csv);
                    if (forall|k: int| 0 <= k < rs.len() ==> (#[trigger] old(self).record_result(rs[k])) is Ok)
                        && old(self).num_rows + rs.len() <= usize::MAX {
                        assert(old(self).record_result(rs[j]) is Ok);
                        assert(false);
                    }
                }
                return Err(e);
            },
        }
        proof {
            assert(recs.len() == records@.len());
            assert(self.records_appended(old(self), recs, recs.len() as int));
            let (rs, failed) = crate::db::csv_source::csv_read(data@, delim, true, Some(92u8), false);
            assert(rs == recs);
        }
        match err {
            Some(_) => Err(DbError::Csv),
            None => Ok(()),
        }
    }
}

} // verus!
