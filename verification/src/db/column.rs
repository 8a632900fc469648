//! Column metadata.

use vstd::prelude::*;

use crate::types::{Tag, Type};

verus! {

/// The number of bytes a value of a tag occupies in a row.
pub open spec fn column_size(t: Tag) -> nat {
    match t {
        Tag::Bool => 1,
        Tag::Integer => 4,
        Tag::Numeric => 8,
        Tag::Timestamp => 8,
        Tag::Text | Tag::Char | Tag::VarChar => 16,
    }
}

/// A column of a table.
#[derive(Debug, Clone)]
pub struct Column {
    /// Name of the column
    pub id: String,
    /// Type of the column
    pub ty: Type,
    /// The column is part of the primary key
    pub primary_key: bool,
}

impl Column {
    /// A copy of the column.
    pub fn duplicate(&self) -> (c: Column)
        ensures
            c == *self,
    {
        Column { id: self.id.clone(), ty: self.ty, primary_key: self.primary_key }
    }

    /// Copies of the columns, in order.
    pub fn duplicate_all(cols: &Vec<Column>) -> (r: Vec<Column>)
        ensures
            r@ == cols@,
    {
        let mut r: Vec<Column> = Vec::new();
        let mut i: usize = 0;
        while i < cols.len()
            invariant
                i <= cols@.len(),
                r@ == cols@.take(i as int),
            decreases cols@.len() - i,
        {
            r.push(cols[i].duplicate());
            i = i + 1;
            assert(r@ =~= cols@.take(i as int));
        }
        assert(cols@.take(cols@.len() as int) =~= cols@);
        r
    }

    /// The number of bytes a value of this column occupies in a row.
    pub fn size(&self) -> (s: usize)
        requires
            self.ty.has_valid_tag(),
        ensures
            s == column_size(self.ty.spec_tag()),
    {
        match self.ty.tag() {
            Tag::Bool => 1,
            Tag::Integer => 4,
            Tag::Numeric => 8,
            Tag::Timestamp => 8,
            Tag::Text | Tag::Char | Tag::VarChar => 16,
        }
    }
}

} // verus!
