//! Owned values of the database types.

use vstd::prelude::*;

use crate::types::bool::Bool;
use crate::types::integer::Integer;
use crate::types::numeric::Numeric;
use crate::types::text::Text;
use crate::types::timestamp::Timestamp;
use crate::types::{Tag, is_text_tag};

verus! {

/// The mathematical content of a value.
pub ghost enum ValueModel {
    Bool(bool),
    Integer(i32),
    Numeric(u64),
    Timestamp(i64),
    Text(Seq<char>),
}

/// Does a value belong to the type with the given tag?
pub open spec fn model_has_tag(m: ValueModel, t: Tag) -> bool {
    match m {
        ValueModel::Bool(_) => t == Tag::Bool,
        ValueModel::Integer(_) => t == Tag::Integer,
        ValueModel::Numeric(_) => t == Tag::Numeric,
        ValueModel::Timestamp(_) => t == Tag::Timestamp,
        ValueModel::Text(_) => is_text_tag(t),
    }
}

/// An owned value of one of the database types.
#[derive(Clone, Debug, Eq, Hash, PartialEq)]
pub enum Value {
    Bool(Bool),
    Integer(Integer),
    Numeric(Numeric),
    Text(Text),
    Timestamp(Timestamp),
}

impl Value {
    /// The content of the value.
    pub open spec fn model(&self) -> ValueModel {
        match self {
            Value::Bool(b) => ValueModel::Bool(b.value),
            Value::Integer(i) => ValueModel::Integer(i.value),
            Value::Numeric(n) => ValueModel::Numeric(n.value),
            Value::Text(t) => ValueModel::Text(t@),
            Value::Timestamp(t) => ValueModel::Timestamp(t.value),
        }
    }
}

impl vstd::std_specs::convert::FromSpecImpl<i32> for Value {
    open spec fn obeys_from_spec() -> bool {
        true
    }

    open spec fn from_spec(v: i32) -> Value {
        Value::Integer(Integer { value: v })
    }
}

impl From<i32> for Value {
    fn from(v: i32) -> Self {
        Value::Integer(Integer::new(v))
    }
}

impl vstd::std_specs::convert::FromSpecImpl<bool> for Value {
    open spec fn obeys_from_spec() -> bool {
        true
    }

    open spec fn from_spec(v: bool) -> Value {
        Value::Bool(Bool { value: v })
    }
}

impl From<bool> for Value {
    fn from(v: bool) -> Self {
        Value::Bool(Bool::new(v))
    }
}

impl vstd::std_specs::convert::FromSpecImpl<u64> for Value {
    open spec fn obeys_from_spec() -> bool {
        true
    }

    open spec fn from_spec(v: u64) -> Value {
        Value::Numeric(Numeric { value: v })
    }
}

impl From<u64> for Value {
    fn from(v: u64) -> Self {
        Value::Numeric(Numeric::new(v))
    }
}

impl vstd::std_specs::convert::FromSpecImpl<Bool> for Value {
    open spec fn obeys_from_spec() -> bool {
        true
    }

    open spec fn from_spec(v: Bool) -> Value {
        Value::Bool(v)
    }
}

impl From<Bool> for Value {
    fn from(v: Bool) -> Self {
        Value::Bool(v)
    }
}

impl vstd::std_specs::convert::FromSpecImpl<Integer> for Value {
    open spec fn obeys_from_spec() -> bool {
        true
    }

    open spec fn from_spec(v: Integer) -> Value {
        Value::Integer(v)
    }
}

impl From<Integer> for Value {
    fn from(v: Integer) -> Self {
        Value::Integer(v)
    }
}

impl vstd::std_specs::convert::FromSpecImpl<Numeric> for Value {
    open spec fn obeys_from_spec() -> bool {
        true
    }

    open spec fn from_spec(v: Numeric) -> Value {
        Value::Numeric(v)
    }
}

impl From<Numeric> for Value {
    fn from(v: Numeric) -> Self {
        Value::Numeric(v)
    }
}

impl vstd::std_specs::convert::FromSpecImpl<Text> for Value {
    open spec fn obeys_from_spec() -> bool {
        true
    }

    open spec fn from_spec(v: Text) -> Value {
        Value::Text(v)
    }
}

impl From<Text> for Value {
    fn from(v: Text) -> Self {
        Value::Text(v)
    }
}

impl vstd::std_specs::convert::FromSpecImpl<Timestamp> for Value {
    open spec fn obeys_from_spec() -> bool {
        true
    }

    open spec fn from_spec(v: Timestamp) -> Value {
        Value::Timestamp(v)
    }
}

impl From<Timestamp> for Value {
    fn from(v: Timestamp) -> Self {
        Value::Timestamp(v)
    }
}

} // verus!
