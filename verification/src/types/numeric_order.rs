//! The order of NUMERIC values: by their signed value.

use vstd::prelude::*;
use core::cmp::Ordering;
use vstd::std_specs::cmp::PartialOrdSpecImpl;

use crate::types::numeric::{Numeric, signed_value};

verus! {

/// The order of two signed values.
pub open spec fn signed_order(a: int, b: int) -> Option<Ordering> {
    if a < b {
        Some(Ordering::Less)
    } else if a == b {
        Some(Ordering::Equal)
    } else {
        Some(Ordering::Greater)
    }
}

impl PartialOrdSpecImpl for Numeric {
    open spec fn obeys_partial_cmp_spec() -> bool {
        true
    }

    open spec fn partial_cmp_spec(&self, other: &Numeric) -> Option<Ordering> {
        signed_order(signed_value(self.value), signed_value(other.value))
    }
}

impl PartialOrd for Numeric {
    fn partial_cmp(&self, other: &Numeric) -> (r: Option<Ordering>) {
        let a = self.signed();
        let b = other.signed();
        if a < b {
            Some(Ordering::Less)
        } else if a == b {
            Some(Ordering::Equal)
        } else {
            Some(Ordering::Greater)
        }
    }
}

} // verus!
