//! Equality and order of texts: by their characters.

use vstd::prelude::*;
use core::cmp::Ordering;
use vstd::std_specs::cmp::{PartialEqSpecImpl, PartialOrdSpecImpl};

use crate::types::text::Text;
use crate::util::strings::{chars_lt, str_eq, str_lt};

verus! {

/// The order of two texts: character by character, a proper prefix first
/// (the order of their UTF-8 bytes).
pub open spec fn text_order(a: Seq<char>, b: Seq<char>) -> Option<Ordering> {
    if a == b {
        Some(Ordering::Equal)
    } else if chars_lt(a, b) {
        Some(Ordering::Less)
    } else {
        Some(Ordering::Greater)
    }
}

impl PartialEqSpecImpl for Text {
    open spec fn obeys_eq_spec() -> bool {
        true
    }

    open spec fn eq_spec(&self, other: &Text) -> bool {
        self@ == other@
    }
}

impl PartialEq for Text {
    fn eq(&self, other: &Text) -> (r: bool) {
        str_eq(self.value.as_str(), other.value.as_str())
    }
}

impl PartialOrdSpecImpl for Text {
    open spec fn obeys_partial_cmp_spec() -> bool {
        true
    }

    open spec fn partial_cmp_spec(&self, other: &Text) -> Option<Ordering> {
        text_order(self@, other@)
    }
}

impl PartialOrd for Text {
    fn partial_cmp(&self, other: &Text) -> (r: Option<Ordering>) {
        if str_eq(self.value.as_str(), other.value.as_str()) {
            Some(Ordering::Equal)
        } else if str_lt(self.value.as_str(), other.value.as_str()) {
            Some(Ordering::Less)
        } else {
            Some(Ordering::Greater)
        }
    }
}

} // verus!
