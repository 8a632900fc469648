//! The Print operator: the root of a plan, which prints the result rows.

use vstd::prelude::*;

use crate::algebra::Op;
use crate::algebra::iu::IURef;

verus! {

/// Print operator: the root of a plan, printing the IUs of each result row.
#[derive(Debug)]
pub struct Print {
    /// Child operator providing tuples
    pub child: Box<Op>,
    /// The IUs printed
    pub iu_refs_set: Vec<IURef>,
    /// The IUs printed, in order
    pub iu_refs_vec: Vec<IURef>,
}

impl Print {
    /// A print operator over the child that prints no IU yet.
    pub fn new(child: Op) -> (p: Self)
        ensures
            *p.child == child,
            p.iu_refs_set@.len() == 0,
            p.iu_refs_vec@.len() == 0,
    {
        Print { child: Box::new(child), iu_refs_set: Vec::new(), iu_refs_vec: Vec::new() }
    }
}

} // verus!
