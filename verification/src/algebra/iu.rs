//! Information units: the columns that flow through a plan.
//!
//! An [`IU`] is a column (its name and type). An [`IURef`] refers to one IU by
//! an identity number that semantic analysis makes fresh for each column of
//! each table reference, so that two references are equal exactly when they
//! refer to the same IU, whatever the names: in a self-join
//! `SELECT a.id, b.id FROM t a, t b` the two `id` columns are different IUs.

use vstd::prelude::*;

use crate::types::Type;
use crate::util::strings::{chars_lt, lemma_chars_lt_trans, str_lt};

verus! {

/// A column flowing through the operator tree: its name and type.
#[derive(Debug, Clone, Hash)]
pub struct IU {
    /// Column name (e.g. "customer_id")
    pub name: String,
    /// Data type of the column
    pub ty: Type,
}

/// A reference to an IU; two references are equal when their identities are.
#[derive(Debug, Clone, Hash)]
pub struct IURef {
    /// The identity of the IU
    pub id: u64,
    /// The IU
    pub iu: IU,
}

impl PartialEq for IURef {
    fn eq(&self, other: &IURef) -> (r: bool) {
        self.id == other.id
    }
}

impl Eq for IURef {
}

impl vstd::std_specs::cmp::PartialEqSpecImpl for IURef {
    open spec fn obeys_eq_spec() -> bool {
        true
    }

    open spec fn eq_spec(&self, other: &IURef) -> bool {
        self.id == other.id
    }
}

impl IURef {
    /// A reference to the same IU.
    pub fn dup(&self) -> (r: IURef)
        ensures
            r == *self,
    {
        IURef { id: self.id, iu: IU { name: self.iu.name.clone(), ty: self.iu.ty } }
    }

    /// Does the reference refer to the IU with the given identity?
    pub fn is(&self, id: u64) -> (b: bool)
        ensures
            b == (self.id == id),
    {
        self.id == id
    }
}

/// The identities of a sequence of IU references.
pub open spec fn iu_ids(ius: Seq<IURef>) -> Set<u64> {
    Set::new(|id: u64| exists|i: int| 0 <= i < ius.len() && (#[trigger] ius[i]).id == id)
}

/// Does a vector of references hold one with the given identity?
pub fn contains_iu(ius: &Vec<IURef>, id: u64) -> (b: bool)
    ensures
        b == iu_ids(ius@).contains(id),
{
    let mut i: usize = 0;
    while i < ius.len()
        invariant
            i <= ius@.len(),
            forall|k: int| 0 <= k < i ==> (#[trigger] ius@[k]).id != id,
        decreases ius@.len() - i,
    {
        if ius[i].id == id {
            assert(ius@[i as int].id == id);
            return true;
        }
        i = i + 1;
    }
    false
}

/// Copies of the references, in order.
pub fn dup_all(ius: &Vec<IURef>) -> (r: Vec<IURef>)
    ensures
        r@ == ius@,
{
    let mut r: Vec<IURef> = Vec::new();
    let mut i: usize = 0;
    while i < ius.len()
        invariant
            i <= ius@.len(),
            r@ == ius@.take(i as int),
        decreases ius@.len() - i,
    {
        r.push(ius[i].dup());
        i = i + 1;
        assert(r@ =~= ius@.take(i as int));
    }
    assert(ius@.take(ius@.len() as int) =~= ius@);
    r
}

/// The references are in order of their IUs' names.
pub open spec fn sorted_by_name(ius: Seq<IURef>) -> bool {
    forall|i: int, j: int|
        0 <= i < j < ius.len() ==> !chars_lt(#[trigger] ius[j].iu.name@, #[trigger] ius[i].iu.name@)
}

/// The references in order of their IUs' names; references with equal names
/// keep their order.
pub fn sort_by_name(ius: Vec<IURef>) -> (r: Vec<IURef>)
    ensures
        r@.to_multiset() == ius@.to_multiset(),
        sorted_by_name(r@),
{
    broadcast use vstd::multiset::group_multiset_axioms;

    let mut out: Vec<IURef> = Vec::new();
    let n = ius.len();
    let mut i: usize = 0;
    assert(ius@.take(0) =~= Seq::<IURef>::empty());
    while i < n
        invariant
            i <= n,
            n == ius@.len(),
            out@.to_multiset() == ius@.take(i as int).to_multiset(),
            sorted_by_name(out@),
        decreases n - i,
    {
        let x = ius[i].dup();
        let m = out.len();
        let mut p: usize = 0;
        while p < m && !str_lt(x.iu.name.as_str(), out[p].iu.name.as_str())
            invariant
                p <= m,
                m == out@.len(),
                forall|k: int| 0 <= k < p ==> !chars_lt(x.iu.name@, #[trigger] out@[k].iu.name@),
            decreases m - p,
        {
            p = p + 1;
        }
        let ghost old_out = out@;
        out.insert(p, x);
        proof {
            assert(p < m ==> chars_lt(x.iu.name@, old_out[p as int].iu.name@));
            assert forall|a: int, b: int| 0 <= a < b < out@.len() implies !chars_lt(
                #[trigger] out@[b].iu.name@,
                #[trigger] out@[a].iu.name@,
            ) by {
                if a < p && b == p {
                } else if a == p && b > p {
                    assert(out@[b] == old_out[b - 1]);
                    if chars_lt(out@[b].iu.name@, x.iu.name@) {
                        if b - 1 > p {
                            assert(!chars_lt(old_out[b - 1].iu.name@, old_out[p as int].iu.name@));
                        } else {
                            crate::util::strings::lemma_chars_lt_irrefl(old_out[p as int].iu.name@);
                        }
                        lemma_chars_lt_trans(out@[b].iu.name@, x.iu.name@, old_out[p as int].iu.name@);
                    }
                } else {
                    let a0 = if a < p { a } else { a - 1 };
                    let b0 = if b < p { b } else { b - 1 };
                    assert(out@[a] == old_out[a0]);
                    assert(out@[b] == old_out[b0]);
                }
            }
            assert(out@ =~= old_out.take(p as int) + seq![x] + old_out.skip(p as int));
            vstd::seq_lib::lemma_multiset_commutative(old_out.take(p as int) + seq![x], old_out.skip(p as int));
            vstd::seq_lib::lemma_multiset_commutative(old_out.take(p as int), seq![x]);
            vstd::seq_lib::lemma_multiset_commutative(old_out.take(p as int), old_out.skip(p as int));
            assert(old_out =~= old_out.take(p as int) + old_out.skip(p as int));
            assert(ius@.take(i + 1) =~= ius@.take(i as int) + seq![ius@[i as int]]);
            vstd::seq_lib::lemma_multiset_commutative(ius@.take(i as int), seq![ius@[i as int]]);
            assert(seq![x].to_multiset() =~= seq![ius@[i as int]].to_multiset());
        }
        i = i + 1;
    }
    assert(ius@.take(n as int) =~= ius@);
    out
}

} // verus!
