//! Relational algebra: the operators of query plans, predicate pushdown and
//! the generation of code for plans.

pub mod iu;
pub mod join;
pub mod pipeline;
pub mod print;
pub mod scan;
pub mod select;

use vstd::prelude::*;

use vstd::multiset::Multiset;

use crate::algebra::iu::{IURef, iu_ids};
use crate::algebra::join::Join;
use crate::algebra::print::Print;
use crate::algebra::scan::TableScan;
use crate::algebra::select::Select;
use crate::parser::expr::{BinaryExpression, Expression};
use crate::types::Tag;

verus! {

/// What the operators above a tuple know of it: for every IU, the code that
/// refers to its value, and the table and column variables it is read from.
#[derive(Debug)]
pub struct TupleCtx {
    /// For every IU, the code of its value
    pub exprs: Vec<(IURef, String)>,
    /// For every IU, the table variable and the column variable it is read with
    pub access: Vec<(IURef, (String, String))>,
    /// The variable that holds the tuple's row ids
    pub row_ids_expr: String,
    /// The table variable of each row id, in order
    pub row_id_tables: Vec<String>,
}

/// The code recorded for the first entry with the given IU identity.
pub open spec fn first_code(entries: Seq<(IURef, String)>, id: u64) -> Option<Seq<char>>
    decreases entries.len(),
{
    if entries.len() == 0 {
        None
    } else if entries[0].0.id == id {
        Some(entries[0].1@)
    } else {
        first_code(entries.drop_first(), id)
    }
}

impl TupleCtx {
    /// The code of the IU with the given identity, if the tuple holds it.
    pub open spec fn expr_of_spec(&self, id: u64) -> Option<Seq<char>> {
        first_code(self.exprs@, id)
    }

    /// The code of the IU with the given identity, if the tuple holds it.
    pub fn expr_of(&self, id: u64) -> (r: Option<String>)
        ensures
            match r {
                Some(c) => self.expr_of_spec(id) == Some(c@),
                None => self.expr_of_spec(id) is None,
            },
    {
        let n = self.exprs.len();
        let mut i: usize = 0;
        assert(self.exprs@.skip(0) =~= self.exprs@);
        while i < n
            invariant
                i <= n,
                n == self.exprs@.len(),
                first_code(self.exprs@, id) == first_code(self.exprs@.skip(i as int), id),
            decreases n - i,
        {
            assert(self.exprs@.skip(i as int).drop_first() =~= self.exprs@.skip(i + 1));
            if self.exprs[i].0.id == id {
                return Some(self.exprs[i].1.clone());
            }
            i = i + 1;
        }
        None
    }
}

/// An operator of a query plan; each operator owns its children.
#[derive(Debug)]
pub enum Op {
    /// Join operator combining two inputs
    Join(Join),
    /// Print operator at the root of a plan
    Print(Print),
    /// Select operator filtering rows
    Select(Select),
    /// TableScan operator reading a base table
    TableScan(TableScan),
}

/// Why code could not be generated for a plan.
#[derive(Debug)]
pub enum PlanError {
    /// The tuple holds no IU of that name
    UnknownIU(String),
    /// The constant is no value of the column's type
    LiteralMismatch {
        /// The column's name
        column: String,
        /// The column's type
        tag: Tag,
        /// The constant
        literal: String,
    },
    /// A join predicate has no column of the side whose key is asked for
    NoJoinKey,
    /// The tuple holds no table of that variable
    UnknownTableVar(String),
    /// The probe side came before the build side recorded its tuples' layout
    NoBuildTemplate,
    /// A predicate operand whose code cannot be generated (a subquery, a
    /// nested expression or an unresolved column)
    UnsupportedExpression,
}

/// Optimizer passes over a plan.
#[derive(Debug, Clone, Copy, PartialEq, Eq, Structural)]
pub enum OptimizerPass {
    /// Move selections as far down the joins as their columns allow
    PredicatePushdown,
}

/// The IUs that an expression refers to.
pub open spec fn expr_ius(e: Expression) -> Set<u64>
    decreases e,
{
    match e {
        Expression::IURef(iu) => set![iu.id],
        Expression::BinaryExpr(b) => expr_ius(b.l).union(expr_ius(b.r)),
        _ => Set::empty(),
    }
}

/// The IUs that a predicate refers to.
pub open spec fn pred_ius(b: BinaryExpression) -> Set<u64> {
    expr_ius(b.l).union(expr_ius(b.r))
}

/// The IUs that an operator provides: those of its scans (for a print, the
/// IUs it prints).
pub open spec fn op_ius(op: Op) -> Set<u64>
    decreases op,
{
    match op {
        Op::Join(j) => op_ius(*j.left_child).union(op_ius(*j.right_child)),
        Op::Print(p) => iu_ids(p.iu_refs_set@),
        Op::Select(s) => op_ius(*s.child),
        Op::TableScan(t) => iu_ids(t.iu_refs_set@),
    }
}

/// The table scans of a plan, from left to right.
pub open spec fn op_scans(op: Op) -> Seq<TableScan>
    decreases op,
{
    match op {
        Op::Join(j) => op_scans(*j.left_child) + op_scans(*j.right_child),
        Op::Print(p) => op_scans(*p.child),
        Op::Select(s) => op_scans(*s.child),
        Op::TableScan(t) => seq![t],
    }
}

/// The predicates of a plan: those of its selections and of its joins.
pub open spec fn op_preds(op: Op) -> Multiset<BinaryExpression>
    decreases op,
{
    match op {
        Op::Join(j) => op_preds(*j.left_child).add(op_preds(*j.right_child)).add(
            j.join_predicates@.to_multiset(),
        ),
        Op::Print(p) => op_preds(*p.child),
        Op::Select(s) => op_preds(*s.child).insert(s.binary_exp),
        Op::TableScan(_) => Multiset::empty(),
    }
}

/// The size of a plan: one for a scan, two for a selection or a print, three
/// for a join, plus the sizes of the children.
pub open spec fn op_size(op: Op) -> nat
    decreases op,
{
    match op {
        Op::Join(j) => op_size(*j.left_child) + op_size(*j.right_child) + 3,
        Op::Print(p) => op_size(*p.child) + 2,
        Op::Select(s) => op_size(*s.child) + 2,
        Op::TableScan(_) => 1,
    }
}

/// Pushdown is done: no selection whose predicate refers to a column sits
/// directly on a join; each has gone into a join or below it.
pub open spec fn pushed(op: Op) -> bool
    decreases op,
{
    match op {
        Op::Join(j) => pushed(*j.left_child) && pushed(*j.right_child),
        Op::Print(p) => pushed(*p.child),
        Op::Select(s) => pushed(*s.child) && (pred_ius(s.binary_exp) != Set::<u64>::empty() ==> !(*s.child is Join)),
        Op::TableScan(_) => true,
    }
}

/// The plan holds no print operator.
pub open spec fn print_free(op: Op) -> bool
    decreases op,
{
    match op {
        Op::Join(j) => print_free(*j.left_child) && print_free(*j.right_child),
        Op::Print(_) => false,
        Op::Select(s) => print_free(*s.child),
        Op::TableScan(_) => true,
    }
}

/// Every predicate refers only to IUs provided below it.
pub open spec fn op_scoped(op: Op) -> bool
    decreases op,
{
    match op {
        Op::Join(j) => {
            &&& op_scoped(*j.left_child)
            &&& op_scoped(*j.right_child)
            &&& forall|i: int|
                0 <= i < j.join_predicates@.len() ==> pred_ius(#[trigger] j.join_predicates@[i]).subset_of(
                    op_ius(*j.left_child).union(op_ius(*j.right_child)),
                )
        },
        Op::Print(p) => op_scoped(*p.child),
        Op::Select(s) => op_scoped(*s.child) && pred_ius(s.binary_exp).subset_of(op_ius(*s.child)),
        Op::TableScan(_) => true,
    }
}

impl Op {
    /// The IUs that the operator provides.
    pub fn ius(&self) -> (r: Vec<IURef>)
        ensures
            iu_ids(r@) == op_ius(*self),
        decreases *self,
    {
        match self {
            Op::Join(j) => {
                let mut l = j.left_child.ius();
                let mut rr = j.right_child.ius();
                let ghost a = l@;
                let ghost b = rr@;
                l.append(&mut rr);
                proof {
                    assert(iu_ids(l@) =~= iu_ids(a).union(iu_ids(b))) by {
                        assert forall|id: u64| iu_ids(a).contains(id) implies iu_ids(l@).contains(id) by {
                            let i = choose|i: int| 0 <= i < a.len() && (#[trigger] a[i]).id == id;
                            assert(l@[i] == a[i]);
                        }
                        assert forall|id: u64| iu_ids(b).contains(id) implies iu_ids(l@).contains(id) by {
                            let i = choose|i: int| 0 <= i < b.len() && (#[trigger] b[i]).id == id;
                            assert(l@[a.len() + i] == b[i]);
                        }
                        assert forall|id: u64| iu_ids(l@).contains(id) implies iu_ids(a).union(
                            iu_ids(b),
                        ).contains(id) by {
                            let i = choose|i: int| 0 <= i < l@.len() && (#[trigger] l@[i]).id == id;
                            if i < a.len() {
                                assert(a[i] == l@[i]);
                            } else {
                                assert(b[i - a.len()] == l@[i]);
                            }
                        }
                    }
                }
                l
            },
            Op::Print(p) => crate::algebra::iu::dup_all(&p.iu_refs_set),
            Op::Select(s) => s.child.ius(),
            Op::TableScan(t) => crate::algebra::iu::dup_all(&t.iu_refs_set),
        }
    }
}

impl Op {
    /// The weight `op_size` gives the plan (three for a join, two for a print
    /// or a selection, one for a scan, summed over the tree), or `usize::MAX`
    /// where that does not fit.
    pub fn size(&self) -> (n: usize)
        ensures
            n == (if op_size(*self) < usize::MAX {
                op_size(*self) as usize
            } else {
                usize::MAX
            }),
        decreases self,
    {
        match self {
            Op::Join(j) => j.left_child.size().saturating_add(j.right_child.size()).saturating_add(3),
            Op::Print(p) => p.child.size().saturating_add(2),
            Op::Select(s) => s.child.size().saturating_add(2),
            Op::TableScan(_) => 1,
        }
    }

    /// Runs an optimizer pass over the plan: predicate pushdown moves every
    /// selection below the joins under it as far as its IUs allow. The scans,
    /// the predicates and the IUs of the plan stay the same.
    pub fn optimize(self) -> (r: Op)
        ensures
            op_scans(r) == op_scans(self),
            op_preds(r) == op_preds(self),
            op_ius(r) == op_ius(self),
            op_size(r) <= op_size(self),
            op_scoped(self) ==> op_scoped(r),
            print_free(self) ==> print_free(r),
            self is Print && print_free(*self->Print_0.child) ==> r is Print && print_free(
                *r->Print_0.child,
            ),
            pushed(r),
            pushed(self) ==> r == self,
        decreases op_size(self), 2nat,
    {
        let ghost orig = self;
        match self {
            Op::Join(j) => {
                let Join { left_child, right_child, join_type, join_predicates } = j;
                let l = (*left_child).optimize();
                let rc = (*right_child).optimize();
                let r = Op::Join(Join { left_child: Box::new(l), right_child: Box::new(rc), join_type, join_predicates });
                proof {
                    assert(op_ius(r) =~= op_ius(orig));
                }
                r
            },
            Op::Print(p) => {
                let Print { child, iu_refs_set, iu_refs_vec } = p;
                let c = (*child).optimize();
                Op::Print(Print { child: Box::new(c), iu_refs_set, iu_refs_vec })
            },
            Op::Select(s) => s.optimize(),
            Op::TableScan(t) => Op::TableScan(t),
        }
    }
}

} // verus!
