//! The SELECT statement.

use vstd::prelude::*;

use crate::algebra::scan::TableScan;
use crate::algebra::{Op, PlanError, op_ius, op_preds, op_scans, op_size, op_scoped, print_free, pushed};
use crate::algebra::pipeline::{plan_ok, print_head, print_tail, stack_ready, text_framed};
use crate::algebra::iu::iu_ids;
use crate::codegen::Codegen;

verus! {

/// An executable SELECT statement: a plan under a print root, and the code
/// generated for it.
#[derive(Debug)]
pub struct SelectStatement {
    /// The query plan
    pub op: Op,
    /// The code generated for the plan by `prepare`
    pub generated_code: String,
}

impl SelectStatement {
    /// A statement that runs the plan.
    pub fn new(op: Op) -> (s: Self)
        ensures
            s.op == op,
            s.generated_code@.len() == 0,
    {
        Self { op, generated_code: String::new() }
    }

    /// Prepares the statement: optimizes the plan by predicate pushdown and
    /// generates the code of the query function for it.
    pub fn prepare(&mut self) -> (r: Result<(), PlanError>)
        requires
            2 * op_size(old(self).op) + 2 < usize::MAX,
            old(self).op is Print,
            print_free(*old(self).op->Print_0.child),
        ensures
            op_scans(final(self).op) == op_scans(old(self).op),
            op_preds(final(self).op) == op_preds(old(self).op),
            op_scoped(old(self).op) ==> op_scoped(final(self).op),
            final(self).op is Print,
            pushed(final(self).op),
            r is Ok ==> text_framed(final(self).generated_code@, Seq::empty(), print_head(0), print_tail(0)),
            r is Err ==> final(self).generated_code@ == old(self).generated_code@,
            plan_ok(*final(self).op->Print_0.child) && iu_ids(final(self).op->Print_0.iu_refs_vec@).subset_of(
                op_ius(*final(self).op->Print_0.child),
            ) ==> r is Ok,
    {
        let mut op = Op::TableScan(TableScan::new());
        std::mem::swap(&mut op, &mut self.op);
        let op = op.optimize();
        let r = match &op {
            Op::Print(p) => {
                let mut cg = Codegen::new();
                let mut conts = Vec::new();
                let mut templates = Vec::new();
                assert(cg.target_text() =~= Seq::<char>::empty());
                assert(stack_ready(conts@, templates@));
                match p.produce(&mut cg, &mut conts, &mut templates) {
                    Ok(()) => {
                        self.generated_code = String::from_str(cg.text());
                        Ok(())
                    },
                    Err(e) => Err(e),
                }
            },
            _ => Ok(()),
        };
        self.op = op;
        r
    }
}

} // verus!
