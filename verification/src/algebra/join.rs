//! The Join operator: combines the tuples of two inputs.

use vstd::prelude::*;

use crate::algebra::iu::IURef;
use crate::algebra::{Op, PlanError, TupleCtx, op_ius};
use crate::codegen::{Codegen, line_text};
use crate::parser::expr::{BinaryExpression, Expression};
use crate::util::decimal::{nat_to_decimal, push_u64};
use crate::util::strings::str_eq;

verus! {

/// How a join combines its inputs.
#[derive(Debug, Clone, Copy, PartialEq, Eq, Structural)]
pub enum JoinType {
    /// Every pair of tuples
    Cross,
    /// The pairs of tuples whose join predicates hold (a hash join)
    Inner,
}

/// Join operator: combines the tuples of its left (build) and right (probe) inputs.
#[derive(Debug)]
pub struct Join {
    /// Left child operator (build side of a hash join)
    pub left_child: Box<Op>,
    /// Right child operator (probe side of a hash join)
    pub right_child: Box<Op>,
    /// How the join combines its inputs
    pub join_type: JoinType,
    /// The equality predicates of an inner join
    pub join_predicates: Vec<BinaryExpression>,
}

impl Join {
    /// A cross join of the two children, with no predicate.
    pub fn new(left_child: Op, right_child: Op) -> (j: Self)
        ensures
            *j.left_child == left_child,
            *j.right_child == right_child,
            j.join_type == JoinType::Cross,
            j.join_predicates@.len() == 0,
    {
        Join {
            left_child: Box::new(left_child),
            right_child: Box::new(right_child),
            join_type: JoinType::Cross,
            join_predicates: Vec::new(),
        }
    }

    /// How the join combines its inputs.
    pub fn join_type(&self) -> (t: JoinType)
        ensures
            t == self.join_type,
    {
        self.join_type
    }

    /// Sets how the join combines its inputs.
    pub fn set_join_type(&mut self, join_type: JoinType)
        ensures
            final(self).join_type == join_type,
            *final(self).left_child == *old(self).left_child,
            *final(self).right_child == *old(self).right_child,
            final(self).join_predicates@ == old(self).join_predicates@,
    {
        self.join_type = join_type;
    }

    /// Adds a join predicate, which makes the join an inner join.
    pub fn add_join_predicate(&mut self, predicate: BinaryExpression)
        ensures
            final(self).join_predicates@ == old(self).join_predicates@.push(predicate),
            final(self).join_type == JoinType::Inner,
            *final(self).left_child == *old(self).left_child,
            *final(self).right_child == *old(self).right_child,
    {
        self.join_predicates.push(predicate);
        self.join_type = JoinType::Inner;
    }
}

/// The code of a join predicate's operand from the given side.
pub open spec fn join_key_code(pred: BinaryExpression, side: Set<u64>, ctx: TupleCtx) -> Option<
    Seq<char>,
> {
    match (pred.l, pred.r) {
        (Expression::IURef(a), Expression::IURef(b)) => if side.contains(a.id) {
            ctx.expr_of_spec(a.id)
        } else if side.contains(b.id) {
            ctx.expr_of_spec(b.id)
        } else {
            None
        },
        _ => None,
    }
}

/// The code that reads column `col` of the row of table `tbl` whose id is the
/// `idx`-th of the row ids in `joined`.
pub open spec fn row_id_access_text(joined: Seq<char>, idx: nat, tbl: Seq<char>, col: Seq<char>) -> Seq<
    char,
> {
    "RowView{ table: &"@ + tbl + ", row_id: "@ + "*"@ + joined + ".get("@ + nat_to_decimal(idx)
        + ").unwrap()"@ + " }"@ + ".get("@ + col + ").unwrap()"@
}

/// The code that reads the IU of an access entry through the joined row ids,
/// if the entry's table is among the tables.
pub open spec fn rebuilt_expr(joined: Seq<char>, tables: Seq<String>, entry: (IURef, (String, String))) -> Option<
    Seq<char>,
> {
    match first_position(tables, entry.1.0@) {
        Some(idx) => Some(row_id_access_text(joined, idx, entry.1.0@, entry.1.1@)),
        None => None,
    }
}

/// The first position of the text among the texts.
pub open spec fn first_position(texts: Seq<String>, t: Seq<char>) -> Option<nat>
    decreases texts.len(),
{
    if texts.len() == 0 {
        None
    } else if texts[0]@ == t {
        Some(0)
    } else {
        match first_position(texts.drop_first(), t) {
            Some(i) => Some(i + 1),
            None => None,
        }
    }
}

/// The first position of the text among the texts.
fn position_of(texts: &Vec<String>, t: &str) -> (r: Option<usize>)
    ensures
        match r {
            Some(i) => first_position(texts@, t@) == Some(i as nat),
            None => first_position(texts@, t@) is None,
        },
{
    let n = texts.len();
    let mut i: usize = 0;
    while i < n
        invariant
            i <= n,
            n == texts@.len(),
            forall|k: int| 0 <= k < i ==> (#[trigger] texts@[k])@ != t@,
        decreases n - i,
    {
        if str_eq(texts[i].as_str(), t) {
            proof {
                lemma_first_position_at(texts@, t@, i as int);
            }
            return Some(i);
        }
        i = i + 1;
    }
    proof {
        lemma_first_position_none(texts@, t@);
    }
    None
}

proof fn lemma_first_position_at(texts: Seq<String>, t: Seq<char>, i: int)
    requires
        0 <= i < texts.len(),
        texts[i]@ == t,
        forall|k: int| 0 <= k < i ==> (#[trigger] texts[k])@ != t,
    ensures
        first_position(texts, t) == Some(i as nat),
    decreases i,
{
    if i > 0 {
        lemma_first_position_at(texts.drop_first(), t, i - 1);
    }
}

proof fn lemma_first_position_none(texts: Seq<String>, t: Seq<char>)
    requires
        forall|k: int| 0 <= k < texts.len() ==> (#[trigger] texts[k])@ != t,
    ensures
        first_position(texts, t) is None,
    decreases texts.len(),
{
    if texts.len() > 0 {
        lemma_first_position_none(texts.drop_first(), t);
    }
}

/// Copies of the access entries, in order.
pub fn dup_access(a: &Vec<(IURef, (String, String))>) -> (r: Vec<(IURef, (String, String))>)
    ensures
        r@ == a@,
{
    let mut r: Vec<(IURef, (String, String))> = Vec::new();
    let mut i: usize = 0;
    while i < a.len()
        invariant
            i <= a@.len(),
            r@ == a@.take(i as int),
        decreases a@.len() - i,
    {
        let e = &a[i];
        r.push((e.0.dup(), (e.1.0.clone(), e.1.1.clone())));
        i = i + 1;
        assert(r@ =~= a@.take(i as int));
    }
    assert(a@.take(a@.len() as int) =~= a@);
    r
}

/// Copies of the texts, in order.
pub fn dup_strings(a: &Vec<String>) -> (r: Vec<String>)
    ensures
        r@ == a@,
{
    let mut r: Vec<String> = Vec::new();
    let mut i: usize = 0;
    while i < a.len()
        invariant
            i <= a@.len(),
            r@ == a@.take(i as int),
        decreases a@.len() - i,
    {
        r.push(a[i].clone());
        i = i + 1;
        assert(r@ =~= a@.take(i as int));
    }
    assert(a@.take(a@.len() as int) =~= a@);
    r
}

impl Join {
    /// The code of each join predicate's operand from the build (left) side or
    /// the probe (right) side.
    pub fn key_exprs_from_ctx(&self, ctx: &TupleCtx, build_side: bool) -> (r: Result<
        Vec<String>,
        PlanError,
    >)
        ensures
            match r {
                Ok(v) => {
                    &&& v@.len() == self.join_predicates@.len()
                    &&& forall|i: int|
                        0 <= i < v@.len() ==> join_key_code(
                            self.join_predicates@[i],
                            if build_side {
                                op_ius(*self.left_child)
                            } else {
                                op_ius(*self.right_child)
                            },
                            *ctx,
                        ) == Some((#[trigger] v@[i])@)
                },
                Err(_) => exists|i: int|
                    0 <= i < self.join_predicates@.len() && join_key_code(
                        #[trigger] self.join_predicates@[i],
                        if build_side {
                            op_ius(*self.left_child)
                        } else {
                            op_ius(*self.right_child)
                        },
                        *ctx,
                    ) is None,
            },
    {
        let ghost side = if build_side {
            op_ius(*self.left_child)
        } else {
            op_ius(*self.right_child)
        };
        let side_ius = if build_side {
            self.left_child.ius()
        } else {
            self.right_child.ius()
        };
        let n = self.join_predicates.len();
        let mut res: Vec<String> = Vec::new();
        let mut i: usize = 0;
        while i < n
            invariant
                i <= n,
                n == self.join_predicates@.len(),
                crate::algebra::iu::iu_ids(side_ius@) == side,
                side == if build_side {
                    op_ius(*self.left_child)
                } else {
                    op_ius(*self.right_child)
                },
                res@.len() == i,
                forall|k: int|
                    0 <= k < i ==> join_key_code(self.join_predicates@[k], side, *ctx) == Some(
                        (#[trigger] res@[k])@,
                    ),
            decreases n - i,
        {
            let pred = &self.join_predicates[i];
            let code = match (&pred.l, &pred.r) {
                (Expression::IURef(a), Expression::IURef(b)) => {
                    let id = if crate::algebra::iu::contains_iu(&side_ius, a.id) {
                        a.id
                    } else if crate::algebra::iu::contains_iu(&side_ius, b.id) {
                        b.id
                    } else {
                        assert(join_key_code(self.join_predicates@[i as int], side, *ctx) is None);
                        return Err(PlanError::NoJoinKey);
                    };
                    match ctx.expr_of(id) {
                        Some(c) => c,
                        None => {
                            assert(join_key_code(self.join_predicates@[i as int], side, *ctx) is None);
                            return Err(PlanError::NoJoinKey);
                        },
                    }
                },
                _ => {
                    assert(join_key_code(self.join_predicates@[i as int], side, *ctx) is None);
                    return Err(PlanError::NoJoinKey);
                },
            };
            res.push(code);
            i = i + 1;
        }
        Ok(res)
    }

    /// Writes the line that concatenates the row ids of the left and the
    /// right tuple into `out_var`.
    pub fn emit_row_ids_concat(&self, codegen: &mut Codegen, out_var: &str, left_expr: &str, right_expr: &str)
        ensures
            final(codegen).appended(
                old(codegen),
                line_text(
                    old(codegen).indent as nat,
                    "let "@ + out_var@ + ": Vec<usize> = { let mut tmp: Vec<usize> = "@ + left_expr@
                        + ".clone(); tmp.extend("@ + right_expr@ + ".iter().copied()); tmp };"@,
                ),
            ),
    {
        let mut l = String::from_str("let ");
        l.append(out_var);
        l.append(": Vec<usize> = { let mut tmp: Vec<usize> = ");
        l.append(left_expr);
        l.append(".clone(); tmp.extend(");
        l.append(right_expr);
        l.append(".iter().copied()); tmp };");
        codegen.line(l.as_str());
    }

    /// A tuple whose IUs are all read back through the joined row ids: each IU
    /// is read from the row of its table whose id stands at that table's
    /// position among the row ids.
    pub fn rebuild_ctx_from_row_ids(
        &self,
        joined_ids_var: &str,
        merged_tables: &Vec<String>,
        merged_access: &Vec<(IURef, (String, String))>,
    ) -> (r: Result<TupleCtx, PlanError>)
        ensures
            match r {
                Ok(c) => {
                    &&& c.access@ == merged_access@
                    &&& c.row_ids_expr@ == joined_ids_var@
                    &&& c.row_id_tables@ == merged_tables@
                    &&& c.exprs@.len() == merged_access@.len()
                    &&& forall|i: int|
                        0 <= i < c.exprs@.len() ==> {
                            &&& (#[trigger] c.exprs@[i]).0 == merged_access@[i].0
                            &&& rebuilt_expr(joined_ids_var@, merged_tables@, merged_access@[i]) == Some(
                                c.exprs@[i].1@,
                            )
                        }
                },
                Err(_) => exists|i: int|
                    0 <= i < merged_access@.len() && first_position(
                        merged_tables@,
                        (#[trigger] merged_access@[i]).1.0@,
                    ) is None,
            },
    {
        let n = merged_access.len();
        let mut exprs: Vec<(IURef, String)> = Vec::new();
        let mut i: usize = 0;
        while i < n
            invariant
                i <= n,
                n == merged_access@.len(),
                exprs@.len() == i,
                forall|k: int|
                    0 <= k < i ==> {
                        &&& (#[trigger] exprs@[k]).0 == merged_access@[k].0
                        &&& rebuilt_expr(joined_ids_var@, merged_tables@, merged_access@[k]) == Some(
                            exprs@[k].1@,
                        )
                    },
            decreases n - i,
        {
            let entry = &merged_access[i];
            let tbl_var = &entry.1.0;
            let col_var = &entry.1.1;
            let idx = match position_of(merged_tables, tbl_var.as_str()) {
                Some(x) => x,
                None => {
                    assert(first_position(merged_tables@, merged_access@[i as int].1.0@) is None);
                    return Err(PlanError::UnknownTableVar(tbl_var.clone()));
                },
            };
            let mut e = String::from_str("RowView{ table: &");
            e.append(tbl_var.as_str());
            e.append(", row_id: ");
            e.append("*");
            e.append(joined_ids_var);
            e.append(".get(");
            push_u64(&mut e, idx as u64);
            e.append(").unwrap()");
            e.append(" }");
            e.append(".get(");
            e.append(col_var.as_str());
            e.append(").unwrap()");
            assert(e@ =~= row_id_access_text(joined_ids_var@, idx as nat, tbl_var@, col_var@));
            exprs.push((entry.0.dup(), e));
            i = i + 1;
        }
        Ok(
            TupleCtx {
                exprs,
                access: dup_access(merged_access),
                row_ids_expr: String::from_str(joined_ids_var),
                row_id_tables: dup_strings(merged_tables),
            },
        )
    }
}

} // verus!
