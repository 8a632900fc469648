//! The Select operator: filters tuples by a predicate, and predicate pushdown.

use vstd::prelude::*;

use crate::algebra::iu::{IURef, contains_iu, iu_ids};
use crate::algebra::join::{Join, JoinType};
use crate::algebra::{
    Op, PlanError, TupleCtx, expr_ius, op_ius, op_preds, op_scans, op_scoped, op_size, pred_ius,
    print_free, pushed,
};
use crate::types::{Tag, is_text_tag};
use crate::util::decimal::{i64_to_string, int_to_decimal, parse_i32, parse_i64, spec_parse_int};
use crate::util::strings::{spec_trim, str_eq, trim};
use crate::parser::expr::{BinaryExpression, BinaryOperator, Expression, produce_text, producible};

verus! {

/// Selection operator: keeps the tuples on which the predicate holds.
#[derive(Debug)]
pub struct Select {
    /// Child operator providing tuples
    pub child: Box<Op>,
    /// Predicate expression
    pub binary_exp: BinaryExpression,
}

/// Where predicate pushdown puts a selection's predicate.
#[derive(Debug)]
pub enum PushTarget {
    /// Make the predicate a predicate of the join reached by following the path
    ConvertToJoin {
        /// The sides taken from the start, `true` for left
        path: Vec<bool>,
    },
    /// Put a selection on the `on_left` child of the join reached by following the path
    InsertAt {
        /// The sides taken from the start, `true` for left
        path: Vec<bool>,
        /// The side of the child that the selection goes above
        on_left: bool,
    },
}

/// The content of a push target.
pub ghost enum PushTargetModel {
    ConvertToJoin(Seq<bool>),
    InsertAt(Seq<bool>, bool),
}

impl PushTarget {
    /// The content of the push target.
    pub open spec fn model(&self) -> PushTargetModel {
        match self {
            PushTarget::ConvertToJoin { path } => PushTargetModel::ConvertToJoin(path@),
            PushTarget::InsertAt { path, on_left } => PushTargetModel::InsertAt(path@, *on_left),
        }
    }
}

/// The child of a join on the given side.
pub open spec fn side_child(j: Join, left: bool) -> Op {
    if left {
        *j.left_child
    } else {
        *j.right_child
    }
}

/// Where the predicate with the IUs `s` goes, starting at `op`: down a join
/// into the only side that provides all of them, for as long as that side is
/// a join; into the join where both or neither side does.
pub open spec fn push_target(op: Op, s: Set<u64>) -> Option<PushTargetModel>
    decreases op,
{
    match op {
        Op::Join(j) => {
            let in_left = s.subset_of(op_ius(*j.left_child));
            let in_right = s.subset_of(op_ius(*j.right_child));
            if in_left != in_right {
                match push_target(side_child(j, in_left), s) {
                    Some(PushTargetModel::ConvertToJoin(p)) => Some(
                        PushTargetModel::ConvertToJoin(seq![in_left] + p),
                    ),
                    Some(PushTargetModel::InsertAt(p, side)) => Some(
                        PushTargetModel::InsertAt(seq![in_left] + p, side),
                    ),
                    None => Some(PushTargetModel::InsertAt(Seq::empty(), in_left)),
                }
            } else {
                Some(PushTargetModel::ConvertToJoin(Seq::empty()))
            }
        },
        _ => None,
    }
}

/// The path leads from `op` through joins, each step into a side that
/// provides all of the IUs `s`, to a join.
pub open spec fn push_path_ok(op: Op, path: Seq<bool>, s: Set<u64>) -> bool
    decreases path.len(),
{
    match op {
        Op::Join(j) => if path.len() == 0 {
            true
        } else {
            &&& s.subset_of(op_ius(side_child(j, path[0])))
            &&& push_path_ok(side_child(j, path[0]), path.drop_first(), s)
        },
        _ => false,
    }
}

/// The join at the end of a path from `op`.
pub open spec fn join_at(op: Op, path: Seq<bool>) -> Join
    decreases path.len(),
{
    match op {
        Op::Join(j) => if path.len() == 0 {
            j
        } else {
            join_at(side_child(j, path[0]), path.drop_first())
        },
        _ => arbitrary(),
    }
}

/// Where push target leads, the path is sound, and an inserted selection's
/// child provides the predicate's IUs and is no join.
pub proof fn lemma_push_target_ok(op: Op, s: Set<u64>)
    ensures
        match push_target(op, s) {
            Some(PushTargetModel::ConvertToJoin(p)) => push_path_ok(op, p, s),
            Some(PushTargetModel::InsertAt(p, side)) => {
                &&& push_path_ok(op, p, s)
                &&& s.subset_of(op_ius(side_child(join_at(op, p), side)))
                &&& !(side_child(join_at(op, p), side) is Join)
            },
            None => !(op is Join),
        },
    decreases op,
{
    match op {
        Op::Join(j) => {
            let in_left = s.subset_of(op_ius(*j.left_child));
            let in_right = s.subset_of(op_ius(*j.right_child));
            if in_left != in_right {
                let c = side_child(j, in_left);
                lemma_push_target_ok(c, s);
                match push_target(c, s) {
                    Some(PushTargetModel::ConvertToJoin(p)) => {
                        assert((seq![in_left] + p).drop_first() =~= p);
                    },
                    Some(PushTargetModel::InsertAt(p, side)) => {
                        assert((seq![in_left] + p).drop_first() =~= p);
                    },
                    None => {},
                }
            }
        },
        _ => {},
    }
}

/// A push target whose path is not empty goes into the side that its first
/// step names, and the rest of the path is the target found from there.
proof fn lemma_push_target_step(op: Op, path: Seq<bool>, s: Set<u64>)
    requires
        path.len() > 0,
        push_target(op, s) == Some(PushTargetModel::ConvertToJoin(path)) || exists|side: bool|
            push_target(op, s) == Some(PushTargetModel::InsertAt(path, side)),
    ensures
        op is Join,
        s.subset_of(op_ius(side_child(op->Join_0, path[0]))) != s.subset_of(
            op_ius(side_child(op->Join_0, !path[0])),
        ),
        push_target(op, s) == Some(PushTargetModel::ConvertToJoin(path)) ==> push_target(
            side_child(op->Join_0, path[0]),
            s,
        ) == Some(PushTargetModel::ConvertToJoin(path.drop_first())),
        forall|side: bool|
            push_target(op, s) == Some(PushTargetModel::InsertAt(path, side)) ==> push_target(
                #[trigger] side_child(op->Join_0, path[0]),
                s,
            ) == Some(PushTargetModel::InsertAt(path.drop_first(), side)),
{
    match op {
        Op::Join(j) => {
            let in_left = s.subset_of(op_ius(*j.left_child));
            let in_right = s.subset_of(op_ius(*j.right_child));
            if in_left != in_right {
                match push_target(side_child(j, in_left), s) {
                    Some(PushTargetModel::ConvertToJoin(p)) => {
                        assert((seq![in_left] + p)[0] == in_left);
                        assert((seq![in_left] + p).drop_first() =~= p);
                    },
                    Some(PushTargetModel::InsertAt(p, side)) => {
                        assert((seq![in_left] + p)[0] == in_left);
                        assert((seq![in_left] + p).drop_first() =~= p);
                    },
                    None => {},
                }
            }
        },
        _ => {},
    }
}

/// Do all the IUs of `a` occur among those of `b`?
fn all_ius_in(a: &Vec<IURef>, b: &Vec<IURef>) -> (r: bool)
    ensures
        r == iu_ids(a@).subset_of(iu_ids(b@)),
{
    let mut i: usize = 0;
    while i < a.len()
        invariant
            i <= a@.len(),
            forall|k: int| 0 <= k < i ==> iu_ids(b@).contains(#[trigger] a@[k].id),
        decreases a@.len() - i,
    {
        if !contains_iu(b, a[i].id) {
            assert(iu_ids(a@).contains(a@[i as int].id));
            return false;
        }
        i = i + 1;
    }
    proof {
        assert forall|id: u64| iu_ids(a@).contains(id) implies iu_ids(b@).contains(id) by {
            let k = choose|k: int| 0 <= k < a@.len() && (#[trigger] a@[k]).id == id;
        }
    }
    true
}

impl Select {
    /// A selection of the child's tuples by the predicate.
    pub fn new(child: Op, binary_expression: BinaryExpression) -> (s: Self)
        ensures
            *s.child == child,
            s.binary_exp == binary_expression,
    {
        Select { child: Box::new(child), binary_exp: binary_expression }
    }

    /// Adds the IUs that the expression refers to.
    pub fn collect_ius_from_expr(expr: &Expression, out: &mut Vec<IURef>)
        ensures
            iu_ids(final(out)@) == iu_ids(old(out)@).union(expr_ius(*expr)),
        decreases *expr,
    {
        match expr {
            Expression::IURef(iu) => {
                let ghost before = out@;
                out.push(iu.dup());
                proof {
                    assert(iu_ids(out@) =~= iu_ids(before).union(set![iu.id])) by {
                        assert(out@[before.len() as int].id == iu.id);
                        assert forall|id: u64| iu_ids(before).contains(id) implies iu_ids(out@).contains(id) by {
                            let k = choose|k: int| 0 <= k < before.len() && (#[trigger] before[k]).id == id;
                            assert(out@[k] == before[k]);
                        }
                        assert forall|id: u64| iu_ids(out@).contains(id) implies iu_ids(before).union(set![iu.id]).contains(id) by {
                            let k = choose|k: int| 0 <= k < out@.len() && (#[trigger] out@[k]).id == id;
                            if k < before.len() {
                                assert(before[k] == out@[k]);
                            }
                        }
                    }
                }
            },
            Expression::BinaryExpr(b) => {
                Self::collect_ius_from_expr(&b.l, out);
                Self::collect_ius_from_expr(&b.r, out);
                assert(iu_ids(out@) =~= iu_ids(old(out)@).union(expr_ius(*expr)));
            },
            _ => {
                assert(iu_ids(out@) =~= iu_ids(old(out)@).union(expr_ius(*expr)));
            },
        }
    }

    /// The IUs that a predicate refers to.
    pub fn binary_ius(b: &BinaryExpression) -> (r: Vec<IURef>)
        ensures
            iu_ids(r@) == pred_ius(*b),
    {
        let mut set: Vec<IURef> = Vec::new();
        assert(iu_ids(set@) =~= Set::<u64>::empty());
        Self::collect_ius_from_expr(&b.l, &mut set);
        Self::collect_ius_from_expr(&b.r, &mut set);
        assert(iu_ids(set@) =~= pred_ius(*b));
        set
    }

    /// The IUs that the selection's predicate refers to.
    pub fn predicate_ius(&self) -> (r: Vec<IURef>)
        ensures
            iu_ids(r@) == pred_ius(self.binary_exp),
    {
        Self::binary_ius(&self.binary_exp)
    }

    /// Where predicate pushdown puts a predicate with the given IUs, starting
    /// at the operator below the selection; `None` where that is no join.
    pub fn find_push_target(start: &Op, pred_ius: &Vec<IURef>) -> (r: Option<PushTarget>)
        ensures
            match r {
                Some(t) => push_target(*start, iu_ids(pred_ius@)) == Some(t.model()),
                None => push_target(*start, iu_ids(pred_ius@)) is None,
            },
        decreases *start,
    {
        match start {
            Op::Join(join) => {
                let left_ius = join.left_child.ius();
                let right_ius = join.right_child.ius();
                let in_left = all_ius_in(pred_ius, &left_ius);
                let in_right = all_ius_in(pred_ius, &right_ius);
                if in_left != in_right {
                    let next: &Op = if in_left {
                        &join.left_child
                    } else {
                        &join.right_child
                    };
                    assert(*next == side_child(*join, in_left));
                    match Self::find_push_target(next, pred_ius) {
                        Some(PushTarget::ConvertToJoin { path }) => {
                            let ghost p0 = path@;
                            let mut p = path;
                            p.insert(0, in_left);
                            assert(p@ =~= seq![in_left] + p0);
                            Some(PushTarget::ConvertToJoin { path: p })
                        },
                        Some(PushTarget::InsertAt { path, on_left }) => {
                            let ghost p0 = path@;
                            let mut p = path;
                            p.insert(0, in_left);
                            assert(p@ =~= seq![in_left] + p0);
                            Some(PushTarget::InsertAt { path: p, on_left })
                        },
                        None => Some(PushTarget::InsertAt { path: Vec::new(), on_left: in_left }),
                    }
                } else {
                    Some(PushTarget::ConvertToJoin { path: Vec::new() })
                }
            },
            _ => None,
        }
    }
}

/// Every plan has at least one operator.
pub proof fn lemma_op_size_pos(op: Op)
    ensures
        op_size(op) >= 1,
{
}

/// Makes the predicate a predicate of the join at the end of the path
/// (from position `idx` on), which becomes an inner join.
fn convert_at(op: Op, path: &Vec<bool>, idx: usize, pred: BinaryExpression) -> (r: Op)
    requires
        idx <= path@.len(),
        push_path_ok(op, path@.skip(idx as int), pred_ius(pred)),
        push_target(op, pred_ius(pred)) == Some(PushTargetModel::ConvertToJoin(path@.skip(idx as int))),
    ensures
        op_scans(r) == op_scans(op),
        op_preds(r) == op_preds(op).insert(pred),
        op_ius(r) == op_ius(op),
        op_size(r) == op_size(op),
        op_scoped(op) && pred_ius(pred).subset_of(op_ius(op)) ==> op_scoped(r),
        print_free(op) ==> print_free(r),
        pushed(op) ==> pushed(r),
        r is Join,
        push_target(r, pred_ius(pred)) == push_target(op, pred_ius(pred)),
        join_at(r, path@.skip(idx as int)).join_type == JoinType::Inner,
        join_at(r, path@.skip(idx as int)).join_predicates@.len() > 0,
        join_at(r, path@.skip(idx as int)).join_predicates@.last() == pred,
    decreases path@.len() - idx,
{
    match op {
        Op::Join(j) => {
            let ghost jp = j.join_predicates@;
            let Join { left_child, right_child, join_type, join_predicates } = j;
            if idx == path.len() {
                let mut j2 = Join { left_child, right_child, join_type, join_predicates };
                j2.add_join_predicate(pred);
                proof {
                    jp.to_multiset_ensures();
                    broadcast use vstd::multiset::group_multiset_axioms;
                    assert(op_preds(Op::Join(j2)) =~= op_preds(op).insert(pred));
                    if op_scoped(op) && pred_ius(pred).subset_of(op_ius(op)) {
                        assert forall|i: int| 0 <= i < j2.join_predicates@.len() implies pred_ius(
                            #[trigger] j2.join_predicates@[i],
                        ).subset_of(op_ius(*j2.left_child).union(op_ius(*j2.right_child))) by {
                            if i < jp.len() {
                                assert(j2.join_predicates@[i] == jp[i]);
                            }
                        }
                    }
                }
                Op::Join(j2)
            } else {
                let go_left = path[idx];
                proof {
                    assert(path@.skip(idx as int)[0] == go_left);
                    assert(path@.skip(idx as int).drop_first() =~= path@.skip(idx + 1));
                    lemma_push_target_step(op, path@.skip(idx as int), pred_ius(pred));
                }
                if go_left {
                    let l = convert_at(*left_child, path, idx + 1, pred);
                    let r = Op::Join(Join { left_child: Box::new(l), right_child, join_type, join_predicates });
                    proof {
                        broadcast use vstd::multiset::group_multiset_axioms;
                        assert(op_preds(r) =~= op_preds(op).insert(pred));
                        assert(op_ius(r) =~= op_ius(op));
                    }
                    r
                } else {
                    let rc = convert_at(*right_child, path, idx + 1, pred);
                    let r = Op::Join(Join { left_child, right_child: Box::new(rc), join_type, join_predicates });
                    proof {
                        broadcast use vstd::multiset::group_multiset_axioms;
                        assert(op_preds(r) =~= op_preds(op).insert(pred));
                        assert(op_ius(r) =~= op_ius(op));
                    }
                    r
                }
            }
        },
        other => {
            assert(false);
            other
        },
    }
}

/// Puts a selection by the predicate above the `on_left` child of the join at
/// the end of the path (from position `idx` on), and optimizes it.
fn insert_at(op: Op, path: &Vec<bool>, idx: usize, on_left: bool, pred: BinaryExpression) -> (r: Op)
    requires
        idx <= path@.len(),
        push_path_ok(op, path@.skip(idx as int), pred_ius(pred)),
        pred_ius(pred).subset_of(op_ius(side_child(join_at(op, path@.skip(idx as int)), on_left))),
        push_target(op, pred_ius(pred)) == Some(
            PushTargetModel::InsertAt(path@.skip(idx as int), on_left),
        ),
        pushed(op),
    ensures
        op_scans(r) == op_scans(op),
        op_preds(r) == op_preds(op).insert(pred),
        op_ius(r) == op_ius(op),
        op_size(r) <= op_size(op) + 2,
        op_scoped(op) ==> op_scoped(r),
        print_free(op) ==> print_free(r),
        pushed(r),
        r is Join,
        push_target(r, pred_ius(pred)) == push_target(op, pred_ius(pred)),
        side_child(join_at(r, path@.skip(idx as int)), on_left) is Select,
        side_child(join_at(r, path@.skip(idx as int)), on_left)->Select_0.binary_exp == pred,
    decreases op_size(op) + 1, 0nat,
{
    match op {
        Op::Join(j) => {
            let Join { left_child, right_child, join_type, join_predicates } = j;
            proof {
                lemma_op_size_pos(*left_child);
                lemma_op_size_pos(*right_child);
            }
            if idx == path.len() {
                proof {
                    assert(path@.skip(idx as int) =~= Seq::<bool>::empty());
                    let in_left = pred_ius(pred).subset_of(op_ius(*left_child));
                    let in_right = pred_ius(pred).subset_of(op_ius(*right_child));
                    assert(in_left != in_right);
                    assert(on_left == in_left);
                    assert(push_target(side_child(j, on_left), pred_ius(pred)) is None);
                    assert(!(side_child(j, on_left) is Join));
                }
                if on_left {
                    let sel = Op::Select(Select::new(*left_child, pred));
                    assert(pushed(sel));
                    let l = sel.optimize();
                    assert(l == sel);
                    assert(push_target(l, pred_ius(pred)) is None);
                    let r = Op::Join(Join { left_child: Box::new(l), right_child, join_type, join_predicates });
                    proof {
                        broadcast use vstd::multiset::group_multiset_axioms;
                        assert(op_preds(r) =~= op_preds(op).insert(pred));
                        assert(op_ius(r) =~= op_ius(op));
                    }
                    r
                } else {
                    let sel = Op::Select(Select::new(*right_child, pred));
                    assert(pushed(sel));
                    let rc = sel.optimize();
                    assert(rc == sel);
                    assert(push_target(rc, pred_ius(pred)) is None);
                    let r = Op::Join(Join { left_child, right_child: Box::new(rc), join_type, join_predicates });
                    proof {
                        broadcast use vstd::multiset::group_multiset_axioms;
                        assert(op_preds(r) =~= op_preds(op).insert(pred));
                        assert(op_ius(r) =~= op_ius(op));
                    }
                    r
                }
            } else {
                let go_left = path[idx];
                proof {
                    assert(path@.skip(idx as int)[0] == go_left);
                    assert(path@.skip(idx as int).drop_first() =~= path@.skip(idx + 1));
                    lemma_push_target_step(op, path@.skip(idx as int), pred_ius(pred));
                }
                if go_left {
                    let l = insert_at(*left_child, path, idx + 1, on_left, pred);
                    let r = Op::Join(Join { left_child: Box::new(l), right_child, join_type, join_predicates });
                    proof {
                        broadcast use vstd::multiset::group_multiset_axioms;
                        assert(op_preds(r) =~= op_preds(op).insert(pred));
                        assert(op_ius(r) =~= op_ius(op));
                    }
                    r
                } else {
                    let rc = insert_at(*right_child, path, idx + 1, on_left, pred);
                    let r = Op::Join(Join { left_child, right_child: Box::new(rc), join_type, join_predicates });
                    proof {
                        broadcast use vstd::multiset::group_multiset_axioms;
                        assert(op_preds(r) =~= op_preds(op).insert(pred));
                        assert(op_ius(r) =~= op_ius(op));
                    }
                    r
                }
            }
        },
        other => {
            assert(false);
            other
        },
    }
}

impl Select {
    /// Predicate pushdown for this selection: after optimizing the child,
    /// moves the predicate below the joins under it as far as its IUs allow,
    /// into the join where both or neither side provides them all.
    pub fn optimize(self) -> (r: Op)
        ensures
            op_scans(r) == op_scans(Op::Select(self)),
            op_preds(r) == op_preds(Op::Select(self)),
            op_ius(r) == op_ius(Op::Select(self)),
            op_size(r) <= op_size(Op::Select(self)),
            op_scoped(Op::Select(self)) ==> op_scoped(r),
            print_free(Op::Select(self)) ==> print_free(r),
            pushed(r),
            pushed(Op::Select(self)) ==> r == Op::Select(self),
            match push_target(r, pred_ius(self.binary_exp)) {
                Some(PushTargetModel::ConvertToJoin(p)) => {
                    &&& join_at(r, p).join_type == JoinType::Inner
                    &&& join_at(r, p).join_predicates@.len() > 0
                    &&& join_at(r, p).join_predicates@.last() == self.binary_exp
                },
                Some(PushTargetModel::InsertAt(p, side)) => {
                    &&& side_child(join_at(r, p), side) is Select
                    &&& side_child(join_at(r, p), side)->Select_0.binary_exp == self.binary_exp
                },
                None => r is Select && r->Select_0.binary_exp == self.binary_exp,
            },
        decreases op_size(Op::Select(self)), 1nat,
    {
        let ghost orig = Op::Select(self);
        let Select { child, binary_exp } = self;
        let child = (*child).optimize();
        let is_join = match &child {
            Op::Join(_) => true,
            _ => false,
        };
        if !is_join {
            return Op::Select(Select::new(child, binary_exp));
        }
        let pred = Self::binary_ius(&binary_exp);
        if pred.len() == 0 {
            proof {
                assert(iu_ids(pred@) =~= Set::<u64>::empty());
            }
            return Op::Select(Select::new(child, binary_exp));
        }
        proof {
            lemma_push_target_ok(child, pred_ius(binary_exp));
            assert(iu_ids(pred@).contains(pred@[0].id));
            assert(!pushed(orig));
        }
        match Self::find_push_target(&child, &pred) {
            Some(PushTarget::ConvertToJoin { path }) => {
                proof {
                    assert(path@.skip(0) =~= path@);
                }
                convert_at(child, &path, 0, binary_exp)
            },
            Some(PushTarget::InsertAt { path, on_left }) => {
                proof {
                    assert(path@.skip(0) =~= path@);
                }
                insert_at(child, &path, 0, on_left, binary_exp)
            },
            None => Op::Select(Select::new(child, binary_exp)),
        }
    }
}

/// `format!("{:?}", s)` on a `&str`: the text between double quotes, with
/// quotes, backslashes and special characters escaped.
pub uninterp spec fn str_debug(s: Seq<char>) -> Seq<char>;

/// `format!("{:?}", s)` on a `&str`: the text quoted and escaped as Rust's
/// `Debug` writes it. The contract names the result and says nothing of its
/// characters.
#[verifier::external_body]
fn debug_quoted(s: &str) -> (r: String)
    ensures
        r@ == str_debug(s@),
{
    format!("{:?}", s)
}

/// The comparison operator as code.
pub open spec fn op_text(op: BinaryOperator) -> Seq<char> {
    match op {
        BinaryOperator::Eq => "=="@,
        BinaryOperator::Leq => "<="@,
        BinaryOperator::Geq => ">="@,
        BinaryOperator::Neq => "!="@,
    }
}

/// What Rust's comparison operator written as `text` says of two integers.
pub open spec fn code_cmp_holds(text: Seq<char>, a: int, b: int) -> bool {
    if text == "=="@ {
        a == b
    } else if text == "!="@ {
        a != b
    } else if text == "<="@ {
        a <= b
    } else if text == ">="@ {
        a >= b
    } else {
        false
    }
}

/// What the SQL comparison `a op b` says of two integers.
pub open spec fn sql_cmp_holds(op: BinaryOperator, a: int, b: int) -> bool {
    match op {
        BinaryOperator::Eq => a == b,
        BinaryOperator::Leq => a <= b,
        BinaryOperator::Geq => a >= b,
        BinaryOperator::Neq => a != b,
    }
}

/// The code written for a comparison means the comparison: for any two
/// values, Rust's operator that the selection's code holds is true exactly
/// when the SQL predicate is, so a row passes the generated selection exactly
/// when its column value and the constant stand in the predicate's relation.
pub proof fn law_op_text_means_operator(op: BinaryOperator, a: int, b: int)
    ensures
        code_cmp_holds(op_text(op), a, b) == sql_cmp_holds(op, a, b),
{
    reveal_strlit("==");
    reveal_strlit("!=");
    reveal_strlit("<=");
    reveal_strlit(">=");
    assert("=="@[0] != "!="@[0]);
    assert("=="@[0] != "<="@[0]);
    assert("=="@[0] != ">="@[0]);
    assert("!="@[0] != "<="@[0]);
    assert("!="@[0] != ">="@[0]);
    assert("<="@[0] != ">="@[0]);
}

/// The comparison operator as code.
fn op_str(op: BinaryOperator) -> (s: &'static str)
    ensures
        s@ == op_text(op),
{
    match op {
        BinaryOperator::Eq => "==",
        BinaryOperator::Leq => "<=",
        BinaryOperator::Geq => ">=",
        BinaryOperator::Neq => "!=",
    }
}

/// The code of a constant as a value of an INTEGER, TIMESTAMP or BOOL column,
/// if the trimmed constant reads as one.
pub open spec fn literal_code(tag: Tag, lit: Seq<char>) -> Option<Seq<char>> {
    let t = spec_trim(lit);
    match tag {
        Tag::Integer => match spec_parse_int(t) {
            Some(v) => if i32::MIN <= v <= i32::MAX {
                Some("ValueRef::Integer("@ + int_to_decimal(v) + ")"@)
            } else {
                None
            },
            None => None,
        },
        Tag::Timestamp => match spec_parse_int(t) {
            Some(v) => if i64::MIN <= v <= i64::MAX {
                Some("ValueRef::Timestamp("@ + int_to_decimal(v) + ")"@)
            } else {
                None
            },
            None => None,
        },
        Tag::Bool => if t == "true"@ {
            Some("ValueRef::Bool(true)"@)
        } else if t == "false"@ {
            Some("ValueRef::Bool(false)"@)
        } else {
            None
        },
        _ => None,
    }
}

/// The code of a constant as a value of an INTEGER, TIMESTAMP or BOOL column.
fn literal_to_code(tag: Tag, lit: &str) -> (r: Option<String>)
    ensures
        match r {
            Some(c) => literal_code(tag, lit@) == Some(c@),
            None => literal_code(tag, lit@) is None,
        },
{
    let t = trim(lit);
    match tag {
        Tag::Integer => match parse_i32(t) {
            Some(n) => {
                let mut c = String::from_str("ValueRef::Integer(");
                c.append(i64_to_string(n as i64).as_str());
                c.append(")");
                Some(c)
            },
            None => None,
        },
        Tag::Timestamp => match parse_i64(t) {
            Some(n) => {
                let mut c = String::from_str("ValueRef::Timestamp(");
                c.append(i64_to_string(n).as_str());
                c.append(")");
                Some(c)
            },
            None => None,
        },
        Tag::Bool => {
            if str_eq(t, "true") {
                Some(String::from_str("ValueRef::Bool(true)"))
            } else if str_eq(t, "false") {
                Some(String::from_str("ValueRef::Bool(false)"))
            } else {
                None
            }
        },
        _ => None,
    }
}

/// `a + " " + op + " " + b`.
fn compare_text(a: &str, op: &str, b: &str) -> (s: String)
    ensures
        s@ == a@ + " "@ + op@ + " "@ + b@,
{
    let mut s = String::from_str(a);
    s.append(" ");
    s.append(op);
    s.append(" ");
    s.append(b);
    s
}

/// The predicates that compare a column with a constant.
pub open spec fn column_literal(b: BinaryExpression) -> Option<(IURef, String, bool)> {
    match (b.l, b.r) {
        (Expression::IURef(iu), Expression::String(s)) => Some((iu, s, true)),
        (Expression::String(s), Expression::IURef(iu)) => Some((iu, s, false)),
        _ => None,
    }
}

/// The predicates whose code can be generated in the tuple: a column compared
/// with a constant, or two producible operands.
pub open spec fn predicate_codable(b: BinaryExpression, ctx: TupleCtx) -> bool {
    match column_literal(b) {
        Some((iu, _, _)) => iu.iu.ty.has_valid_tag(),
        None => producible(b.l, ctx) && producible(b.r, ctx),
    }
}

/// The code that tests a predicate: an optional setup line and the condition.
pub open spec fn predicate_code(b: BinaryExpression, ctx: TupleCtx) -> Result<
    (Option<Seq<char>>, Seq<char>),
    PlanError,
> {
    let op = op_text(b.op);
    match column_literal(b) {
        Some((iu, lit, col_is_left)) => match ctx.expr_of_spec(iu.id) {
            None => Err(PlanError::UnknownIU(iu.iu.name)),
            Some(col) => {
                let tag = iu.iu.ty.spec_tag();
                if is_text_tag(tag) {
                    Ok(
                        (
                            Some(
                                "let __text_cmp = match "@ + col
                                    + " { ValueRef::Text(tv) => tv, _ => unreachable!() };"@,
                            ),
                            if col_is_left {
                                "__text_cmp.as_str()"@ + " "@ + op + " "@ + str_debug(lit@)
                            } else {
                                str_debug(lit@) + " "@ + op + " "@ + "__text_cmp.as_str()"@
                            },
                        ),
                    )
                } else {
                    match literal_code(tag, lit@) {
                        None => Err(PlanError::LiteralMismatch { column: iu.iu.name, tag, literal: lit }),
                        Some(v) => Ok(
                            (
                                None,
                                if col_is_left {
                                    col + " "@ + op + " "@ + v
                                } else {
                                    v + " "@ + op + " "@ + col
                                },
                            ),
                        ),
                    }
                }
            },
        },
        None => Ok((None, produce_text(b.l, ctx) + " "@ + op + " "@ + produce_text(b.r, ctx))),
    }
}

/// The content of generated predicate code.
pub open spec fn code_view(r: Result<(Option<String>, String), PlanError>) -> Result<
    (Option<Seq<char>>, Seq<char>),
    PlanError,
> {
    match r {
        Ok((setup, cond)) => Ok(
            (
                match setup {
                    Some(s) => Some(s@),
                    None => None,
                },
                cond@,
            ),
        ),
        Err(e) => Err(e),
    }
}

impl Select {
    /// The code that tests the predicate on the tuple: an optional setup line
    /// and the condition.
    pub fn predicate_to_code(&self, ctx: &TupleCtx) -> (r: Result<(Option<String>, String), PlanError>)
        requires
            predicate_codable(self.binary_exp, *ctx),
        ensures
            code_view(r) == predicate_code(self.binary_exp, *ctx),
    {
        let op = op_str(self.binary_exp.op);
        let (iu, lit, col_is_left): (&IURef, &String, bool) = match (&self.binary_exp.l, &self.binary_exp.r) {
            (Expression::IURef(iu), Expression::String(s)) => (iu, s, true),
            (Expression::String(s), Expression::IURef(iu)) => (iu, s, false),
            _ => {
                let left = self.binary_exp.l.produce(ctx);
                let right = self.binary_exp.r.produce(ctx);
                return Ok((None, compare_text(left.as_str(), op, right.as_str())));
            },
        };
        let col_expr = match ctx.expr_of(iu.id) {
            Some(c) => c,
            None => {
                return Err(PlanError::UnknownIU(iu.iu.name.clone()));
            },
        };
        let tag = iu.iu.ty.tag();
        if crate::types::is_text(tag) {
            let mut setup = String::from_str("let __text_cmp = match ");
            setup.append(col_expr.as_str());
            setup.append(" { ValueRef::Text(tv) => tv, _ => unreachable!() };");
            let quoted = debug_quoted(lit.as_str());
            let cond = if col_is_left {
                compare_text("__text_cmp.as_str()", op, quoted.as_str())
            } else {
                compare_text(quoted.as_str(), op, "__text_cmp.as_str()")
            };
            return Ok((Some(setup), cond));
        }
        match literal_to_code(tag, lit.as_str()) {
            None => Err(PlanError::LiteralMismatch { column: iu.iu.name.clone(), tag, literal: lit.clone() }),
            Some(v) => {
                let cond = if col_is_left {
                    compare_text(col_expr.as_str(), op, v.as_str())
                } else {
                    compare_text(v.as_str(), op, col_expr.as_str())
                };
                Ok((None, cond))
            },
        }
    }
}

} // verus!
