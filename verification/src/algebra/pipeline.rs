//! Code generation for plans in the produce/consume model: an operator
//! produces its tuples by generating the loops that read them, and hands
//! each tuple to the operators above it, which generate the code that
//! consumes it.
//!
//! The operators above a tuple are passed down as a stack of consumers,
//! innermost last; a cross join's consumer for its left input produces the
//! right input, and an inner join records the layout of its build tuples so
//! that its probe side can read them back.

use vstd::prelude::*;

use crate::algebra::iu::{IURef, sort_by_name};
use crate::algebra::join::{Join, JoinType, dup_access, dup_strings, first_position, join_key_code};
use crate::algebra::print::Print;
use crate::algebra::scan::TableScan;
use crate::algebra::select::{Select, column_literal, literal_code, predicate_codable, predicate_code};
use crate::algebra::iu::iu_ids;
use crate::types::is_text_tag;
use crate::algebra::{Op, PlanError, TupleCtx, first_code, op_ius, op_size, print_free};
use crate::codegen::{Codegen, first_value, line_text};
use crate::util::decimal::nat_to_decimal;
use crate::parser::expr::{BinaryExpression, Expression, producible};

verus! {

/// What a join does with a tuple of one of its inputs.
#[derive(Debug)]
pub enum JoinInput {
    /// A tuple of a cross join's left input: produce the right input for it
    CrossLeft,
    /// A tuple of a cross join's right input, with the left tuple
    CrossRight(TupleCtx),
    /// A tuple of an inner join's build side: insert it into the hash table
    Build {
        /// The variable of the hash table's builder
        builder: String,
        /// Where the layout of the build tuples is recorded
        slot: usize,
    },
    /// A tuple of an inner join's probe side: look up its matches
    Probe {
        /// The variable of the finished hash table
        map: String,
        /// Where the layout of the build tuples is recorded
        slot: usize,
    },
}

/// An operator waiting for the tuples of the operators below it.
#[derive(Debug)]
pub enum Consumer<'a> {
    /// A selection
    Select(&'a Select),
    /// The print root
    Print(&'a Print),
    /// A join, with the input the tuples come from
    Join(&'a Join, JoinInput),
}

/// The layout of an inner join's build tuples: how their IUs are read, and
/// the table of each of their row ids.
#[derive(Debug)]
pub struct BuildTemplate {
    /// For every IU, its table variable and column variable
    pub access: Vec<(IURef, (String, String))>,
    /// The table variable of each row id
    pub row_id_tables: Vec<String>,
}

/// How much generation a consumer may still cause.
pub open spec fn consumer_weight(c: Consumer) -> nat {
    match c {
        Consumer::Join(j, JoinInput::CrossLeft) => op_size(*j.right_child) + 2,
        _ => 1,
    }
}

/// How much generation a stack of consumers may still cause.
pub open spec fn consumers_weight(cs: Seq<Consumer>) -> nat
    decreases cs.len(),
{
    if cs.len() == 0 {
        0
    } else {
        consumers_weight(cs.drop_last()) + consumer_weight(cs.last())
    }
}

/// A waiting join's right input holds no print, and the build-template slot
/// it uses exists.
pub open spec fn consumer_ok(c: Consumer, n: nat) -> bool {
    match c {
        Consumer::Join(j, input) => print_free(*j.right_child) && match input {
            JoinInput::Build { slot, .. } => slot < n,
            JoinInput::Probe { slot, .. } => slot < n,
            _ => true,
        },
        _ => true,
    }
}

/// Every waiting consumer is as `consumer_ok` asks.
pub open spec fn slots_ok(cs: Seq<Consumer>, n: nat) -> bool {
    forall|i: int|
        0 <= i < cs.len() ==> consumer_ok(#[trigger] cs[i], n)
}

/// `n` copies of the text.
pub open spec fn repeat_text(s: Seq<char>, n: nat) -> Seq<char>
    decreases n,
{
    if n == 0 {
        Seq::empty()
    } else {
        repeat_text(s, (n - 1) as nat) + s
    }
}

/// Every IU has code in the tuple.
pub open spec fn has_codes(ius: Seq<IURef>, ctx: TupleCtx) -> bool {
    forall|k: int| 0 <= k < ius.len() ==> ctx.expr_of_spec((#[trigger] ius[k]).id) is Some
}

/// One argument line per IU: its code, then a comma.
pub open spec fn print_args_text(ius: Seq<IURef>, ctx: TupleCtx, indent: nat) -> Seq<char>
    decreases ius.len(),
{
    if ius.len() == 0 {
        Seq::empty()
    } else {
        print_args_text(ius.drop_last(), ctx, indent) + line_text(
            indent,
            ctx.expr_of_spec(ius.last().id)->Some_0 + ",  "@,
        )
    }
}

/// The code that formats a tuple's printed IUs into a line and adds it to
/// the output.
pub open spec fn print_consume_text(p: Print, ctx: TupleCtx, indent: nat) -> Seq<char> {
    line_text(indent, "// Print operator consume"@) + line_text(
        indent,
        "let line = format!(\" "@ + repeat_text("{} | "@, p.iu_refs_set@.len()) + " \", "@,
    ) + print_args_text(p.iu_refs_vec@, ctx, indent) + line_text(indent, ");"@) + line_text(
        indent,
        "out.push_line(&line);"@,
    )
}

/// The join's key codes for a tuple of its build side, if every join
/// predicate has one.
pub open spec fn build_keys(j: Join, ctx: TupleCtx) -> Option<Seq<Seq<char>>> {
    if forall|i: int|
        0 <= i < j.join_predicates@.len() ==> join_key_code(
            #[trigger] j.join_predicates@[i],
            op_ius(*j.left_child),
            ctx,
        ) is Some {
        Some(
            Seq::new(
                j.join_predicates@.len(),
                |i: int| join_key_code(j.join_predicates@[i], op_ius(*j.left_child), ctx)->Some_0,
            ),
        )
    } else {
        None
    }
}

/// The join's key codes for a tuple of its probe side, if every join
/// predicate has one.
pub open spec fn probe_keys(j: Join, ctx: TupleCtx) -> Option<Seq<Seq<char>>> {
    if forall|i: int|
        0 <= i < j.join_predicates@.len() ==> join_key_code(
            #[trigger] j.join_predicates@[i],
            op_ius(*j.right_child),
            ctx,
        ) is Some {
        Some(
            Seq::new(
                j.join_predicates@.len(),
                |i: int| join_key_code(j.join_predicates@[i], op_ius(*j.right_child), ctx)->Some_0,
            ),
        )
    } else {
        None
    }
}

/// The line that declares `out` as the row ids of `left` followed by those of
/// `right`.
pub open spec fn concat_ids_line(out: Seq<char>, left: Seq<char>, right: Seq<char>) -> Seq<char> {
    "let "@ + out + ": Vec<usize> = { let mut tmp: Vec<usize> = "@ + left + ".clone(); tmp.extend("@
        + right + ".iter().copied()); tmp };"@
}

/// The lines that open a probe: the loop over the build tuples that match the
/// key, and the joined row ids; the variables are numbered from `c` on.
pub open spec fn probe_head(map: Seq<char>, keys: Seq<Seq<char>>, ids: Seq<char>, c: usize, ind: nat) -> Seq<
    char,
> {
    let m = var_text("build_row_"@, c);
    line_text(ind, "for "@ + m + " in "@ + map + ".get("@ + "vec!["@ + comma_text(keys) + "]"@ + ")"@ + " {"@)
        + line_text(ind + 1, concat_ids_line(var_text("row_ids_"@, c.wrapping_add(1)), m, ids))
}

/// The line that inserts a build tuple's row ids into the hash table under
/// its key.
pub open spec fn build_insert_line(builder: Seq<char>, keys: Seq<Seq<char>>, row_ids: Seq<char>) -> Seq<char> {
    builder + ".insert("@ + "vec!["@ + comma_text(keys) + "]"@ + ", "@ + row_ids + ");"@
}

/// The generation state that producing and consuming keep.
pub open spec fn kept(cg: Codegen, cg0: Codegen) -> bool {
    &&& cg.indent == cg0.indent
    &&& cg.in_function == cg0.in_function
    &&& cg.in_function ==> cg.buf@ == cg0.buf@
}

/// The name of the fresh variable with the prefix and the number.
pub open spec fn var_text(prefix: Seq<char>, c: usize) -> Seq<char> {
    prefix + nat_to_decimal(c as nat)
}

/// The variable that holds the named table, and the number of the next fresh
/// variable once it is asked for.
pub open spec fn table_var_of(cg: Codegen, name: Seq<char>) -> (Seq<char>, usize) {
    match first_value(cg.table_map@, name) {
        Some(v) => (v, cg.tmp_counter),
        None => (var_text("table_"@, cg.tmp_counter), cg.tmp_counter.wrapping_add(1)),
    }
}

/// The lines that open a table scan: the parallel loop over morsels of the
/// table's rows, the loop over a morsel's rows, the row's view and its row ids;
/// the loop variables are numbered from `c` on.
pub open spec fn scan_head(tbl: Seq<char>, c: usize, ind: nat) -> Seq<char> {
    let rows = var_text("rows_"@, c);
    let row = var_text("row_"@, c.wrapping_add(1));
    let view = var_text("view_"@, c.wrapping_add(1).wrapping_add(1));
    let ids = var_text("row_ids_"@, c.wrapping_add(1).wrapping_add(1).wrapping_add(1));
    line_text(ind, "// TableScan "@) + line_text(
        ind,
        "(0.."@ + tbl + ".num_rows).into_par_iter().chunks(MORSEL_SIZE).for_each( | "@ + rows + " |"@
            + " {"@,
    ) + line_text(ind + 1, "for "@ + row + " in "@ + rows + " "@ + " {"@) + line_text(
        ind + 2,
        "let "@ + view + " = RowView{ table: &"@ + tbl + ", row_id: "@ + row + " };"@,
    ) + line_text(ind + 2, "let "@ + ids + ": Vec<usize> = vec!["@ + row + "];"@)
}

/// The lines that close a table scan's loops.
pub open spec fn scan_tail(ind: nat) -> Seq<char> {
    line_text(ind + 1, "}"@) + line_text(ind, "}"@) + line_text(ind, ");"@)
}

/// The lines that start an inner join's hash table, before the build side's
/// code.
pub open spec fn hash_join_head(builder: Seq<char>, ind: nat) -> Seq<char> {
    line_text(ind, "// Using LazyMultiMap "@) + line_text(
        ind,
        "let mut "@ + builder
            + ": LazyMultiMapParBuilder<Vec<ValueRef>, Vec<usize>> = LazyMultiMapParBuilder::new();"@,
    ) + line_text(ind, "// Build Phase "@)
}

/// The lines that start the generated query: the imports, then the header
/// of the query function.
pub open spec fn print_head(ind: nat) -> Seq<char> {
    line_text(ind, "// Print operator produce"@)
        + line_text(ind, "extern crate imlab;"@)
        + line_text(ind, "use std::error::Error;"@)
        + line_text(ind, "use imlab::db::Database;"@)
        + line_text(ind, "use imlab::db::Value;"@)
        + line_text(ind, "use imlab::types::integer::Integer;"@)
        + line_text(ind, "use imlab::types::text::Text;"@)
        + line_text(ind, "use imlab::types::numeric::Numeric;"@)
        + line_text(ind, "use imlab::types::timestamp::Timestamp;"@)
        + line_text(ind, "use imlab::types::bool::Bool;"@)
        + line_text(ind, "use imlab::db::Key;"@)
        + line_text(ind, "use imlab::infra::map::LazyMultiMapBuilder;"@)
        + line_text(ind, "use imlab::infra::map::LazyMultiMapParBuilder;"@)
        + line_text(ind, "use imlab::db::row::RowView;"@)
        + line_text(ind, "use imlab::db::row::ValueRef;"@)
        + line_text(ind, "use imlab::rayon::prelude::*;"@)
        + line_text(ind, "use imlab::algebra::print::ParOutput;"@) + line_text(
        ind,
        "#[no_mangle] pub extern \"C\" fn "@ + "main_query"@ + "(db: *const imlab::db::Database) -> i32"@
            + " {"@,
    )
}

/// The lines that end the generated query: printing the collected output and
/// the number of rows, returning that number, and the closing brace.
pub open spec fn print_tail(ind: nat) -> Seq<char> {
    line_text(ind + 1, "let (text, rows) = out.finalize();"@) + line_text(ind + 1, "print!(\"{}\", text);"@)
        + line_text(ind + 1, "println!(\"\");"@) + line_text(
        ind + 1,
        "println!(\"Total rows is : {}\", rows);"@,
    ) + line_text(1, "rows as i32"@) + line_text(ind, "}"@)
}

proof fn lemma_framed_wrap(
    t0: Seq<char>,
    h: Seq<char>,
    m: Seq<char>,
    f: Seq<char>,
    f0: Seq<char>,
    fh: Seq<char>,
    ftl: Seq<char>,
    y: Seq<char>,
)
    requires
        text_framed(f, f0, fh, ftl),
    ensures
        text_framed(t0 + h + m + f + y, t0, h, ftl + y),
{
    let t = t0 + h + m + f + y;
    assert(t.subrange(0, (t0.len() + h.len()) as int) =~= t0 + h);
    assert(t.subrange(t.len() - (ftl + y).len(), t.len() as int) =~= f.subrange(
        f.len() - ftl.len(),
        f.len() as int,
    ) + y);
}

/// The lines that open a selection: a comment, the setup line if any, and the
/// test of the condition.
pub open spec fn select_head(setup: Option<Seq<char>>, cond: Seq<char>, ind: nat) -> Seq<char> {
    line_text(ind, "// Select operator consume"@) + match setup {
        Some(l) => line_text(ind, l),
        None => Seq::empty(),
    } + line_text(ind, "if "@ + cond + " {"@)
}

/// The IUs whose code the tuple holds.
pub open spec fn ctx_ids(ctx: TupleCtx) -> Set<u64> {
    Set::new(|id: u64| ctx.expr_of_spec(id) is Some)
}

/// An operand of a predicate whose code a tuple holding the IUs `s` can give:
/// one of those IUs, or a constant.
pub open spec fn operand_ok(e: Expression, s: Set<u64>) -> bool {
    match e {
        Expression::IURef(iu) => s.contains(iu.id),
        Expression::String(_) => true,
        _ => false,
    }
}

/// The code of the predicate can be generated for a tuple holding the IUs
/// `s`: a column of a valid type compared with a constant that is a value of
/// its type (any constant for a text column), or two operands of the tuple.
pub open spec fn sel_ok(b: BinaryExpression, s: Set<u64>) -> bool {
    match column_literal(b) {
        Some((iu, lit, _)) => {
            &&& iu.iu.ty.has_valid_tag()
            &&& s.contains(iu.id)
            &&& (is_text_tag(iu.iu.ty.spec_tag()) || literal_code(iu.iu.ty.spec_tag(), lit@) is Some)
        },
        None => operand_ok(b.l, s) && operand_ok(b.r, s),
    }
}

/// The IU of a join predicate on the given side: its left column if that is
/// on the side, else its right column if that is.
pub open spec fn key_id(pred: BinaryExpression, side: Set<u64>) -> Option<u64> {
    match (pred.l, pred.r) {
        (Expression::IURef(a), Expression::IURef(b)) => if side.contains(a.id) {
            Some(a.id)
        } else if side.contains(b.id) {
            Some(b.id)
        } else {
            None
        },
        _ => None,
    }
}

/// Each join predicate compares two columns, one of them on the side and
/// among the IUs `s`.
pub open spec fn keys_ok(j: Join, side: Set<u64>, s: Set<u64>) -> bool {
    forall|i: int|
        0 <= i < j.join_predicates@.len() ==> (key_id(#[trigger] j.join_predicates@[i], side) matches Some(
            id,
        ) && s.contains(id))
}

/// A recorded layout of build tuples reads each of its IUs through its
/// tables, and holds at least the IUs `l`.
pub open spec fn template_ok(t: BuildTemplate, l: Set<u64>) -> bool {
    &&& access_ok(t.access@, t.row_id_tables@)
    &&& l.subset_of(access_ids(t.access@))
}

/// The build-layout slot that a consumer uses, if any.
pub open spec fn slot_of(c: Consumer) -> Option<usize> {
    match c {
        Consumer::Join(_, JoinInput::Build { slot, .. }) => Some(slot),
        Consumer::Join(_, JoinInput::Probe { slot, .. }) => Some(slot),
        _ => None,
    }
}

/// A waiting join's layout is ready: a probe's is recorded, and a build's,
/// once recorded, holds the IUs of its join's left input.
pub open spec fn consumer_ready(c: Consumer, ts: Seq<Option<BuildTemplate>>) -> bool {
    match c {
        Consumer::Join(j, JoinInput::Build { slot, .. }) => ts[slot as int] matches Some(t) ==> template_ok(
            t,
            op_ius(*j.left_child),
        ),
        Consumer::Join(j, JoinInput::Probe { slot, .. }) => ts[slot as int] matches Some(t) && template_ok(
            t,
            op_ius(*j.left_child),
        ),
        _ => true,
    }
}

/// The waiting joins' layouts are ready: a probe's is recorded and a
/// build's, once recorded, holds the IUs of its join's left input; no two
/// joins use the same slot.
pub open spec fn stack_ready(cs: Seq<Consumer>, ts: Seq<Option<BuildTemplate>>) -> bool {
    &&& forall|i: int| 0 <= i < cs.len() ==> consumer_ready(#[trigger] cs[i], ts)
    &&& forall|i: int, k: int|
        0 <= i < k < cs.len() && slot_of(#[trigger] cs[i]) is Some ==> slot_of(cs[i]) != slot_of(#[trigger] cs[k])
}

/// The innermost build that a tuple handed to the consumers reaches, with its
/// slot: tuples pass selections and joins' probe and cross inputs, and stop at
/// a build or at the print.
pub open spec fn first_build(cs: Seq<Consumer>) -> Option<(Join, usize)>
    decreases cs.len(),
{
    if cs.len() == 0 {
        None
    } else {
        match cs.last() {
            Consumer::Join(j, JoinInput::Build { slot, .. }) => Some((*j, slot)),
            Consumer::Print(_) => None,
            _ => first_build(cs.drop_last()),
        }
    }
}

/// The layouts after generation: recorded ones stay, and only the slot of the
/// innermost reached build may be recorded anew.
pub open spec fn layouts_kept(cs: Seq<Consumer>, ts0: Seq<Option<BuildTemplate>>, ts: Seq<Option<BuildTemplate>>) -> bool {
    &&& ts.len() >= ts0.len()
    &&& forall|k: int|
        0 <= k < ts0.len() ==> #[trigger] ts[k] == ts0[k] || (ts0[k] is None && (first_build(cs) matches Some(
            (_, slot),
        ) && k == slot))
}

/// The innermost reached build has recorded a layout that holds its join's
/// left IUs.
pub open spec fn built(cs: Seq<Consumer>, ts: Seq<Option<BuildTemplate>>) -> bool {
    first_build(cs) matches Some((j, slot)) ==> ts[slot as int] matches Some(t) && template_ok(
        t,
        op_ius(*j.left_child),
    )
}

/// Code can be generated for the plan: it is made of scans, joins, and
/// selections whose predicates can be coded for the tuples they get; each
/// predicate of an inner join compares a column of each input.
pub open spec fn plan_ok(op: Op) -> bool
    decreases op,
{
    match op {
        Op::TableScan(_) => true,
        Op::Select(s) => sel_ok(s.binary_exp, op_ius(*s.child)) && plan_ok(*s.child),
        Op::Join(j) => plan_ok(*j.left_child) && plan_ok(*j.right_child) && (j.join_type is Inner ==> keys_ok(
            j,
            op_ius(*j.left_child),
            op_ius(*j.left_child),
        ) && keys_ok(j, op_ius(*j.right_child), op_ius(*j.right_child))),
        _ => false,
    }
}

/// The IUs of the access entries.
pub open spec fn access_ids(acc: Seq<(IURef, (String, String))>) -> Set<u64> {
    Set::new(|id: u64| exists|i: int| 0 <= i < acc.len() && (#[trigger] acc[i]).0.id == id)
}

/// Every access entry reads one of the tables.
pub open spec fn access_ok(acc: Seq<(IURef, (String, String))>, tables: Seq<String>) -> bool {
    forall|i: int| 0 <= i < acc.len() ==> first_position(tables, (#[trigger] acc[i]).1.0@) is Some
}

/// The tuple reads each IU it holds, and only those, through its tables.
pub open spec fn tuple_ok(ctx: TupleCtx) -> bool {
    &&& access_ids(ctx.access@) == ctx_ids(ctx)
    &&& access_ok(ctx.access@, ctx.row_id_tables@)
}

/// Code generation succeeds for the waiting consumers, handed a tuple holding
/// the IUs `s`: each selection's predicate can be coded; a cross join's right
/// input can be generated and its combined tuples accepted; an inner join's
/// build tuples hold the left input's IUs and its keys, and its probe tuples
/// its keys, with the combined tuples accepted; and the print's IUs are in the
/// tuple.
pub open spec fn accepts(cs: Seq<Consumer>, s: Set<u64>) -> bool
    decreases cs.len(),
{
    if cs.len() == 0 {
        true
    } else {
        match cs.last() {
            Consumer::Print(p) => iu_ids(p.iu_refs_vec@).subset_of(s),
            Consumer::Select(sel) => sel_ok(sel.binary_exp, s) && accepts(cs.drop_last(), s),
            Consumer::Join(j, JoinInput::CrossLeft) => plan_ok(*j.right_child) && accepts(
                cs.drop_last(),
                s.union(op_ius(*j.right_child)),
            ),
            Consumer::Join(_, JoinInput::CrossRight(lc)) => access_ok(lc.access@, lc.row_id_tables@) && accepts(
                cs.drop_last(),
                access_ids(lc.access@).union(s),
            ),
            Consumer::Join(j, JoinInput::Build { .. }) => op_ius(*j.left_child).subset_of(s) && keys_ok(
                *j,
                op_ius(*j.left_child),
                s,
            ),
            Consumer::Join(j, JoinInput::Probe { .. }) => keys_ok(*j, op_ius(*j.right_child), s) && accepts(
                cs.drop_last(),
                op_ius(*j.left_child).union(s),
            ),
        }
    }
}

/// Code generation succeeds for the plan producing for the waiting consumers.
pub open spec fn prod_ok(op: Op, cs: Seq<Consumer>) -> bool {
    plan_ok(op) && accepts(cs, op_ius(op))
}

proof fn lemma_sel_ok_grows(b: BinaryExpression, s: Set<u64>, t: Set<u64>)
    requires
        sel_ok(b, s),
        s.subset_of(t),
    ensures
        sel_ok(b, t),
{
}

proof fn lemma_accepts_grows(cs: Seq<Consumer>, s: Set<u64>, t: Set<u64>)
    requires
        accepts(cs, s),
        s.subset_of(t),
    ensures
        accepts(cs, t),
    decreases cs.len(),
{
    if cs.len() > 0 {
        match cs.last() {
            Consumer::Select(sel) => {
                lemma_sel_ok_grows(sel.binary_exp, s, t);
                lemma_accepts_grows(cs.drop_last(), s, t);
            },
            Consumer::Join(j, JoinInput::CrossLeft) => {
                lemma_accepts_grows(cs.drop_last(), s.union(op_ius(*j.right_child)), t.union(op_ius(*j.right_child)));
            },
            Consumer::Join(_, JoinInput::CrossRight(lc)) => {
                lemma_accepts_grows(cs.drop_last(), access_ids(lc.access@).union(s), access_ids(lc.access@).union(t));
            },
            Consumer::Join(j, JoinInput::Build { .. }) => {
                lemma_keys_ok_grows(*j, op_ius(*j.left_child), s, t);
            },
            Consumer::Join(j, JoinInput::Probe { .. }) => {
                lemma_keys_ok_grows(*j, op_ius(*j.right_child), s, t);
                lemma_accepts_grows(cs.drop_last(), op_ius(*j.left_child).union(s), op_ius(*j.left_child).union(t));
            },
            _ => {},
        }
    }
}

proof fn lemma_keys_ok_grows(j: Join, side: Set<u64>, s: Set<u64>, t: Set<u64>)
    requires
        keys_ok(j, side, s),
        s.subset_of(t),
    ensures
        keys_ok(j, side, t),
{
    assert forall|i: int| 0 <= i < j.join_predicates@.len() implies (key_id(
        #[trigger] j.join_predicates@[i],
        side,
    ) matches Some(id) && t.contains(id)) by {
        assert(key_id(j.join_predicates@[i], side) matches Some(id) && s.contains(id));
    }
}

/// Where the key columns are in the tuple, every join predicate has its
/// key code.
proof fn lemma_keys_ok_codes(j: Join, side: Set<u64>, ctx: TupleCtx)
    requires
        keys_ok(j, side, ctx_ids(ctx)),
    ensures
        forall|i: int|
            0 <= i < j.join_predicates@.len() ==> join_key_code(#[trigger] j.join_predicates@[i], side, ctx) is Some,
{
    assert forall|i: int| 0 <= i < j.join_predicates@.len() implies join_key_code(
        #[trigger] j.join_predicates@[i],
        side,
        ctx,
    ) is Some by {
        assert(key_id(j.join_predicates@[i], side) matches Some(id) && ctx_ids(ctx).contains(id));
    }
}

/// The consumer is the build of the join with the slot.
pub open spec fn builds_at(c: Consumer, j: Join, slot: usize) -> bool {
    match c {
        Consumer::Join(jj, JoinInput::Build { slot: s, .. }) => *jj == j && s == slot,
        _ => false,
    }
}

/// The innermost reached build is one of the waiting consumers.
proof fn lemma_first_build_at(cs: Seq<Consumer>)
    ensures
        first_build(cs) matches Some((j, slot)) ==> exists|idx: int|
            0 <= idx < cs.len() && slot_of(#[trigger] cs[idx]) == Some(slot) && builds_at(cs[idx], j, slot),
    decreases cs.len(),
{
    if cs.len() > 0 {
        lemma_first_build_at(cs.drop_last());
        match cs.last() {
            Consumer::Join(_, JoinInput::Build { .. }) => {
                assert(cs[cs.len() - 1] == cs.last());
            },
            Consumer::Print(_) => {},
            _ => {
                if first_build(cs) is Some {
                    let idx = choose|idx: int|
                        0 <= idx < cs.drop_last().len() && slot_of(#[trigger] cs.drop_last()[idx]) == Some(
                            first_build(cs)->Some_0.1,
                        ) && builds_at(cs.drop_last()[idx], first_build(cs)->Some_0.0, first_build(cs)->Some_0.1);
                    assert(cs[idx] == cs.drop_last()[idx]);
                }
            },
        }
    }
}

/// Layouts that the waiting joins use and that stay as they were stay ready.
proof fn lemma_ready_unchanged(cs: Seq<Consumer>, a: Seq<Option<BuildTemplate>>, b: Seq<Option<BuildTemplate>>)
    requires
        slots_ok(cs, a.len()),
        stack_ready(cs, a),
        b.len() >= a.len(),
        forall|k: int| 0 <= k < a.len() ==> #[trigger] b[k] == a[k],
    ensures
        stack_ready(cs, b),
{
    assert forall|i: int| 0 <= i < cs.len() implies consumer_ready(#[trigger] cs[i], b) by {
        assert(consumer_ok(cs[i], a.len()));
        assert(consumer_ready(cs[i], a));
        match cs[i] {
            Consumer::Join(_, JoinInput::Build { slot, .. }) => {
                assert(b[slot as int] == a[slot as int]);
            },
            Consumer::Join(_, JoinInput::Probe { slot, .. }) => {
                assert(b[slot as int] == a[slot as int]);
            },
            _ => {},
        }
    }
}

/// A join that waits with a fresh slot, its layout ready, keeps the waiting
/// joins' layouts ready.
proof fn lemma_ready_push(cs: Seq<Consumer>, ts: Seq<Option<BuildTemplate>>, c: Consumer, n: nat)
    requires
        stack_ready(cs, ts),
        slots_ok(cs, n),
        slot_of(c) matches Some(sl) ==> sl >= n,
        consumer_ready(c, ts),
    ensures
        stack_ready(cs.push(c), ts),
{
    let cs2 = cs.push(c);
    assert forall|i: int| 0 <= i < cs2.len() implies consumer_ready(#[trigger] cs2[i], ts) by {
        if i < cs.len() {
            assert(cs2[i] == cs[i]);
        }
    }
    assert forall|i: int, k: int|
        0 <= i < k < cs2.len() && slot_of(#[trigger] cs2[i]) is Some implies slot_of(cs2[i]) != slot_of(
        #[trigger] cs2[k]) by {
        assert(cs2[i] == cs[i]);
        assert(consumer_ok(cs[i], n));
        if k < cs.len() {
            assert(cs2[k] == cs[k]);
        }
    }
}

/// Keeping the layouts twice keeps them.
proof fn lemma_kept_trans(
    cs: Seq<Consumer>,
    a: Seq<Option<BuildTemplate>>,
    b: Seq<Option<BuildTemplate>>,
    c: Seq<Option<BuildTemplate>>,
)
    requires
        layouts_kept(cs, a, b),
        layouts_kept(cs, b, c),
    ensures
        layouts_kept(cs, a, c),
{
    assert forall|k: int| 0 <= k < a.len() implies #[trigger] c[k] == a[k] || (a[k] is None && (first_build(
        cs,
    ) matches Some((_, slot)) && k == slot)) by {
        assert(b[k] == a[k] || (a[k] is None && (first_build(cs) matches Some((_, slot)) && k == slot)));
        assert(c[k] == b[k] || (b[k] is None && (first_build(cs) matches Some((_, slot)) && k == slot)));
    }
}

/// Layouts kept and the reached build's layout recorded leave the waiting
/// joins' layouts ready.
proof fn lemma_ready_kept(cs: Seq<Consumer>, a: Seq<Option<BuildTemplate>>, b: Seq<Option<BuildTemplate>>)
    requires
        slots_ok(cs, a.len()),
        stack_ready(cs, a),
        layouts_kept(cs, a, b),
        built(cs, b),
    ensures
        stack_ready(cs, b),
{
    lemma_first_build_at(cs);
    assert forall|i: int| 0 <= i < cs.len() implies consumer_ready(#[trigger] cs[i], b) by {
        assert(consumer_ok(cs[i], a.len()));
        match cs[i] {
            Consumer::Join(j, JoinInput::Build { slot, .. }) => {
                if b[slot as int] != a[slot as int] {
                    let idx = choose|idx: int|
                        0 <= idx < cs.len() && slot_of(#[trigger] cs[idx]) == Some(first_build(cs)->Some_0.1)
                            && builds_at(cs[idx], first_build(cs)->Some_0.0, first_build(cs)->Some_0.1);
                    if idx != i {
                        if idx < i {
                            assert(slot_of(cs[idx]) != slot_of(cs[i]));
                        } else {
                            assert(slot_of(cs[i]) != slot_of(cs[idx]));
                        }
                    }
                }
            },
            Consumer::Join(j, JoinInput::Probe { slot, .. }) => {
                assert(b[slot as int] == a[slot as int]);
            },
            _ => {},
        }
    }
}

/// The tuple's code entries hold exactly the IUs of their entries.
proof fn lemma_first_code(e: Seq<(IURef, String)>, id: u64)
    ensures
        first_code(e, id) is Some <==> exists|i: int| 0 <= i < e.len() && (#[trigger] e[i]).0.id == id,
    decreases e.len(),
{
    if e.len() > 0 {
        lemma_first_code(e.drop_first(), id);
        if exists|i: int| 0 <= i < e.len() && (#[trigger] e[i]).0.id == id {
            let i = choose|i: int| 0 <= i < e.len() && (#[trigger] e[i]).0.id == id;
            if i > 0 {
                assert(e.drop_first()[i - 1] == e[i]);
            }
        }
        if exists|i: int| 0 <= i < e.drop_first().len() && (#[trigger] e.drop_first()[i]).0.id == id {
            let i = choose|i: int| 0 <= i < e.drop_first().len() && (#[trigger] e.drop_first()[i]).0.id == id;
            assert(e[i + 1] == e.drop_first()[i]);
        }
    }
}

/// A table found among the first tables is found among them and more, and
/// one found among the last tables is found among them and fewer before.
proof fn lemma_first_position_concat(a: Seq<String>, b: Seq<String>, t: Seq<char>)
    ensures
        first_position(a, t) is Some ==> first_position(a + b, t) is Some,
        first_position(b, t) is Some ==> first_position(a + b, t) is Some,
    decreases a.len(),
{
    if a.len() > 0 {
        assert((a + b).drop_first() =~= a.drop_first() + b);
        assert((a + b)[0] == a[0]);
        lemma_first_position_concat(a.drop_first(), b, t);
    } else {
        assert(a + b =~= b);
    }
}

/// The IUs of a reversed list of entries followed by another are those of both.
proof fn lemma_access_ids_merge(f: Seq<(IURef, (String, String))>, b: Seq<(IURef, (String, String))>)
    ensures
        access_ids(f.reverse() + b) == access_ids(f).union(access_ids(b)),
{
    let m = f.reverse() + b;
    assert forall|id: u64| access_ids(m).contains(id) <==> access_ids(f).union(access_ids(b)).contains(id) by {
        if access_ids(m).contains(id) {
            let i = choose|i: int| 0 <= i < m.len() && (#[trigger] m[i]).0.id == id;
            if i < f.len() {
                assert(f[f.len() - 1 - i] == m[i]);
            } else {
                assert(b[i - f.len()] == m[i]);
            }
        }
        if access_ids(f).contains(id) {
            let i = choose|i: int| 0 <= i < f.len() && (#[trigger] f[i]).0.id == id;
            assert(m[f.len() - 1 - i] == f[i]);
        }
        if access_ids(b).contains(id) {
            let i = choose|i: int| 0 <= i < b.len() && (#[trigger] b[i]).0.id == id;
            assert(m[f.len() + i] == b[i]);
        }
    }
    assert(access_ids(m) =~= access_ids(f).union(access_ids(b)));
}

/// The tuple of a table scan reads each scanned IU through the scanned table.
proof fn lemma_scan_tuple(ctx: TupleCtx, ius: Seq<IURef>, set: Seq<IURef>, table_var: Seq<char>)
    requires
        ius.to_multiset() == set.to_multiset(),
        forall|j: int| 0 <= j < ius.len() ==> first_code(ctx.exprs@, (#[trigger] ius[j]).id) is Some,
        ctx.exprs@.len() == ctx.access@.len(),
        forall|i: int| 0 <= i < ctx.exprs@.len() ==> (#[trigger] ctx.exprs@[i]).0 == ctx.access@[i].0,
        forall|i: int| 0 <= i < ctx.access@.len() ==> (#[trigger] ctx.access@[i]).1.0@ == table_var,
        ctx.row_id_tables@.len() == 1,
        ctx.row_id_tables@[0]@ == table_var,
    ensures
        tuple_ok(ctx),
        iu_ids(set).subset_of(ctx_ids(ctx)),
{
    broadcast use vstd::seq_lib::group_to_multiset_ensures;

    assert forall|id: u64| iu_ids(set).contains(id) implies ctx_ids(ctx).contains(id) by {
        let i = choose|i: int| 0 <= i < set.len() && (#[trigger] set[i]).id == id;
        let x = set[i];
        assert(set.contains(x));
        assert(ius.to_multiset().count(x) > 0);
        assert(ius.contains(x));
        let j = choose|j: int| 0 <= j < ius.len() && ius[j] == x;
        assert(first_code(ctx.exprs@, ius[j].id) is Some);
    }
    assert forall|id: u64| ctx_ids(ctx).contains(id) <==> access_ids(ctx.access@).contains(id) by {
        lemma_first_code(ctx.exprs@, id);
        if access_ids(ctx.access@).contains(id) {
            let i = choose|i: int| 0 <= i < ctx.access@.len() && (#[trigger] ctx.access@[i]).0.id == id;
            assert(ctx.exprs@[i].0 == ctx.access@[i].0);
        }
        if ctx_ids(ctx).contains(id) {
            let i = choose|i: int| 0 <= i < ctx.exprs@.len() && (#[trigger] ctx.exprs@[i]).0.id == id;
            assert(ctx.exprs@[i].0 == ctx.access@[i].0);
        }
    }
    assert(ctx_ids(ctx) =~= access_ids(ctx.access@));
    assert forall|i: int| 0 <= i < ctx.access@.len() implies first_position(
        ctx.row_id_tables@,
        (#[trigger] ctx.access@[i]).1.0@,
    ) is Some by {
        assert(ctx.access@[i].1.0@ == table_var);
    }
}

/// A predicate that can be coded for the IUs of a tuple is coded without error.
proof fn lemma_sel_ok_codes(b: BinaryExpression, ctx: TupleCtx)
    requires
        sel_ok(b, ctx_ids(ctx)),
    ensures
        predicate_codable(b, ctx),
        predicate_code(b, ctx) is Ok,
{
    match column_literal(b) {
        Some((iu, _, _)) => {
            assert(ctx_ids(ctx).contains(iu.id));
        },
        None => {
            match b.l {
                Expression::IURef(iu) => {
                    assert(ctx_ids(ctx).contains(iu.id));
                },
                _ => {},
            }
            match b.r {
                Expression::IURef(iu) => {
                    assert(ctx_ids(ctx).contains(iu.id));
                },
                _ => {},
            }
        },
    }
}

/// The text `t` grew from `t0`: `head` follows right after `t0`, and `t` ends
/// with `tail`.
pub open spec fn text_framed(t: Seq<char>, t0: Seq<char>, head: Seq<char>, tail: Seq<char>) -> bool {
    &&& t0.len() + head.len() + tail.len() <= t.len()
    &&& t.subrange(0, (t0.len() + head.len()) as int) == t0 + head
    &&& t.subrange(t.len() - tail.len(), t.len() as int) == tail
}

/// The generated code grew from that of `cg0`: `head` follows right after it,
/// and it ends with `tail`.
pub open spec fn framed(cg: Codegen, cg0: Codegen, head: Seq<char>, tail: Seq<char>) -> bool {
    text_framed(cg.target_text(), cg0.target_text(), head, tail)
}

proof fn lemma_framed_none(t: Seq<char>)
    ensures
        text_framed(t, t, Seq::empty(), Seq::empty()),
{
    assert(t.subrange(0, t.len() as int) =~= t + Seq::<char>::empty());
    assert(t.subrange(t.len() as int, t.len() as int) =~= Seq::<char>::empty());
}

proof fn lemma_framed_append(t0: Seq<char>, x: Seq<char>)
    ensures
        text_framed(t0 + x, t0, x, Seq::empty()),
{
    assert((t0 + x).subrange(0, (t0.len() + x.len()) as int) =~= t0 + x);
    assert((t0 + x).subrange((t0 + x).len() as int, (t0 + x).len() as int) =~= Seq::<char>::empty());
}

proof fn lemma_framed_weaken(t: Seq<char>, t0: Seq<char>, h: Seq<char>, tl: Seq<char>)
    requires
        text_framed(t, t0, h, tl),
    ensures
        text_framed(t, t0, Seq::empty(), Seq::empty()),
{
    assert(t.subrange(0, t0.len() as int) =~= t.subrange(0, (t0.len() + h.len()) as int).subrange(
        0,
        t0.len() as int,
    ));
    assert((t0 + h).subrange(0, t0.len() as int) =~= t0);
    assert(t.subrange(t.len() as int, t.len() as int) =~= Seq::<char>::empty());
    assert(t0 + Seq::<char>::empty() =~= t0);
}

proof fn lemma_framed_before(t0: Seq<char>, t1: Seq<char>, t2: Seq<char>, x: Seq<char>, h: Seq<char>, tl: Seq<char>)
    requires
        t1 == t0 + x,
        text_framed(t2, t1, h, tl),
    ensures
        text_framed(t2, t0, x + h, tl),
{
    assert(t0 + (x + h) =~= t1 + h);
}

proof fn lemma_framed_after(t0: Seq<char>, t1: Seq<char>, t2: Seq<char>, h: Seq<char>, tl: Seq<char>, y: Seq<char>)
    requires
        text_framed(t1, t0, h, tl),
        t2 == t1 + y,
    ensures
        text_framed(t2, t0, h, tl + y),
{
    assert(t2.subrange(0, (t0.len() + h.len()) as int) =~= t1.subrange(0, (t0.len() + h.len()) as int));
    assert(t2.subrange(t2.len() - (tl + y).len(), t2.len() as int) =~= t1.subrange(
        t1.len() - tl.len(),
        t1.len() as int,
    ) + y);
}

proof fn lemma_framed_nest(
    t0: Seq<char>,
    t1: Seq<char>,
    t2: Seq<char>,
    h1: Seq<char>,
    tl1: Seq<char>,
    h2: Seq<char>,
    tl2: Seq<char>,
)
    requires
        text_framed(t1, t0, h1, tl1),
        text_framed(t2, t1, h2, tl2),
    ensures
        text_framed(t2, t0, h1, tl2),
{
    assert(t2.subrange(0, (t0.len() + h1.len()) as int) =~= t1.subrange(0, (t0.len() + h1.len()) as int)) by {
        assert forall|i: int| 0 <= i < t0.len() + h1.len() implies #[trigger] t2[i] == t1[i] by {
            assert(t2.subrange(0, (t1.len() + h2.len()) as int)[i] == (t1 + h2)[i]);
        }
    }
}

proof fn lemma_weight_push(cs: Seq<Consumer>, c: Consumer)
    ensures
        consumers_weight(cs.push(c)) == consumers_weight(cs) + consumer_weight(c),
{
    assert(cs.push(c).drop_last() =~= cs);
}

proof fn lemma_slots_push(cs: Seq<Consumer>, c: Consumer, n: nat)
    requires
        slots_ok(cs, n),
        consumer_ok(c, n),
    ensures
        slots_ok(cs.push(c), n),
{
    assert forall|i: int| 0 <= i < cs.push(c).len() implies consumer_ok(#[trigger] cs.push(c)[i], n) by {
        if i < cs.len() {
            assert(cs.push(c)[i] == cs[i]);
        }
    }
}

proof fn lemma_slots_grow(cs: Seq<Consumer>, n: nat, m: nat)
    requires
        slots_ok(cs, n),
        n <= m,
    ensures
        slots_ok(cs, m),
{
}

proof fn lemma_slots_drop_last(cs: Seq<Consumer>, n: nat)
    requires
        slots_ok(cs, n),
        cs.len() > 0,
    ensures
        slots_ok(cs.drop_last(), n),
{
    assert forall|i: int| 0 <= i < cs.drop_last().len() implies consumer_ok(#[trigger] cs.drop_last()[i], n) by {
        assert(cs.drop_last()[i] == cs[i]);
    }
}

/// A copy of a tuple's entries with `entries` put in front, so that they take
/// the place of earlier entries of the same IUs.
#[verifier::rlimit(30)]
fn merge_access(front: &Vec<(IURef, (String, String))>, back: &Vec<(IURef, (String, String))>) -> (r: Vec<
    (IURef, (String, String)),
>)
    ensures
        r@ == front@.reverse() + back@,
{
    let mut r = dup_access(back);
    let mut i: usize = 0;
    while i < front.len()
        invariant
            i <= front@.len(),
            r@ == front@.take(i as int).reverse() + back@,
        decreases front@.len() - i,
    {
        let e = &front[i];
        let x = (e.0.dup(), (e.1.0.clone(), e.1.1.clone()));
        assert(x == front@[i as int]);
        r.insert(0, x);
        assert(front@.take(i + 1).reverse() =~= seq![front@[i as int]] + front@.take(i as int).reverse());
        assert(r@ =~= front@.take(i + 1).reverse() + back@);
        i = i + 1;
    }
    assert(front@.take(i as int) =~= front@);
    r
}

/// The texts of `a` followed by those of `b`.
fn concat_strings(a: &Vec<String>, b: &Vec<String>) -> (r: Vec<String>)
    ensures
        r@ == a@ + b@,
{
    let mut r = dup_strings(a);
    let mut c = dup_strings(b);
    r.append(&mut c);
    r
}

/// The texts joined with `", "` between them.
pub open spec fn comma_text(parts: Seq<Seq<char>>) -> Seq<char>
    decreases parts.len(),
{
    if parts.len() == 0 {
        Seq::empty()
    } else if parts.len() == 1 {
        parts[0]
    } else {
        comma_text(parts.drop_last()) + ", "@ + parts.last()
    }
}

/// The texts of the strings.
pub open spec fn texts_of(parts: Seq<String>) -> Seq<Seq<char>> {
    parts.map_values(|p: String| p@)
}

/// The texts joined with `", "` between them.
fn join_comma(parts: &Vec<String>) -> (s: String)
    ensures
        s@ == comma_text(texts_of(parts@)),
{
    let mut s = String::new();
    let mut i: usize = 0;
    while i < parts.len()
        invariant
            i <= parts@.len(),
            s@ == comma_text(texts_of(parts@.take(i as int))),
        decreases parts@.len() - i,
    {
        let ghost prev = texts_of(parts@.take(i as int));
        if i > 0 {
            s.append(", ");
        }
        s.append(parts[i].as_str());
        proof {
            let next = texts_of(parts@.take(i + 1));
            assert(next.drop_last() =~= prev);
            assert(next.last() == parts@[i as int]@);
            if i == 0 {
                assert(next.len() == 1);
            }
        }
        i = i + 1;
    }
    assert(parts@.take(i as int) =~= parts@);
    s
}

/// The tuple of two joined tuples: its row ids in `var`, the row-id tables of
/// the first (left or build) tuple followed by those of the second, the
/// second's access entries (last first) followed by the first's, and each
/// IU's code read back through the joined row ids.
pub open spec fn tuple_merged(
    m: TupleCtx,
    var: Seq<char>,
    first_tables: Seq<String>,
    first_access: Seq<(IURef, (String, String))>,
    second: TupleCtx,
) -> bool {
    &&& m.row_ids_expr@ == var
    &&& m.row_id_tables@ == first_tables + second.row_id_tables@
    &&& m.access@ == second.access@.reverse() + first_access
    &&& m.exprs@.len() == m.access@.len()
    &&& forall|i: int|
        0 <= i < m.exprs@.len() ==> {
            &&& (#[trigger] m.exprs@[i]).0 == m.access@[i].0
            &&& crate::algebra::join::rebuilt_expr(var, m.row_id_tables@, m.access@[i]) == Some(m.exprs@[i].1@)
        }
}

impl Join {
    /// Joins a tuple with a first one, given by its row-id tables and access
    /// entries: the row ids go in `var`, and every IU is read back through
    /// them; an IU whose table is not among the row-id tables is an error.
    pub fn merge_tuple(
        &self,
        var: &str,
        first_tables: &Vec<String>,
        first_access: &Vec<(IURef, (String, String))>,
        second: &TupleCtx,
    ) -> (r: Result<TupleCtx, PlanError>)
        ensures
            match r {
                Ok(m) => tuple_merged(m, var@, first_tables@, first_access@, *second),
                Err(_) => exists|i: int|
                    0 <= i < (second.access@.reverse() + first_access@).len() && first_position(
                        first_tables@ + second.row_id_tables@,
                        (#[trigger] (second.access@.reverse() + first_access@)[i]).1.0@,
                    ) is None,
            },
    {
        let merged_tables = concat_strings(first_tables, &second.row_id_tables);
        let merged_access = merge_access(&second.access, first_access);
        self.rebuild_ctx_from_row_ids(var, &merged_tables, &merged_access)
    }
}

/// The text that a waiting consumer writes first for a tuple handed to it,
/// at indentation `ind` with fresh variables numbered from `tmp`: a
/// selection's test, the print's lines, a build tuple's insertion, a probe's
/// loop over the matches with the joined row ids, a cross join's joined row
/// ids (a cross join's left tuple starts with the right input's code).
pub open spec fn consumer_head(c: Consumer, ctx: TupleCtx, ind: nat, tmp: usize) -> Seq<char> {
    match c {
        Consumer::Select(s) => match predicate_code(s.binary_exp, ctx) {
            Ok((setup, cond)) => select_head(setup, cond, ind),
            Err(_) => Seq::empty(),
        },
        Consumer::Print(p) => print_consume_text(*p, ctx, ind),
        Consumer::Join(j, input) => match input {
            JoinInput::CrossLeft => Seq::empty(),
            JoinInput::CrossRight(lc) => line_text(
                ind,
                concat_ids_line(var_text("row_ids_"@, tmp), lc.row_ids_expr@, ctx.row_ids_expr@),
            ),
            JoinInput::Build { builder, .. } => match build_keys(*j, ctx) {
                Some(keys) => line_text(ind, build_insert_line(builder@, keys, ctx.row_ids_expr@)),
                None => Seq::empty(),
            },
            JoinInput::Probe { map, .. } => match probe_keys(*j, ctx) {
                Some(keys) => probe_head(map@, keys, ctx.row_ids_expr@, tmp, ind),
                None => Seq::empty(),
            },
        },
    }
}

/// The text that a waiting consumer writes last for a tuple: the closing
/// brace of a selection's test or of a probe's loop.
pub open spec fn consumer_tail(c: Consumer, ind: nat) -> Seq<char> {
    match c {
        Consumer::Select(_) => line_text(ind, "}"@),
        Consumer::Join(_, JoinInput::Probe { .. }) => line_text(ind, "}"@),
        _ => Seq::empty(),
    }
}

/// The head and tail of the innermost waiting consumer, if there is one.
pub open spec fn waiting_head(cs: Seq<Consumer>, ctx: TupleCtx, ind: nat, tmp: usize) -> Seq<char> {
    if cs.len() == 0 {
        Seq::empty()
    } else {
        consumer_head(cs.last(), ctx, ind, tmp)
    }
}

/// The tail of the innermost waiting consumer, if there is one.
pub open spec fn waiting_tail(cs: Seq<Consumer>, ind: nat) -> Seq<char> {
    if cs.len() == 0 {
        Seq::empty()
    } else {
        consumer_tail(cs.last(), ind)
    }
}

/// Hands a tuple to the innermost waiting consumer.
#[verifier::spinoff_prover]
#[verifier::rlimit(60)]
pub fn consume_tuple<'a>(
    cg: &mut Codegen,
    conts: &mut Vec<Consumer<'a>>,
    ctx: TupleCtx,
    templates: &mut Vec<Option<BuildTemplate>>,
) -> (r: Result<(), PlanError>)
    requires
        old(cg).indent + 2 * consumers_weight(old(conts)@) < usize::MAX,
        slots_ok(old(conts)@, old(templates)@.len()),
    ensures
        r is Ok ==> {
            &&& kept(*final(cg), *old(cg))
            &&& final(conts)@ == old(conts)@
            &&& final(templates)@.len() >= old(templates)@.len()
            &&& framed(*final(cg), *old(cg), Seq::empty(), Seq::empty())
            &&& layouts_kept(old(conts)@, old(templates)@, final(templates)@)
        },
        r is Ok ==> framed(
            *final(cg),
            *old(cg),
            waiting_head(old(conts)@, ctx, old(cg).indent as nat, old(cg).tmp_counter),
            waiting_tail(old(conts)@, old(cg).indent as nat),
        ),
        tuple_ok(ctx) && stack_ready(old(conts)@, old(templates)@) && accepts(old(conts)@, ctx_ids(ctx)) ==> r is Ok
            && built(old(conts)@, final(templates)@),
    decreases consumers_weight(old(conts)@), 1nat,
{
    let ghost t0 = cg.target_text();
    let c = match conts.pop() {
        Some(c) => c,
        None => {
            proof {
                lemma_framed_none(t0);
            }
            return Ok(());
        },
    };
    proof {
        assert(old(conts)@ =~= conts@.push(c));
        lemma_weight_push(conts@, c);
        lemma_slots_drop_last(old(conts)@, old(templates)@.len());
        assert(old(conts)@.drop_last() =~= conts@);
        assert(old(conts)@[old(conts)@.len() - 1] == c);
    }
    let ghost rest = conts@;
    assert(old(conts)@.last() == c);
    match c {
        Consumer::Select(s) => {
            let r = s.consume(cg, conts, ctx, templates);
            conts.push(Consumer::Select(s));
            r
        },
        Consumer::Print(p) => {
            proof {
                if accepts(old(conts)@, ctx_ids(ctx)) {
                    assert forall|k: int| 0 <= k < p.iu_refs_vec@.len() implies ctx.expr_of_spec(
                        (#[trigger] p.iu_refs_vec@[k]).id,
                    ) is Some by {
                        assert(iu_ids(p.iu_refs_vec@).contains(p.iu_refs_vec@[k].id));
                        assert(ctx_ids(ctx).contains(p.iu_refs_vec@[k].id));
                    }
                }
            }
            let r = p.consume(cg, ctx);
            proof {
                if r is Ok {
                    let x = print_consume_text(*p, ctx, old(cg).indent as nat);
                    lemma_framed_append(t0, x);
                    lemma_framed_weaken(cg.target_text(), t0, x, Seq::empty());
                }
            }
            conts.push(Consumer::Print(p));
            r
        },
        Consumer::Join(j, input) => {
            let r = j.consume(cg, conts, ctx, &input, templates);
            proof {
                if r is Ok && input is Build {
                    let x = line_text(
                        old(cg).indent as nat,
                        build_insert_line(input->builder@, build_keys(*j, ctx)->Some_0, ctx.row_ids_expr@),
                    );
                    lemma_framed_append(t0, x);
                }
            }
            conts.push(Consumer::Join(j, input));
            r
        },
    }
}

impl Op {
    /// Generates the code that produces the plan's tuples and hands each of
    /// them to the waiting consumers.
    #[verifier::spinoff_prover]
    #[verifier::rlimit(60)]
    pub fn produce<'a>(
        &'a self,
        cg: &mut Codegen,
        conts: &mut Vec<Consumer<'a>>,
        templates: &mut Vec<Option<BuildTemplate>>,
    ) -> (r: Result<(), PlanError>)
        requires
            print_free(*self),
            old(cg).indent + 2 * (op_size(*self) + consumers_weight(old(conts)@)) < usize::MAX,
            slots_ok(old(conts)@, old(templates)@.len()),
        ensures
            r is Ok ==> {
            &&& kept(*final(cg), *old(cg))
            &&& final(conts)@ == old(conts)@
            &&& final(templates)@.len() >= old(templates)@.len()
            &&& framed(*final(cg), *old(cg), Seq::empty(), Seq::empty())
            &&& layouts_kept(old(conts)@, old(templates)@, final(templates)@)
        },
            stack_ready(old(conts)@, old(templates)@) && prod_ok(*self, old(conts)@) ==> r is Ok && built(
                old(conts)@,
                final(templates)@,
            ),
        decreases op_size(*self) + consumers_weight(old(conts)@), 3nat,
    {
        match self {
            Op::Join(j) => j.produce(cg, conts, templates),
            Op::Select(s) => s.produce(cg, conts, templates),
            Op::TableScan(t) => t.produce(cg, conts, templates),
            Op::Print(_) => Ok(()),
        }
    }
}

impl TableScan {
    /// Generates the parallel loop over the table's rows, and hands each row,
    /// with its IUs read through a row view, to the waiting consumers.
    #[verifier::spinoff_prover]
    #[verifier::rlimit(60)]
    pub fn produce<'a>(
        &'a self,
        cg: &mut Codegen,
        conts: &mut Vec<Consumer<'a>>,
        templates: &mut Vec<Option<BuildTemplate>>,
    ) -> (r: Result<(), PlanError>)
        requires
            old(cg).indent + 2 * (1 + consumers_weight(old(conts)@)) < usize::MAX,
            slots_ok(old(conts)@, old(templates)@.len()),
        ensures
            r is Ok ==> {
            &&& kept(*final(cg), *old(cg))
            &&& final(conts)@ == old(conts)@
            &&& final(templates)@.len() >= old(templates)@.len()
            &&& framed(*final(cg), *old(cg), Seq::empty(), Seq::empty())
            &&& layouts_kept(old(conts)@, old(templates)@, final(templates)@)
            &&& framed(
                *final(cg),
                *old(cg),
                scan_head(
                    table_var_of(*old(cg), self.table_name@).0,
                    table_var_of(*old(cg), self.table_name@).1,
                    old(cg).indent as nat,
                ),
                scan_tail(old(cg).indent as nat),
            )
        },
            stack_ready(old(conts)@, old(templates)@) && accepts(old(conts)@, iu_ids(self.iu_refs_set@)) ==> r is Ok
                && built(old(conts)@, final(templates)@),
        decreases 1 + consumers_weight(old(conts)@), 2nat,
    {
        let ghost t0 = cg.target_text();
        let ghost ind = cg.indent as nat;
        let ghost tv = table_var_of(*cg, self.table_name@);
        cg.line("// TableScan ");
        let ghost t1 = cg.target_text();
        let table_var = cg.get_and_declare_table(self.table_name.as_str());
        let rows_var = cg.new_var("rows_");
        let row_var = cg.new_var("row_");
        let view_var = cg.new_var("view_");
        let row_ids_var = cg.new_var("row_ids_");
        assert(table_var@ == tv.0);
        let ius = sort_by_name(crate::algebra::iu::dup_all(&self.iu_refs_set));
        let mut exprs: Vec<(IURef, String)> = Vec::new();
        let mut access: Vec<(IURef, (String, String))> = Vec::new();
        let ghost cg0 = *cg;
        let mut k: usize = 0;
        while k < ius.len()
            invariant
                k <= ius@.len(),
                kept(*cg, cg0),
                cg.target_text() == cg0.target_text(),
                forall|j: int| 0 <= j < k ==> first_code(exprs@, (#[trigger] ius@[j]).id) is Some,
                exprs@.len() == k,
                access@.len() == k,
                forall|i: int| 0 <= i < k ==> (#[trigger] exprs@[i]).0 == access@[i].0,
                forall|i: int| 0 <= i < k ==> (#[trigger] access@[i]).1.0@ == table_var@,
            decreases ius@.len() - k,
        {
            let iu = &ius[k];
            let col_var = cg.get_and_declare_col(table_var.as_str(), iu.iu.name.as_str());
            let mut expr = String::from_str(view_var.as_str());
            expr.append(".get(");
            expr.append(col_var.as_str());
            expr.append(").unwrap()");
            let ghost e0 = exprs@;
            exprs.insert(0, (iu.dup(), expr));
            proof {
                assert(exprs@.drop_first() =~= e0);
                assert forall|j: int| 0 <= j < k + 1 implies first_code(exprs@, (#[trigger] ius@[j]).id) is Some by {
                    if exprs@[0].0.id != ius@[j].id {
                        assert(j < k);
                    }
                }
            }
            let ghost a0 = access@;
            access.insert(0, (iu.dup(), (table_var.clone(), col_var)));
            proof {
                assert forall|i: int| 0 <= i < k + 1 implies (#[trigger] exprs@[i]).0 == access@[i].0 by {
                    if i > 0 {
                        assert(exprs@[i] == e0[i - 1]);
                        assert(access@[i] == a0[i - 1]);
                    }
                }
                assert forall|i: int| 0 <= i < k + 1 implies (#[trigger] access@[i]).1.0@ == table_var@ by {
                    if i > 0 {
                        assert(access@[i] == a0[i - 1]);
                    }
                }
            }
            k = k + 1;
        }
        let ctx = TupleCtx {
            exprs,
            access,
            row_ids_expr: row_ids_var.clone(),
            row_id_tables: vec![table_var.clone()],
        };
        proof {
            lemma_scan_tuple(ctx, ius@, self.iu_refs_set@, table_var@);
            if accepts(old(conts)@, iu_ids(self.iu_refs_set@)) {
                lemma_accepts_grows(old(conts)@, iu_ids(self.iu_refs_set@), ctx_ids(ctx));
            }
        }
        let mut l1 = String::from_str("(0..");
        l1.append(table_var.as_str());
        l1.append(".num_rows).into_par_iter().chunks(MORSEL_SIZE).for_each( | ");
        l1.append(rows_var.as_str());
        l1.append(" |");
        cg.open(l1.as_str());
        let ghost t2 = cg.target_text();
        let mut l2 = String::from_str("for ");
        l2.append(row_var.as_str());
        l2.append(" in ");
        l2.append(rows_var.as_str());
        l2.append(" ");
        cg.open(l2.as_str());
        let ghost t3 = cg.target_text();
        let mut l3 = String::from_str("let ");
        l3.append(view_var.as_str());
        l3.append(" = RowView{ table: &");
        l3.append(table_var.as_str());
        l3.append(", row_id: ");
        l3.append(row_var.as_str());
        l3.append(" };");
        cg.line(l3.as_str());
        let ghost t4 = cg.target_text();
        let mut l4 = String::from_str("let ");
        l4.append(row_ids_var.as_str());
        l4.append(": Vec<usize> = vec![");
        l4.append(row_var.as_str());
        l4.append("];");
        cg.line(l4.as_str());
        let ghost t5 = cg.target_text();
        consume_tuple(cg, conts, ctx, templates)?;
        let ghost t6 = cg.target_text();
        cg.close();
        let ghost t7 = cg.target_text();
        cg.close();
        let ghost t8 = cg.target_text();
        cg.line(");");
        proof {
            let e = Seq::<char>::empty();
            let x0 = line_text(ind, "// TableScan "@);
            let x1 = line_text(ind, l1@ + " {"@);
            let x2 = line_text(ind + 1, l2@ + " {"@);
            let x3 = line_text(ind + 2, l3@);
            let x4 = line_text(ind + 2, l4@);
            let y1 = line_text(ind + 1, "}"@);
            let y2 = line_text(ind, "}"@);
            let y3 = line_text(ind, ");"@);
            lemma_framed_before(t4, t5, t6, x4, e, e);
            lemma_framed_before(t3, t4, t6, x3, x4 + e, e);
            lemma_framed_before(t2, t3, t6, x2, x3 + (x4 + e), e);
            lemma_framed_before(t1, t2, t6, x1, x2 + (x3 + (x4 + e)), e);
            lemma_framed_before(t0, t1, t6, x0, x1 + (x2 + (x3 + (x4 + e))), e);
            let h = x0 + (x1 + (x2 + (x3 + (x4 + e))));
            lemma_framed_after(t0, t6, t7, h, e, y1);
            lemma_framed_after(t0, t7, t8, h, e + y1, y2);
            lemma_framed_after(t0, t8, cg.target_text(), h, e + y1 + y2, y3);
            assert(h =~= scan_head(tv.0, tv.1, ind));
            assert(e + y1 + y2 + y3 =~= scan_tail(ind));
            lemma_framed_weaken(cg.target_text(), t0, h, e + y1 + y2 + y3);
        }
        Ok(())
    }
}

impl Select {
    /// Generates the child's code, with this selection waiting for its tuples.
    #[verifier::spinoff_prover]
    #[verifier::rlimit(60)]
    pub fn produce<'a>(
        &'a self,
        cg: &mut Codegen,
        conts: &mut Vec<Consumer<'a>>,
        templates: &mut Vec<Option<BuildTemplate>>,
    ) -> (r: Result<(), PlanError>)
        requires
            print_free(*self.child),
            old(cg).indent + 2 * (op_size(Op::Select(*self)) + consumers_weight(old(conts)@))
                < usize::MAX,
            slots_ok(old(conts)@, old(templates)@.len()),
        ensures
            r is Ok ==> {
            &&& kept(*final(cg), *old(cg))
            &&& final(conts)@ == old(conts)@
            &&& final(templates)@.len() >= old(templates)@.len()
            &&& framed(*final(cg), *old(cg), Seq::empty(), Seq::empty())
            &&& layouts_kept(old(conts)@, old(templates)@, final(templates)@)
        },
            stack_ready(old(conts)@, old(templates)@) && prod_ok(Op::Select(*self), old(conts)@) ==> r is Ok && built(
                old(conts)@,
                final(templates)@,
            ),
        decreases op_size(Op::Select(*self)) + consumers_weight(old(conts)@), 2nat,
    {
        conts.push(Consumer::Select(self));
        proof {
            assert(conts@.drop_last() =~= old(conts)@);
            lemma_weight_push(old(conts)@, Consumer::Select(self));
            lemma_slots_push(old(conts)@, Consumer::Select(self), templates@.len());
        }
        let r = self.child.produce(cg, conts, templates);
        conts.pop();
        proof {
            assert(conts@ =~= old(conts)@ || r is Err);
        }
        r
    }

    /// Generates the test of the predicate on the tuple, and inside it hands
    /// the tuple to the waiting consumers.
    #[verifier::spinoff_prover]
    #[verifier::rlimit(60)]
    pub fn consume<'a>(
        &'a self,
        cg: &mut Codegen,
        conts: &mut Vec<Consumer<'a>>,
        ctx: TupleCtx,
        templates: &mut Vec<Option<BuildTemplate>>,
    ) -> (r: Result<(), PlanError>)
        requires
            old(cg).indent + 2 * (consumers_weight(old(conts)@) + 1) < usize::MAX,
            slots_ok(old(conts)@, old(templates)@.len()),
        ensures
            r is Ok ==> {
            &&& kept(*final(cg), *old(cg))
            &&& final(conts)@ == old(conts)@
            &&& final(templates)@.len() >= old(templates)@.len()
            &&& framed(*final(cg), *old(cg), Seq::empty(), Seq::empty())
            &&& layouts_kept(old(conts)@, old(templates)@, final(templates)@)
        },
            !predicate_codable(self.binary_exp, ctx) ==> r == Err::<(), PlanError>(
                PlanError::UnsupportedExpression,
            ),
            predicate_codable(self.binary_exp, ctx) ==> match predicate_code(self.binary_exp, ctx) {
                Ok((setup, cond)) => r is Ok ==> framed(
                    *final(cg),
                    *old(cg),
                    select_head(setup, cond, old(cg).indent as nat),
                    line_text(old(cg).indent as nat, "}"@),
                ),
                Err(e) => r == Err::<(), PlanError>(e),
            },
            tuple_ok(ctx) && stack_ready(old(conts)@, old(templates)@) && sel_ok(self.binary_exp, ctx_ids(ctx)) && accepts(
                old(conts)@,
                ctx_ids(ctx),
            ) ==> r is Ok && built(old(conts)@, final(templates)@),
        decreases consumers_weight(old(conts)@) + 1, 0nat,
    {
        proof {
            if sel_ok(self.binary_exp, ctx_ids(ctx)) {
                lemma_sel_ok_codes(self.binary_exp, ctx);
            }
        }
        let codable = match (&self.binary_exp.l, &self.binary_exp.r) {
            (Expression::IURef(iu), Expression::String(_)) => iu.iu.ty.valid_tag(),
            (Expression::String(_), Expression::IURef(iu)) => iu.iu.ty.valid_tag(),
            _ => self.binary_exp.l.producible_in(&ctx) && self.binary_exp.r.producible_in(&ctx),
        };
        if !codable {
            return Err(PlanError::UnsupportedExpression);
        }
        let (setup, cond) = match self.predicate_to_code(&ctx) {
            Ok(c) => c,
            Err(e) => {
                return Err(e);
            },
        };
        let ghost t0 = cg.target_text();
        let ghost ind = cg.indent as nat;
        cg.line("// Select operator consume");
        let ghost t1 = cg.target_text();
        let ghost sv: Option<Seq<char>> = match &setup {
            Some(x) => Some(x@),
            None => None,
        };
        if let Some(setup_line) = setup {
            cg.line(setup_line.as_str());
        }
        let ghost t2 = cg.target_text();
        let mut l = String::from_str("if ");
        l.append(cond.as_str());
        cg.open(l.as_str());
        let ghost t3 = cg.target_text();
        consume_tuple(cg, conts, ctx, templates)?;
        let ghost t4 = cg.target_text();
        cg.close();
        proof {
            let e = Seq::<char>::empty();
            let x0 = line_text(ind, "// Select operator consume"@);
            let x1 = match sv {
                Some(x) => line_text(ind, x),
                None => e,
            };
            let x2 = line_text(ind, l@ + " {"@);
            assert(t2 =~= t1 + x1);
            lemma_framed_before(t2, t3, t4, x2, e, e);
            lemma_framed_before(t1, t2, t4, x1, x2 + e, e);
            lemma_framed_before(t0, t1, t4, x0, x1 + (x2 + e), e);
            let h = x0 + (x1 + (x2 + e));
            lemma_framed_after(t0, t4, cg.target_text(), h, e, line_text(ind, "}"@));
            assert(h =~= select_head(sv, cond@, ind));
            assert(e + line_text(ind, "}"@) =~= line_text(ind, "}"@));
            lemma_framed_weaken(cg.target_text(), t0, h, e + line_text(ind, "}"@));
        }
        Ok(())
    }
}

impl Print {
    /// Generates the query function: the imports, the function header, the
    /// child's code with this print waiting for its tuples, and the lines
    /// that print the collected output and the number of rows.
    #[verifier::spinoff_prover]
    #[verifier::rlimit(40)]
    pub fn produce<'a>(
        &'a self,
        cg: &mut Codegen,
        conts: &mut Vec<Consumer<'a>>,
        templates: &mut Vec<Option<BuildTemplate>>,
    ) -> (r: Result<(), PlanError>)
        requires
            !old(cg).in_function,
            print_free(*self.child),
            old(cg).indent + 2 * (op_size(Op::Print(*self)) + consumers_weight(old(conts)@))
                < usize::MAX,
            slots_ok(old(conts)@, old(templates)@.len()),
        ensures
            r is Ok ==> {
            &&& kept(*final(cg), *old(cg))
            &&& final(conts)@ == old(conts)@
            &&& final(templates)@.len() >= old(templates)@.len()
            &&& framed(*final(cg), *old(cg), Seq::empty(), Seq::empty())
            &&& layouts_kept(old(conts)@, old(templates)@, final(templates)@)
        },
            r is Ok ==> framed(
                *final(cg),
                *old(cg),
                print_head(old(cg).indent as nat),
                print_tail(old(cg).indent as nat),
            ),
            stack_ready(old(conts)@, old(templates)@) && plan_ok(*self.child) && iu_ids(self.iu_refs_vec@).subset_of(
                op_ius(*self.child),
            ) ==> r is Ok,
        decreases op_size(Op::Print(*self)) + consumers_weight(old(conts)@), 2nat,
    {
        let ghost b0 = cg.buf@;
        let ghost ind = cg.indent as nat;
        cg.line("// Print operator produce");
        cg.line("extern crate imlab;");
        cg.line("use std::error::Error;");
        cg.line("use imlab::db::Database;");
        cg.line("use imlab::db::Value;");
        cg.line("use imlab::types::integer::Integer;");
        cg.line("use imlab::types::text::Text;");
        cg.line("use imlab::types::numeric::Numeric;");
        cg.line("use imlab::types::timestamp::Timestamp;");
        cg.line("use imlab::types::bool::Bool;");
        cg.line("use imlab::db::Key;");
        cg.line("use imlab::infra::map::LazyMultiMapBuilder;");
        cg.line("use imlab::infra::map::LazyMultiMapParBuilder;");
        cg.line("use imlab::db::row::RowView;");
        cg.line("use imlab::db::row::ValueRef;");
        cg.line("use imlab::rayon::prelude::*;");
        cg.line("use imlab::algebra::print::ParOutput;");
        let ghost b1 = cg.buf@;
        assert(b1 =~= b0 + (line_text(ind, "// Print operator produce"@) + line_text(ind, "extern crate imlab;"@) + line_text(ind, "use std::error::Error;"@) + line_text(ind, "use imlab::db::Database;"@) + line_text(ind, "use imlab::db::Value;"@) + line_text(ind, "use imlab::types::integer::Integer;"@) + line_text(ind, "use imlab::types::text::Text;"@) + line_text(ind, "use imlab::types::numeric::Numeric;"@) + line_text(ind, "use imlab::types::timestamp::Timestamp;"@) + line_text(ind, "use imlab::types::bool::Bool;"@) + line_text(ind, "use imlab::db::Key;"@) + line_text(ind, "use imlab::infra::map::LazyMultiMapBuilder;"@) + line_text(ind, "use imlab::infra::map::LazyMultiMapParBuilder;"@) + line_text(ind, "use imlab::db::row::RowView;"@) + line_text(ind, "use imlab::db::row::ValueRef;"@) + line_text(ind, "use imlab::rayon::prelude::*;"@) + line_text(ind, "use imlab::algebra::print::ParOutput;"@)));
        cg.start_function("main_query");
        let ghost b2 = cg.buf@;
        cg.line("let MORSEL_SIZE = 256;");
        cg.line("let out = ParOutput::new();");
        let ghost f1 = cg.func_body@;
        conts.push(Consumer::Print(self));
        proof {
            assert(conts@.last() == Consumer::Print(self));
            lemma_weight_push(old(conts)@, Consumer::Print(self));
            lemma_slots_push(old(conts)@, Consumer::Print(self), templates@.len());
        }
        self.child.produce(cg, conts, templates)?;
        let ghost f2 = cg.func_body@;
        conts.pop();
        cg.line("let (text, rows) = out.finalize();");
        let ghost f3 = cg.func_body@;
        cg.line("print!(\"{}\", text);");
        let ghost f4 = cg.func_body@;
        cg.line("println!(\"\");");
        let ghost f5 = cg.func_body@;
        cg.line("println!(\"Total rows is : {}\", rows);");
        let ghost f6 = cg.func_body@;
        let ghost pre = cg.func_preamble@;
        assert(cg.buf@ == b2);
        cg.end_function();
        proof {
            let e = Seq::<char>::empty();
            let z1 = line_text(ind + 1, "let (text, rows) = out.finalize();"@);
            let z2 = line_text(ind + 1, "print!(\"{}\", text);"@);
            let z3 = line_text(ind + 1, "println!(\"\");"@);
            let z4 = line_text(ind + 1, "println!(\"Total rows is : {}\", rows);"@);
            lemma_framed_after(f1, f2, f3, e, e, z1);
            lemma_framed_after(f1, f3, f4, e, e + z1, z2);
            lemma_framed_after(f1, f4, f5, e, e + z1 + z2, z3);
            lemma_framed_after(f1, f5, f6, e, e + z1 + z2 + z3, z4);
            let y = line_text(1, "rows as i32"@) + line_text(ind, "}"@);
            let h = print_head(ind);
            let m = crate::codegen::preamble_text(pre);
            assert(b2 =~= b0 + h);
            assert(cg.buf@ =~= b0 + h + m + f6 + y);
            lemma_framed_wrap(b0, h, m, f6, f1, e, e + z1 + z2 + z3 + z4, y);
            assert(e + z1 + z2 + z3 + z4 + y =~= print_tail(ind));
            lemma_framed_weaken(cg.buf@, b0, h, print_tail(ind));
        }
        Ok(())
    }

    /// Generates the lines that format the printed IUs of the tuple and add
    /// them to the output; an IU that the tuple does not hold is an error.
    pub fn consume(&self, cg: &mut Codegen, ctx: TupleCtx) -> (r: Result<(), PlanError>)
        ensures
            has_codes(self.iu_refs_vec@, ctx) ==> r is Ok && final(cg).appended(
                old(cg),
                print_consume_text(*self, ctx, old(cg).indent as nat),
            ),
            !has_codes(self.iu_refs_vec@, ctx) ==> (r matches Err(PlanError::UnknownIU(n)) && exists|k: int|
                0 <= k < self.iu_refs_vec@.len() && ctx.expr_of_spec((#[trigger] self.iu_refs_vec@[k]).id)
                    is None && n@ == self.iu_refs_vec@[k].iu.name@ && has_codes(self.iu_refs_vec@.take(k), ctx)),
    {
        let ghost cg_start = *cg;
        let ghost ind = cg.indent as nat;
        cg.line("// Print operator consume");
        let mut curly = String::new();
        let mut i: usize = 0;
        while i < self.iu_refs_set.len()
            invariant
                i <= self.iu_refs_set@.len(),
                curly@ == repeat_text("{} | "@, i as nat),
            decreases self.iu_refs_set@.len() - i,
        {
            curly.append("{} | ");
            i = i + 1;
        }
        let mut l = String::from_str("let line = format!(\" ");
        l.append(curly.as_str());
        l.append(" \", ");
        let ghost cg1 = *cg;
        cg.line(l.as_str());
        proof {
            Codegen::lemma_appended_chain(&cg_start, &cg1, cg, line_text(ind, "// Print operator consume"@), line_text(ind, l@));
            assert(l@ == "let line = format!(\" "@ + repeat_text("{} | "@, self.iu_refs_set@.len()) + " \", "@);
        }
        let ghost cg0 = *cg;
        let ghost head = line_text(ind, "// Print operator consume"@) + line_text(ind, l@);
        let mut k: usize = 0;
        while k < self.iu_refs_vec.len()
            invariant
                k <= self.iu_refs_vec@.len(),
                ind == cg_start.indent,
                cg.appended(&cg_start, head + print_args_text(self.iu_refs_vec@.take(k as int), ctx, ind)),
                has_codes(self.iu_refs_vec@.take(k as int), ctx),
            decreases self.iu_refs_vec@.len() - k,
        {
            let iu = &self.iu_refs_vec[k];
            let expr = match ctx.expr_of(iu.id) {
                Some(e) => e,
                None => {
                    assert(ctx.expr_of_spec(self.iu_refs_vec@[k as int].id) is None);
                    return Err(PlanError::UnknownIU(iu.iu.name.clone()));
                },
            };
            let mut e = expr;
            e.append(",  ");
            let ghost before = *cg;
            cg.line(e.as_str());
            proof {
                let ius = self.iu_refs_vec@;
                assert(ius.take(k + 1).drop_last() =~= ius.take(k as int));
                assert(ius.take(k + 1).last() == ius[k as int]);
                Codegen::lemma_appended_chain(
                    &cg_start,
                    &before,
                    cg,
                    head + print_args_text(ius.take(k as int), ctx, ind),
                    line_text(ind, e@),
                );
                assert(head + print_args_text(ius.take(k as int), ctx, ind) + line_text(ind, e@) =~= head
                    + print_args_text(ius.take(k + 1), ctx, ind));
                assert forall|j: int| 0 <= j < k + 1 implies ctx.expr_of_spec(
                    (#[trigger] ius.take(k + 1)[j]).id,
                ) is Some by {
                    if j < k {
                        assert(ius.take(k + 1)[j] == ius.take(k as int)[j]);
                    }
                }
            }
            k = k + 1;
        }
        proof {
            assert(self.iu_refs_vec@.take(k as int) =~= self.iu_refs_vec@);
        }
        let ghost cg2 = *cg;
        cg.line(");");
        let ghost cg3 = *cg;
        cg.line("out.push_line(&line);");
        proof {
            let args = print_args_text(self.iu_refs_vec@, ctx, ind);
            Codegen::lemma_appended_chain(&cg_start, &cg2, &cg3, head + args, line_text(ind, ");"@));
            Codegen::lemma_appended_chain(
                &cg_start,
                &cg3,
                cg,
                head + args + line_text(ind, ");"@),
                line_text(ind, "out.push_line(&line);"@),
            );
        }
        Ok(())
    }
}

impl Join {
    /// Generates a cross join's nested loops, or an inner join's hash table:
    /// the build side's code inserting its tuples, then the probe side's code
    /// looking up their matches.
    #[verifier::spinoff_prover]
    #[verifier::rlimit(60)]
    pub fn produce<'a>(
        &'a self,
        cg: &mut Codegen,
        conts: &mut Vec<Consumer<'a>>,
        templates: &mut Vec<Option<BuildTemplate>>,
    ) -> (r: Result<(), PlanError>)
        requires
            print_free(*self.left_child),
            print_free(*self.right_child),
            old(cg).indent + 2 * (op_size(Op::Join(*self)) + consumers_weight(old(conts)@))
                < usize::MAX,
            slots_ok(old(conts)@, old(templates)@.len()),
        ensures
            r is Ok ==> {
            &&& kept(*final(cg), *old(cg))
            &&& final(conts)@ == old(conts)@
            &&& final(templates)@.len() >= old(templates)@.len()
            &&& framed(*final(cg), *old(cg), Seq::empty(), Seq::empty())
            &&& layouts_kept(old(conts)@, old(templates)@, final(templates)@)
        },
            r is Ok && self.join_type is Inner ==> framed(
                *final(cg),
                *old(cg),
                hash_join_head(var_text("builder_"@, old(cg).tmp_counter), old(cg).indent as nat),
                Seq::empty(),
            ),
            stack_ready(old(conts)@, old(templates)@) && prod_ok(Op::Join(*self), old(conts)@) ==> r is Ok && built(
                old(conts)@,
                final(templates)@,
            ),
        decreases op_size(Op::Join(*self)) + consumers_weight(old(conts)@), 2nat,
    {
        match self.join_type {
            JoinType::Cross => {
                conts.push(Consumer::Join(self, JoinInput::CrossLeft));
                proof {
                    assert(conts@.drop_last() =~= old(conts)@);
                    assert(op_ius(Op::Join(*self)) == op_ius(*self.left_child).union(op_ius(*self.right_child)));
                    lemma_weight_push(old(conts)@, Consumer::Join(self, JoinInput::CrossLeft));
                    lemma_slots_push(old(conts)@, Consumer::Join(self, JoinInput::CrossLeft), templates@.len());
                }
                let r = self.left_child.produce(cg, conts, templates);
                conts.pop();
                proof {
                    assert(conts@ =~= old(conts)@ || r is Err);
                }
                r
            },
            JoinType::Inner => {
                let ghost ok = stack_ready(old(conts)@, old(templates)@) && prod_ok(Op::Join(*self), old(conts)@);
                let ghost t0 = cg.target_text();
                let ghost ind = cg.indent as nat;
                let builder_name = cg.new_var("builder_");
                let map_name = cg.new_var("map_");
                cg.line("// Using LazyMultiMap ");
                let ghost t1 = cg.target_text();
                let mut l = String::from_str("let mut ");
                l.append(builder_name.as_str());
                l.append(": LazyMultiMapParBuilder<Vec<ValueRef>, Vec<usize>> = LazyMultiMapParBuilder::new();");
                cg.line(l.as_str());
                let ghost t2 = cg.target_text();
                let slot = templates.len();
                templates.push(None);
                let ghost ts1 = templates@;
                proof {
                    lemma_slots_grow(old(conts)@, old(templates)@.len(), templates@.len());
                    if ok {
                        assert forall|k: int| 0 <= k < old(templates)@.len() implies #[trigger] ts1[k]
                            == old(templates)@[k] by {}
                        lemma_ready_unchanged(old(conts)@, old(templates)@, ts1);
                    }
                }
                cg.line("// Build Phase ");
                let ghost t3 = cg.target_text();
                let build = Consumer::Join(self, JoinInput::Build { builder: builder_name.clone(), slot });
                conts.push(build);
                let ghost bstk = conts@;
                proof {
                    lemma_weight_push(old(conts)@, Consumer::Join(self, JoinInput::Build { builder: builder_name, slot }));
                    lemma_slots_push(old(conts)@, Consumer::Join(self, JoinInput::Build { builder: builder_name, slot }), templates@.len());
                    assert(bstk.drop_last() =~= old(conts)@);
                    assert(bstk.last() == Consumer::Join(self, JoinInput::Build { builder: builder_name, slot }));
                    assert(first_build(bstk) == Some((*self, slot)));
                    if ok {
                        lemma_ready_push(
                            old(conts)@,
                            ts1,
                            Consumer::Join(self, JoinInput::Build { builder: builder_name, slot }),
                            old(templates)@.len() as nat,
                        );
                        assert(accepts(bstk, op_ius(*self.left_child)));
                        assert(prod_ok(*self.left_child, bstk));
                    }
                }
                self.left_child.produce(cg, conts, templates)?;
                let ghost ts2 = templates@;
                proof {
                    assert forall|k: int| 0 <= k < old(templates)@.len() implies #[trigger] ts2[k]
                        == old(templates)@[k] by {
                        assert(ts2[k] == ts1[k] || (ts1[k] is None && (first_build(bstk) matches Some((_, sl)) && k == sl)));
                    }
                }
                let ghost t4 = cg.target_text();
                conts.pop();
                assert(conts@ =~= old(conts)@);
                let mut f = String::from_str("let ");
                f.append(map_name.as_str());
                f.append(" = ");
                f.append(builder_name.as_str());
                f.append(".finalize();");
                cg.line(f.as_str());
                let ghost t5 = cg.target_text();
                cg.line("// Probe Phase ");
                let ghost t6 = cg.target_text();
                let probe = Consumer::Join(self, JoinInput::Probe { map: map_name, slot });
                proof {
                    lemma_weight_push(old(conts)@, probe);
                    lemma_slots_grow(old(conts)@, old(templates)@.len(), templates@.len());
                    lemma_slots_push(old(conts)@, probe, templates@.len());
                }
                conts.push(probe);
                let ghost pstk = conts@;
                proof {
                    assert(pstk.drop_last() =~= old(conts)@);
                    assert(pstk.last() == probe);
                    assert(first_build(pstk) == first_build(old(conts)@));
                    if ok {
                        lemma_ready_unchanged(old(conts)@, old(templates)@, ts2);
                        assert(consumer_ready(probe, ts2));
                        lemma_ready_push(old(conts)@, ts2, probe, old(templates)@.len() as nat);
                        assert(op_ius(Op::Join(*self)) == op_ius(*self.left_child).union(op_ius(*self.right_child)));
                        assert(accepts(pstk, op_ius(*self.right_child)));
                    }
                }
                self.right_child.produce(cg, conts, templates)?;
                conts.pop();
                assert(conts@ =~= old(conts)@);
                proof {
                    let e = Seq::<char>::empty();
                    let x1 = line_text(ind, "// Using LazyMultiMap "@);
                    let x2 = line_text(ind, l@);
                    let x3 = line_text(ind, "// Build Phase "@);
                    lemma_framed_before(t2, t3, t4, x3, e, e);
                    lemma_framed_before(t1, t2, t4, x2, x3 + e, e);
                    lemma_framed_before(t0, t1, t4, x1, x2 + (x3 + e), e);
                    let h = x1 + (x2 + (x3 + e));
                    let y1 = line_text(ind, f@);
                    let y2 = line_text(ind, "// Probe Phase "@);
                    lemma_framed_after(t0, t4, t5, h, e, y1);
                    lemma_framed_after(t0, t5, t6, h, e + y1, y2);
                    lemma_framed_nest(t0, t6, cg.target_text(), h, e + y1 + y2, e, e);
                    assert(h =~= hash_join_head(var_text("builder_"@, old(cg).tmp_counter), ind));
                    lemma_framed_weaken(cg.target_text(), t0, h, e);
                }
                Ok(())
            },
        }
    }

    /// Generates what the join does with a tuple of one of its inputs: for a
    /// cross join's left tuple, the right input's loops; for its right tuple,
    /// the combined tuple handed up; for a build tuple, its insertion into the
    /// hash table; for a probe tuple, the loop over its matches.
    #[verifier::spinoff_prover]
    #[verifier::rlimit(60)]
    pub fn consume<'a>(
        &'a self,
        cg: &mut Codegen,
        conts: &mut Vec<Consumer<'a>>,
        ctx: TupleCtx,
        input: &JoinInput,
        templates: &mut Vec<Option<BuildTemplate>>,
    ) -> (r: Result<(), PlanError>)
        requires
            print_free(*self.right_child),
            old(cg).indent + 2 * (consumers_weight(old(conts)@) + consumer_weight(
                Consumer::Join(self, *input),
            )) < usize::MAX,
            slots_ok(old(conts)@, old(templates)@.len()),
            match *input {
                JoinInput::Build { slot, .. } => slot < old(templates)@.len(),
                JoinInput::Probe { slot, .. } => slot < old(templates)@.len(),
                _ => true,
            },
        ensures
            r is Ok ==> {
            &&& kept(*final(cg), *old(cg))
            &&& final(conts)@ == old(conts)@
            &&& final(templates)@.len() >= old(templates)@.len()
            &&& framed(*final(cg), *old(cg), Seq::empty(), Seq::empty())
            &&& layouts_kept(old(conts)@.push(Consumer::Join(self, *input)), old(templates)@, final(templates)@)
        },
            input matches JoinInput::Build { builder, slot } ==> match build_keys(*self, ctx) {
                Some(keys) => {
                    &&& r is Ok
                    &&& final(cg).appended(
                        old(cg),
                        line_text(old(cg).indent as nat, build_insert_line(builder@, keys, ctx.row_ids_expr@)),
                    )
                    &&& final(templates)@[slot as int] is Some
                },
                None => r is Err,
            },
            input matches JoinInput::CrossRight(lc) ==> (r is Ok ==> framed(
                *final(cg),
                *old(cg),
                line_text(
                    old(cg).indent as nat,
                    concat_ids_line(var_text("row_ids_"@, old(cg).tmp_counter), lc.row_ids_expr@, ctx.row_ids_expr@),
                ),
                Seq::empty(),
            )),
            input matches JoinInput::CrossRight(lc) ==> (r is Ok ==> exists|m: TupleCtx|
                #[trigger] tuple_merged(
                    m,
                    var_text("row_ids_"@, old(cg).tmp_counter),
                    lc.row_id_tables@,
                    lc.access@,
                    ctx,
                ) && framed(
                    *final(cg),
                    *old(cg),
                    line_text(
                        old(cg).indent as nat,
                        concat_ids_line(var_text("row_ids_"@, old(cg).tmp_counter), lc.row_ids_expr@, ctx.row_ids_expr@),
                    ) + waiting_head(old(conts)@, m, old(cg).indent as nat, old(cg).tmp_counter.wrapping_add(1)),
                    waiting_tail(old(conts)@, old(cg).indent as nat),
                )),
            input matches JoinInput::Probe { map, slot } ==> (r is Ok ==> exists|m: TupleCtx|
                #[trigger] tuple_merged(
                    m,
                    var_text("row_ids_"@, old(cg).tmp_counter.wrapping_add(1)),
                    old(templates)@[slot as int]->Some_0.row_id_tables@,
                    old(templates)@[slot as int]->Some_0.access@,
                    ctx,
                ) && framed(
                    *final(cg),
                    *old(cg),
                    probe_head(
                        map@,
                        probe_keys(*self, ctx)->Some_0,
                        ctx.row_ids_expr@,
                        old(cg).tmp_counter,
                        old(cg).indent as nat,
                    ) + waiting_head(
                        old(conts)@,
                        m,
                        old(cg).indent as nat + 1,
                        old(cg).tmp_counter.wrapping_add(1).wrapping_add(1),
                    ),
                    waiting_tail(old(conts)@, old(cg).indent as nat + 1) + line_text(old(cg).indent as nat, "}"@),
                )),
            input matches JoinInput::Probe { map, slot } ==> match probe_keys(*self, ctx) {
                Some(keys) => {
                    &&& old(templates)@[slot as int] is None ==> r == Err::<(), PlanError>(
                        PlanError::NoBuildTemplate,
                    )
                    &&& r is Ok ==> framed(
                        *final(cg),
                        *old(cg),
                        probe_head(map@, keys, ctx.row_ids_expr@, old(cg).tmp_counter, old(cg).indent as nat),
                        line_text(old(cg).indent as nat, "}"@),
                    )
                },
                None => r is Err,
            },
            tuple_ok(ctx) && stack_ready(old(conts)@.push(Consumer::Join(self, *input)), old(templates)@) && accepts(
                old(conts)@.push(Consumer::Join(self, *input)),
                ctx_ids(ctx),
            ) ==> r is Ok && built(old(conts)@.push(Consumer::Join(self, *input)), final(templates)@),
        decreases consumers_weight(old(conts)@) + consumer_weight(Consumer::Join(self, *input)), 0nat,
    {
        proof {
            let stk0 = old(conts)@.push(Consumer::Join(self, *input));
            assert(stk0.drop_last() =~= old(conts)@);
            assert(stk0.last() == Consumer::Join(self, *input));
            if !(*input is Build) {
                assert(first_build(stk0) == first_build(old(conts)@));
            }
        }
        match input {
            JoinInput::CrossLeft => {
                let ghost c0 = ctx;
                let right = Consumer::Join(self, JoinInput::CrossRight(ctx));
                proof {
                    assert(old(conts)@.push(right).drop_last() =~= old(conts)@);
                    assert(old(conts)@.push(right).last() == right);
                    assert(first_build(old(conts)@.push(right)) == first_build(old(conts)@));
                    assert(old(conts)@.push(Consumer::Join(self, *input)).drop_last() =~= old(conts)@);
                    lemma_weight_push(old(conts)@, right);
                    lemma_slots_push(old(conts)@, right, templates@.len());
                }
                conts.push(right);
                let r = self.right_child.produce(cg, conts, templates);
                conts.pop();
                proof {
                    assert(conts@ =~= old(conts)@ || r is Err);
                }
                r
            },
            JoinInput::CrossRight(left_ctx) => {
                let ghost t0 = cg.target_text();
                let joined_ids_var = cg.new_var("row_ids_");
                self.emit_row_ids_concat(
                    cg,
                    joined_ids_var.as_str(),
                    left_ctx.row_ids_expr.as_str(),
                    ctx.row_ids_expr.as_str(),
                );
                let ghost t1 = cg.target_text();
                let ghost merged_tables = left_ctx.row_id_tables@ + ctx.row_id_tables@;
                let ghost merged_access = ctx.access@.reverse() + left_ctx.access@;
                let ghost ok = tuple_ok(ctx) && accepts(old(conts)@.push(Consumer::Join(self, *input)), ctx_ids(ctx));
                proof {
                    if ok {
                        assert(old(conts)@.push(Consumer::Join(self, *input)).drop_last() =~= old(conts)@);
                        let fa = ctx.access@;
                        let ba = left_ctx.access@;
                        assert forall|i: int| 0 <= i < merged_access.len() implies first_position(
                            merged_tables,
                            (#[trigger] merged_access[i]).1.0@,
                        ) is Some by {
                            if i < fa.len() {
                                assert(merged_access[i] == fa[fa.len() - 1 - i]);
                                lemma_first_position_concat(left_ctx.row_id_tables@, ctx.row_id_tables@, merged_access[i].1.0@);
                            } else {
                                assert(merged_access[i] == ba[i - fa.len()]);
                                lemma_first_position_concat(left_ctx.row_id_tables@, ctx.row_id_tables@, merged_access[i].1.0@);
                            }
                        }
                    }
                }
                let merged = self.merge_tuple(
                    joined_ids_var.as_str(),
                    &left_ctx.row_id_tables,
                    &left_ctx.access,
                    &ctx,
                )?;
                proof {
                    if ok {
                        lemma_access_ids_merge(ctx.access@, left_ctx.access@);
                        assert forall|id: u64| ctx_ids(merged).contains(id) <==> access_ids(merged.access@).contains(id) by {
                            lemma_first_code(merged.exprs@, id);
                            if access_ids(merged.access@).contains(id) {
                                let i = choose|i: int| 0 <= i < merged.access@.len() && (#[trigger] merged.access@[i]).0.id == id;
                                assert(merged.exprs@[i].0 == merged.access@[i].0);
                            }
                            if ctx_ids(merged).contains(id) {
                                let i = choose|i: int| 0 <= i < merged.exprs@.len() && (#[trigger] merged.exprs@[i]).0.id == id;
                                assert(merged.exprs@[i].0 == merged.access@[i].0);
                            }
                        }
                        assert(ctx_ids(merged) =~= access_ids(merged.access@));
                        assert forall|i: int| 0 <= i < merged.access@.len() implies first_position(
                            merged.row_id_tables@,
                            (#[trigger] merged.access@[i]).1.0@,
                        ) is Some by {
                            assert(crate::algebra::join::rebuilt_expr(joined_ids_var@, merged_tables, merged_access[i]) is Some);
                        }
                        assert(ctx_ids(merged) =~= access_ids(left_ctx.access@).union(ctx_ids(ctx)));
                    }
                }
                let ghost cg1 = *cg;
                let r = consume_tuple(cg, conts, merged, templates);
                proof {
                    if r is Ok {
                        let xm = line_text(
                            old(cg).indent as nat,
                            concat_ids_line(joined_ids_var@, left_ctx.row_ids_expr@, ctx.row_ids_expr@),
                        );
                        lemma_framed_before(
                            t0,
                            t1,
                            cg.target_text(),
                            xm,
                            waiting_head(old(conts)@, merged, cg1.indent as nat, cg1.tmp_counter),
                            waiting_tail(old(conts)@, cg1.indent as nat),
                        );
                        assert(tuple_merged(
                            merged,
                            var_text("row_ids_"@, old(cg).tmp_counter),
                            left_ctx.row_id_tables@,
                            left_ctx.access@,
                            ctx,
                        ));
                    }
                }
                proof {
                    if r is Ok {
                        let e = Seq::<char>::empty();
                        let x = line_text(
                            old(cg).indent as nat,
                            concat_ids_line(joined_ids_var@, left_ctx.row_ids_expr@, ctx.row_ids_expr@),
                        );
                        lemma_framed_before(t0, t1, cg.target_text(), x, e, e);
                        assert(x + e =~= x);
                        lemma_framed_weaken(cg.target_text(), t0, x, e);
                    }
                }
                r
            },
            JoinInput::Build { builder, slot } => {
                let ghost stk = old(conts)@.push(Consumer::Join(self, *input));
                let ghost ok = tuple_ok(ctx) && stack_ready(stk, old(templates)@) && accepts(stk, ctx_ids(ctx));
                proof {
                    assert(stk.drop_last() =~= old(conts)@);
                    assert(stk.last() == Consumer::Join(self, *input));
                    if ok {
                        lemma_keys_ok_codes(*self, op_ius(*self.left_child), ctx);
                    }
                }
                let key_exprs = match self.key_exprs_from_ctx(&ctx, true) {
                    Ok(k) => k,
                    Err(e) => {
                        return Err(e);
                    },
                };
                proof {
                    assert forall|i: int| 0 <= i < self.join_predicates@.len() implies join_key_code(
                        #[trigger] self.join_predicates@[i],
                        op_ius(*self.left_child),
                        ctx,
                    ) is Some by {
                        assert(join_key_code(self.join_predicates@[i], op_ius(*self.left_child), ctx) == Some(
                            key_exprs@[i]@,
                        ));
                    }
                    let keys = build_keys(*self, ctx);
                    assert(keys is Some);
                    assert(texts_of(key_exprs@) =~= keys->Some_0);
                }
                let recorded = match &templates[*slot] {
                    Some(_) => true,
                    None => false,
                };
                let ghost ts0 = templates@;
                if !recorded {
                    templates.set(
                        *slot,
                        Some(
                            BuildTemplate {
                                access: dup_access(&ctx.access),
                                row_id_tables: dup_strings(&ctx.row_id_tables),
                            },
                        ),
                    );
                }
                proof {
                    assert(first_build(stk) == Some((*self, *slot)));
                    assert forall|k: int| 0 <= k < ts0.len() implies #[trigger] templates@[k] == ts0[k] || (ts0[k] is None
                        && (first_build(stk) matches Some((_, sl)) && k == sl)) by {
                        if k != *slot as int {
                            assert(templates@[k] == ts0[k]);
                        }
                    }
                    assert(layouts_kept(stk, ts0, templates@));
                    if ok {
                        assert(stk[stk.len() - 1] == stk.last());
                        assert(templates@[*slot as int] matches Some(t) && template_ok(t, op_ius(*self.left_child)));
                    }
                }
                let mut l = String::from_str(builder.as_str());
                l.append(".insert(");
                l.append("vec![");
                l.append(join_comma(&key_exprs).as_str());
                l.append("]");
                l.append(", ");
                l.append(ctx.row_ids_expr.as_str());
                l.append(");");
                let ghost t0 = cg.target_text();
                cg.line(l.as_str());
                proof {
                    lemma_framed_append(t0, line_text(old(cg).indent as nat, l@));
                    lemma_framed_weaken(cg.target_text(), t0, line_text(old(cg).indent as nat, l@), Seq::empty());
                }
                Ok(())
            },
            JoinInput::Probe { map, slot } => {
                let ghost stk = old(conts)@.push(Consumer::Join(self, *input));
                let ghost ok = tuple_ok(ctx) && stack_ready(stk, old(templates)@) && accepts(stk, ctx_ids(ctx));
                proof {
                    assert(stk.drop_last() =~= old(conts)@);
                    assert(stk.last() == Consumer::Join(self, *input));
                    assert(stk[stk.len() - 1] == stk.last());
                    if ok {
                        lemma_keys_ok_codes(*self, op_ius(*self.right_child), ctx);
                        assert forall|i: int| 0 <= i < old(conts)@.len() implies consumer_ready(
                            #[trigger] old(conts)@[i],
                            old(templates)@,
                        ) by {
                            assert(old(conts)@[i] == stk[i]);
                        }
                        assert forall|i: int, k: int|
                            0 <= i < k < old(conts)@.len() && slot_of(#[trigger] old(conts)@[i]) is Some implies slot_of(
                            old(conts)@[i]) != slot_of(#[trigger] old(conts)@[k]) by {
                            assert(old(conts)@[i] == stk[i]);
                            assert(old(conts)@[k] == stk[k]);
                        }
                        assert(stack_ready(old(conts)@, old(templates)@));
                    }
                }
                let key_exprs = match self.key_exprs_from_ctx(&ctx, false) {
                    Ok(k) => k,
                    Err(e) => {
                        return Err(e);
                    },
                };
                proof {
                    assert forall|i: int| 0 <= i < self.join_predicates@.len() implies join_key_code(
                        #[trigger] self.join_predicates@[i],
                        op_ius(*self.right_child),
                        ctx,
                    ) is Some by {
                        assert(join_key_code(self.join_predicates@[i], op_ius(*self.right_child), ctx) == Some(
                            key_exprs@[i]@,
                        ));
                    }
                    assert(probe_keys(*self, ctx) is Some);
                    assert(texts_of(key_exprs@) =~= probe_keys(*self, ctx)->Some_0);
                }
                let ghost t0 = cg.target_text();
                let ghost ind = cg.indent as nat;
                let mut key = String::from_str("vec![");
                key.append(join_comma(&key_exprs).as_str());
                key.append("]");
                let match_var = cg.new_var("build_row_");
                let mut l = String::from_str("for ");
                l.append(match_var.as_str());
                l.append(" in ");
                l.append(map.as_str());
                l.append(".get(");
                l.append(key.as_str());
                l.append(")");
                cg.open(l.as_str());
                let ghost t1 = cg.target_text();
                let joined_ids_var = cg.new_var("row_ids_");
                self.emit_row_ids_concat(
                    cg,
                    joined_ids_var.as_str(),
                    match_var.as_str(),
                    ctx.row_ids_expr.as_str(),
                );
                let ghost t2 = cg.target_text();
                let tmpl_ref = match &templates[*slot] {
                    Some(t) => t,
                    None => {
                        return Err(PlanError::NoBuildTemplate);
                    },
                };
                let ghost tmpl = templates@[*slot as int]->Some_0;
                let ghost merged_tables = tmpl.row_id_tables@ + ctx.row_id_tables@;
                let ghost merged_access = ctx.access@.reverse() + tmpl.access@;
                proof {
                    if ok {
                        let fa = ctx.access@;
                        let ba = tmpl.access@;
                        assert(merged_access == fa.reverse() + ba);
                        assert(merged_tables == tmpl.row_id_tables@ + ctx.row_id_tables@);
                        assert forall|i: int| 0 <= i < merged_access.len() implies first_position(
                            merged_tables,
                            (#[trigger] merged_access[i]).1.0@,
                        ) is Some by {
                            if i < fa.len() {
                                assert(merged_access[i] == fa[fa.len() - 1 - i]);
                            } else {
                                assert(merged_access[i] == ba[i - fa.len()]);
                            }
                            lemma_first_position_concat(tmpl.row_id_tables@, ctx.row_id_tables@, merged_access[i].1.0@);
                        }
                    }
                }
                let merged = self.merge_tuple(
                    joined_ids_var.as_str(),
                    &tmpl_ref.row_id_tables,
                    &tmpl_ref.access,
                    &ctx,
                )?;
                proof {
                    if ok {
                        lemma_access_ids_merge(ctx.access@, tmpl.access@);
                        assert forall|id: u64| ctx_ids(merged).contains(id) <==> access_ids(merged.access@).contains(id) by {
                            lemma_first_code(merged.exprs@, id);
                            if access_ids(merged.access@).contains(id) {
                                let i = choose|i: int| 0 <= i < merged.access@.len() && (#[trigger] merged.access@[i]).0.id == id;
                                assert(merged.exprs@[i].0 == merged.access@[i].0);
                            }
                            if ctx_ids(merged).contains(id) {
                                let i = choose|i: int| 0 <= i < merged.exprs@.len() && (#[trigger] merged.exprs@[i]).0.id == id;
                                assert(merged.exprs@[i].0 == merged.access@[i].0);
                            }
                        }
                        assert(ctx_ids(merged) =~= access_ids(merged.access@));
                        assert forall|i: int| 0 <= i < merged.access@.len() implies first_position(
                            merged.row_id_tables@,
                            (#[trigger] merged.access@[i]).1.0@,
                        ) is Some by {
                            assert(crate::algebra::join::rebuilt_expr(joined_ids_var@, merged_tables, merged_access[i]) is Some);
                        }
                        assert(op_ius(*self.left_child).union(ctx_ids(ctx)).subset_of(ctx_ids(merged)));
                        lemma_accepts_grows(old(conts)@, op_ius(*self.left_child).union(ctx_ids(ctx)), ctx_ids(merged));
                    }
                }
                let ghost cg2 = *cg;
                let ghost conts2 = conts@;
                consume_tuple(cg, conts, merged, templates)?;
                let ghost t3 = cg.target_text();
                cg.close();
                proof {
                    let hm = waiting_head(conts2, merged, cg2.indent as nat, cg2.tmp_counter);
                    let tm = waiting_tail(conts2, cg2.indent as nat);
                    let x1m = line_text(ind, l@ + " {"@);
                    let x2m = line_text(ind + 1, concat_ids_line(joined_ids_var@, match_var@, ctx.row_ids_expr@));
                    let ym = line_text(ind, "}"@);
                    lemma_framed_before(t1, t2, t3, x2m, hm, tm);
                    lemma_framed_before(t0, t1, t3, x1m, x2m + hm, tm);
                    lemma_framed_after(t0, t3, cg.target_text(), x1m + (x2m + hm), tm, ym);
                    assert(x1m + x2m =~= probe_head(
                        map@,
                        probe_keys(*self, ctx)->Some_0,
                        ctx.row_ids_expr@,
                        old(cg).tmp_counter,
                        ind,
                    ));
                    assert(x1m + (x2m + hm) =~= (x1m + x2m) + hm);
                    assert(tuple_merged(
                        merged,
                        var_text("row_ids_"@, old(cg).tmp_counter.wrapping_add(1)),
                        old(templates)@[*slot as int]->Some_0.row_id_tables@,
                        old(templates)@[*slot as int]->Some_0.access@,
                        ctx,
                    ));
                }
                proof {
                    let e = Seq::<char>::empty();
                    let x1 = line_text(ind, l@ + " {"@);
                    let x2 = line_text(ind + 1, concat_ids_line(joined_ids_var@, match_var@, ctx.row_ids_expr@));
                    let y = line_text(ind, "}"@);
                    lemma_framed_before(t1, t2, t3, x2, e, e);
                    lemma_framed_before(t0, t1, t3, x1, x2 + e, e);
                    let h = x1 + (x2 + e);
                    lemma_framed_after(t0, t3, cg.target_text(), h, e, y);
                    assert(h =~= probe_head(
                        map@,
                        probe_keys(*self, ctx)->Some_0,
                        ctx.row_ids_expr@,
                        old(cg).tmp_counter,
                        ind,
                    ));
                    assert(e + y =~= y);
                    lemma_framed_weaken(cg.target_text(), t0, h, e + y);
                }
                Ok(())
            },
        }
    }
}

} // verus!
