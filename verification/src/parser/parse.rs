//! Reading statements from SQL text.
//!
//! Each function reads one rule of the grammar in `grammar.rs` at a token
//! position and gives what the rule reads there, and the position after it.

use vstd::prelude::*;

use crate::parser::ast::{
    AST, ColId, Column, CopyTable, CreateTable, Query, Statement, Table, TableFactor, TableRef, query_ok,
};
use crate::parser::expr::{BinaryExpression, BinaryOperator, Expression};
use crate::parser::grammar::{
    ColumnM, FactorM, OperandM, QueryM, alias_at, ast_is, at, col_id_at, col_id_is, col_ids_at,
    column_at, columns_at, copy_at, create_at, factor_at, factors_at, key_at, lemma_query_is_ok,
    lemma_statements_at_ok, length_arg_at, name_at, names_at, num_of, numeric_args_at, operand_at,
    pred_at, pred_is, preds_at, query_at, query_is, spec_parse, statement_at, statement_is,
    statements_at, targets_at, text, type_at,
};
use crate::parser::lexer::{Keyword, Token, TokenKind, lex, lex_from, lemma_lex_within, spans_within};
use crate::types::Type;
use crate::util::decimal::parse_i64;

verus! {

/// Why a text does not read as statements.
#[derive(Debug, Clone, Copy, PartialEq, Eq, Structural)]
pub enum ParseError {
    /// A character starts no token, or a quote is not closed.
    Lexical,
    /// The tokens do not follow the grammar.
    Syntax,
}

/// The SQL parser.
#[derive(Debug)]
pub struct Parser {}

impl Default for Parser {
    fn default() -> (p: Self)
        ensures
            p == (Parser {}),
    {
        Parser {}
    }
}

impl Parser {
    /// Reads the statements of the text: exactly those that the grammar
    /// reads (see `spec_parse`).
    pub fn parse(&self, input: &str) -> (r: Result<AST, ParseError>)
        ensures
            match spec_parse(input@) {
                Ok(ms) => r matches Ok(ast) && ast_is(ast, ms),
                Err(e) => r == Err::<AST, ParseError>(e),
            },
            r matches Ok(ast) ==> forall|k: int|
                0 <= k < ast.statements@.len() ==> (#[trigger] ast.statements@[k] matches Statement::Select(
                    q,
                ) ==> query_ok(q)),
    {
        let chars = chars_of(input);
        let toks = match lex(&chars) {
            Some(t) => t,
            None => {
                return Err(ParseError::Lexical);
            },
        };
        proof {
            assert(input@.len() == chars.len() && toks@.len() == toks.len());
            lemma_lex_within(input@, 0);
        }
        match statements(input, &toks, 0) {
            Some(v) => {
                proof {
                    let ms = statements_at(input@, toks@, 0)->Some_0;
                    lemma_statements_at_ok(input@, toks@, 0);
                    assert forall|k: int| 0 <= k < v@.len() implies (#[trigger] v@[k] matches Statement::Select(
                        q,
                    ) ==> query_ok(q)) by {
                        if let Statement::Select(q) = v@[k] {
                            assert(statement_is(v@[k], ms[k]));
                            let qm = ms[k]->Select_0;
                            lemma_query_is_ok(q, qm);
                        }
                    }
                }
                Ok(AST { statements: v })
            },
            None => Err(ParseError::Syntax),
        }
    }
}

/// The characters of the text.
fn chars_of(s: &str) -> (v: Vec<char>)
    ensures
        v@ == s@,
{
    let n = s.unicode_len();
    let mut v: Vec<char> = Vec::new();
    let mut i: usize = 0;
    while i < n
        invariant
            i <= n,
            n == s@.len(),
            v@ == s@.take(i as int),
        decreases n - i,
    {
        v.push(s.get_char(i));
        i = i + 1;
        assert(v@ =~= s@.take(i as int));
    }
    assert(s@.take(n as int) =~= s@);
    v
}

/// The tokens lie inside the text, and their positions fit in `usize`.
spec fn well_spanned(s: Seq<char>, t: Seq<Token>) -> bool {
    spans_within(t, s.len() as int) && t.len() <= usize::MAX
}

fn at_kind(t: &Vec<Token>, i: usize, k: TokenKind) -> (b: bool)
    ensures
        b == at(t@, i as int, k),
{
    i < t.len() && t[i].kind == k
}

fn tok_text(s: &str, tok: Token) -> (r: String)
    requires
        tok.start <= tok.end <= s@.len(),
    ensures
        r@ == text(s@, tok),
{
    String::from_str(s.substring_char(tok.start, tok.end))
}

fn name(s: &str, t: &Vec<Token>, i: usize) -> (r: Option<(String, usize)>)
    requires
        well_spanned(s@, t@),
    ensures
        match name_at(s@, t@, i as int) {
            Some((n, j)) => r matches Some((x, k)) && x@ == n && k == j,
            None => r is None,
        },
{
    if at_kind(t, i, TokenKind::Word) || at_kind(t, i, TokenKind::QuotedWord) {
        Some((tok_text(s, t[i]), i + 1))
    } else {
        None
    }
}

fn alias(s: &str, t: &Vec<Token>, i: usize) -> (r: (String, usize))
    requires
        well_spanned(s@, t@),
    ensures
        r.0@ == alias_at(s@, t@, i as int).0,
        r.1 == alias_at(s@, t@, i as int).1,
{
    match name(s, t, i) {
        Some((a, j)) => (a, j),
        None => (String::new(), i),
    }
}

fn col_id(s: &str, t: &Vec<Token>, i: usize) -> (r: Option<(ColId, usize)>)
    requires
        well_spanned(s@, t@),
    ensures
        match col_id_at(s@, t@, i as int) {
            Some((m, j)) => r matches Some((c, k)) && col_id_is(c, m) && k == j,
            None => r is None,
        },
{
    match name(s, t, i) {
        Some((a, j)) => if at_kind(t, j, TokenKind::Dot) {
            match name(s, t, j + 1) {
                Some((b, k)) => Some((ColId { table: a, column: b }, k)),
                None => None,
            }
        } else {
            Some((ColId { table: String::new(), column: a }, j))
        },
        None => None,
    }
}

fn col_ids(s: &str, t: &Vec<Token>, i: usize) -> (r: Option<(Vec<ColId>, usize)>)
    requires
        well_spanned(s@, t@),
    ensures
        match col_ids_at(s@, t@, i as int) {
            Some((ms, j)) => r matches Some((v, k)) && k == j && v@.len() == ms.len() && forall|x: int|
                0 <= x < ms.len() ==> col_id_is(#[trigger] v@[x], ms[x]),
            None => r is None,
        },
    decreases t@.len() - i,
{
    match col_id(s, t, i) {
        Some((c, j)) => if at_kind(t, j, TokenKind::Comma) {
            match col_ids(s, t, j + 1) {
                Some((mut cs, k)) => {
                    let ghost old_cs = cs@;
                    cs.insert(0, c);
                    proof {
                        let (ms, _) = col_ids_at(s@, t@, j + 1)->Some_0;
                        let (m, _) = col_id_at(s@, t@, i as int)->Some_0;
                        let all = seq![m] + ms;
                        assert forall|x: int| 0 <= x < all.len() implies col_id_is(#[trigger] cs@[x], all[x]) by {
                            if x > 0 {
                                assert(cs@[x] == old_cs[x - 1]);
                            }
                        }
                    }
                    Some((cs, k))
                },
                None => None,
            }
        } else {
            let mut v: Vec<ColId> = Vec::new();
            v.push(c);
            Some((v, j))
        },
        None => None,
    }
}

fn targets(s: &str, t: &Vec<Token>, i: usize) -> (r: Option<(Vec<ColId>, usize)>)
    requires
        well_spanned(s@, t@),
    ensures
        match targets_at(s@, t@, i as int) {
            Some((ms, j)) => r matches Some((v, k)) && k == j && v@.len() == ms.len() && forall|x: int|
                0 <= x < ms.len() ==> col_id_is(#[trigger] v@[x], ms[x]),
            None => r is None,
        },
{
    if at_kind(t, i, TokenKind::Star) {
        Some((Vec::new(), i + 1))
    } else {
        col_ids(s, t, i)
    }
}

/// The expression of an operand, and that the operand model describes it.
pub open spec fn operand_is(e: Expression, m: OperandM) -> bool {
    match m {
        OperandM::Column(c) => e matches Expression::ColumnRef(x) && col_id_is(x, c),
        OperandM::Constant(v) => e matches Expression::String(x) && x@ == v,
    }
}

fn operand(s: &str, t: &Vec<Token>, i: usize) -> (r: Option<(Expression, usize)>)
    requires
        well_spanned(s@, t@),
    ensures
        match operand_at(s@, t@, i as int) {
            Some((m, j)) => r matches Some((e, k)) && operand_is(e, m) && k == j,
            None => r is None,
        },
{
    if at_kind(t, i, TokenKind::Str) || at_kind(t, i, TokenKind::Num) {
        Some((Expression::String(tok_text(s, t[i])), i + 1))
    } else {
        match col_id(s, t, i) {
            Some((c, j)) => Some((Expression::ColumnRef(c), j)),
            None => None,
        }
    }
}

fn pred(s: &str, t: &Vec<Token>, i: usize) -> (r: Option<(BinaryExpression, usize)>)
    requires
        well_spanned(s@, t@),
    ensures
        match pred_at(s@, t@, i as int) {
            Some((m, j)) => r matches Some((b, k)) && pred_is(b, m) && k == j,
            None => r is None,
        },
{
    match col_id(s, t, i) {
        Some((l, j)) => if at_kind(t, j, TokenKind::Equals) {
            match operand(s, t, j + 1) {
                Some((r, k)) => Some(
                    (BinaryExpression { l: Expression::ColumnRef(l), r, op: BinaryOperator::Eq }, k),
                ),
                None => None,
            }
        } else {
            None
        },
        None => None,
    }
}

fn preds(s: &str, t: &Vec<Token>, i: usize) -> (r: Option<(Vec<BinaryExpression>, usize)>)
    requires
        well_spanned(s@, t@),
    ensures
        match preds_at(s@, t@, i as int) {
            Some((ms, j)) => r matches Some((v, k)) && k == j && v@.len() == ms.len() && forall|x: int|
                0 <= x < ms.len() ==> pred_is(#[trigger] v@[x], ms[x]),
            None => r is None,
        },
    decreases t@.len() - i,
{
    match pred(s, t, i) {
        Some((p, j)) => if at_kind(t, j, TokenKind::Kw(Keyword::And)) {
            match preds(s, t, j + 1) {
                Some((mut ps, k)) => {
                    let ghost old_ps = ps@;
                    ps.insert(0, p);
                    proof {
                        let (ms, _) = preds_at(s@, t@, j + 1)->Some_0;
                        let (m, _) = pred_at(s@, t@, i as int)->Some_0;
                        let all = seq![m] + ms;
                        assert forall|x: int| 0 <= x < all.len() implies pred_is(#[trigger] ps@[x], all[x]) by {
                            if x > 0 {
                                assert(ps@[x] == old_ps[x - 1]);
                            }
                        }
                    }
                    Some((ps, k))
                },
                None => None,
            }
        } else {
            let mut v: Vec<BinaryExpression> = Vec::new();
            v.push(p);
            Some((v, j))
        },
        None => None,
    }
}

/// The factor that the model describes.
pub open spec fn factor_is(f: TableFactor, m: FactorM) -> bool {
    match f {
        TableFactor::Table(r) => m matches FactorM::Named { table, alias } && r.table@ == table && r.alias@
            == alias,
        TableFactor::Derived { query, alias } => m matches FactorM::Derived { query: mq, alias: ma }
            && alias@ == ma && query_is(*query, *mq),
    }
}

fn query(s: &str, t: &Vec<Token>, i: usize) -> (r: Option<(Query, usize)>)
    requires
        well_spanned(s@, t@),
    ensures
        match query_at(s@, t@, i as int) {
            Some((m, j)) => r matches Some((q, k)) && query_is(q, m) && k == j,
            None => r is None,
        },
    decreases t@.len() - i, 2int,
{
    if !at_kind(t, i, TokenKind::Kw(Keyword::Select)) {
        return None;
    }
    let (tg, j) = match targets(s, t, i + 1) {
        Some(x) => x,
        None => {
            return None;
        },
    };
    if !(at_kind(t, j, TokenKind::Kw(Keyword::From)) && i < j) {
        return None;
    }
    let (fs, k) = match factors(s, t, j + 1) {
        Some(x) => x,
        None => {
            return None;
        },
    };
    let ghost mt = targets_at(s@, t@, i + 1)->Some_0.0;
    let ghost mf = factors_at(s@, t@, j + 1)->Some_0.0;
    if at_kind(t, k, TokenKind::Kw(Keyword::Where)) {
        match preds(s, t, k + 1) {
            Some((ps, m)) => {
                let q = Query { targets: Some(tg), from: fs, where_clause: ps };
                proof {
                    let mp = preds_at(s@, t@, k + 1)->Some_0.0;
                    let qm = QueryM { targets: mt, from: mf, preds: mp };
                    assert forall|x: int| 0 <= x < q.from@.len() implies factor_is(
                        #[trigger] q.from@[x],
                        qm.from[x],
                    ) by {}
                    assert(query_is(q, qm));
                }
                Some((q, m))
            },
            None => None,
        }
    } else {
        let q = Query { targets: Some(tg), from: fs, where_clause: Vec::new() };
        proof {
            let qm = QueryM { targets: mt, from: mf, preds: Seq::empty() };
            assert forall|x: int| 0 <= x < q.from@.len() implies factor_is(#[trigger] q.from@[x], qm.from[x]) by {}
            assert(query_is(q, qm));
        }
        Some((q, k))
    }
}

fn factors(s: &str, t: &Vec<Token>, i: usize) -> (r: Option<(Vec<TableFactor>, usize)>)
    requires
        well_spanned(s@, t@),
    ensures
        match factors_at(s@, t@, i as int) {
            Some((ms, j)) => r matches Some((v, k)) && k == j && v@.len() == ms.len() && forall|x: int|
                0 <= x < ms.len() ==> factor_is(#[trigger] v@[x], ms[x]),
            None => r is None,
        },
    decreases t@.len() - i, 1int,
{
    match factor(s, t, i) {
        Some((f, j)) => if at_kind(t, j, TokenKind::Comma) {
            if i < j {
                match factors(s, t, j + 1) {
                    Some((mut fs, k)) => {
                        let ghost old_fs = fs@;
                        fs.insert(0, f);
                        proof {
                            let (ms, _) = factors_at(s@, t@, j + 1)->Some_0;
                            let (m, _) = factor_at(s@, t@, i as int)->Some_0;
                            let all = seq![m] + ms;
                            assert forall|x: int| 0 <= x < all.len() implies factor_is(
                                #[trigger] fs@[x],
                                all[x],
                            ) by {
                                if x > 0 {
                                    assert(fs@[x] == old_fs[x - 1]);
                                }
                            }
                        }
                        Some((fs, k))
                    },
                    None => None,
                }
            } else {
                None
            }
        } else {
            let mut v: Vec<TableFactor> = Vec::new();
            v.push(f);
            Some((v, j))
        },
        None => None,
    }
}

fn factor(s: &str, t: &Vec<Token>, i: usize) -> (r: Option<(TableFactor, usize)>)
    requires
        well_spanned(s@, t@),
    ensures
        match factor_at(s@, t@, i as int) {
            Some((m, j)) => r matches Some((f, k)) && factor_is(f, m) && k == j,
            None => r is None,
        },
    decreases t@.len() - i, 0int,
{
    if at_kind(t, i, TokenKind::LParen) {
        match query(s, t, i + 1) {
            Some((q, j)) => if at_kind(t, j, TokenKind::RParen) {
                let (a, k) = alias(s, t, j + 1);
                Some((TableFactor::Derived { query: Box::new(q), alias: a }, k))
            } else {
                None
            },
            None => None,
        }
    } else {
        match name(s, t, i) {
            Some((n, j)) => {
                let (a, k) = alias(s, t, j);
                Some((TableFactor::Table(TableRef { table: n, alias: a }), k))
            },
            None => None,
        }
    }
}

/// The number that a token's text reads as, if it fits in 64 bits.
fn num(s: &str, tok: Token) -> (r: Option<i64>)
    requires
        tok.start <= tok.end <= s@.len(),
    ensures
        r == (match num_of(s@, tok) {
            Some(v) => if i64::MIN <= v <= i64::MAX {
                Some(v as i64)
            } else {
                None
            },
            None => None,
        }),
{
    parse_i64(s.substring_char(tok.start, tok.end))
}

fn length_arg(s: &str, t: &Vec<Token>, i: usize) -> (r: Option<u32>)
    requires
        well_spanned(s@, t@),
        i < t@.len(),
    ensures
        r == length_arg_at(s@, t@, i as int),
{
    if at_kind(t, i, TokenKind::LParen) && at_kind(t, i + 1, TokenKind::Num) && at_kind(
        t,
        i + 2,
        TokenKind::RParen,
    ) {
        match num(s, t[i + 1]) {
            Some(n) => if 0 <= n && n <= 0xffff_ffff {
                Some(n as u32)
            } else {
                None
            },
            None => None,
        }
    } else {
        None
    }
}

fn numeric_args(s: &str, t: &Vec<Token>, i: usize) -> (r: Option<(u32, u16)>)
    requires
        well_spanned(s@, t@),
        i < t@.len(),
    ensures
        r == numeric_args_at(s@, t@, i as int),
{
    if at_kind(t, i, TokenKind::LParen) && at_kind(t, i + 1, TokenKind::Num) && at_kind(
        t,
        i + 2,
        TokenKind::Comma,
    ) && at_kind(t, i + 3, TokenKind::Num) && at_kind(t, i + 4, TokenKind::RParen) {
        match (num(s, t[i + 1]), num(s, t[i + 3])) {
            (Some(p), Some(sc)) => if 0 < p && p <= 18 && 0 <= sc && sc <= 18 {
                Some((p as u32, sc as u16))
            } else {
                None
            },
            _ => None,
        }
    } else {
        None
    }
}

/// Is the text of the token the lower-case word, in any case?
fn tok_is(s: &str, tok: Token, lower: &str) -> (b: bool)
    requires
        tok.start <= tok.end <= s@.len(),
    ensures
        b == crate::parser::lexer::word_is(text(s@, tok), lower@),
{
    let w = s.substring_char(tok.start, tok.end);
    let n = w.unicode_len();
    if n != lower.unicode_len() {
        return false;
    }
    let mut k: usize = 0;
    while k < n
        invariant
            k <= n,
            n == w@.len(),
            n == lower@.len(),
            w@ == text(s@, tok),
            forall|j: int| 0 <= j < k ==> crate::parser::lexer::ci_eq(#[trigger] w@[j], lower@[j]),
        decreases n - k,
    {
        let c = w.get_char(k);
        let l = lower.get_char(k);
        if !(c == l || ('a' <= l && l <= 'z' && (c as u32) == (l as u32) - 32)) {
            assert(!crate::parser::lexer::ci_eq(w@[k as int], lower@[k as int]));
            return false;
        }
        k = k + 1;
    }
    true
}

fn ty(s: &str, t: &Vec<Token>, i: usize) -> (r: Option<(Type, usize)>)
    requires
        well_spanned(s@, t@),
    ensures
        match type_at(s@, t@, i as int) {
            Some((m, j)) => r matches Some((x, k)) && x == m && k == j,
            None => r is None,
        },
{
    if !at_kind(t, i, TokenKind::Word) {
        return None;
    }
    let tok = t[i];
    if tok_is(s, tok, "integer") {
        Some((Type::new_integer(), i + 1))
    } else if tok_is(s, tok, "timestamp") {
        Some((Type::new_timestamp(), i + 1))
    } else if tok_is(s, tok, "text") {
        Some((Type::new_text(), i + 1))
    } else if tok_is(s, tok, "bool") {
        Some((Type::new_bool(), i + 1))
    } else if tok_is(s, tok, "numeric") {
        if i + 1 >= t.len() {
            return None;
        }
        match numeric_args(s, t, i + 1) {
            Some((p, sc)) => Some((Type::new_numeric(p, sc), i + 6)),
            None => None,
        }
    } else if tok_is(s, tok, "char") {
        if i + 1 >= t.len() {
            return None;
        }
        match length_arg(s, t, i + 1) {
            Some(n) => Some((Type::new_char(n), i + 4)),
            None => None,
        }
    } else if tok_is(s, tok, "varchar") {
        if i + 1 >= t.len() {
            return None;
        }
        match length_arg(s, t, i + 1) {
            Some(n) => Some((Type::new_varchar(n), i + 4)),
            None => None,
        }
    } else {
        None
    }
}

fn column(s: &str, t: &Vec<Token>, i: usize) -> (r: Option<(Column, usize)>)
    requires
        well_spanned(s@, t@),
    ensures
        match column_at(s@, t@, i as int) {
            Some((m, j)) => r matches Some((c, k)) && c.id@ == m.id && c.ty == m.ty && c.not_null && k == j,
            None => r is None,
        },
{
    match name(s, t, i) {
        Some((id, j)) => match ty(s, t, j) {
            Some((ty, k)) => if at_kind(t, k, TokenKind::Kw(Keyword::Not)) && at_kind(
                t,
                k + 1,
                TokenKind::Kw(Keyword::Null),
            ) {
                Some((Column { id, ty, not_null: true }, k + 2))
            } else {
                None
            },
            None => None,
        },
        None => None,
    }
}

fn names(s: &str, t: &Vec<Token>, i: usize) -> (r: Option<(Vec<String>, usize)>)
    requires
        well_spanned(s@, t@),
    ensures
        match names_at(s@, t@, i as int) {
            Some((ms, j)) => r matches Some((v, k)) && k == j && v@.len() == ms.len() && forall|x: int|
                0 <= x < ms.len() ==> (#[trigger] v@[x])@ == ms[x],
            None => r is None,
        },
    decreases t@.len() - i,
{
    match name(s, t, i) {
        Some((n, j)) => if at_kind(t, j, TokenKind::Comma) {
            match names(s, t, j + 1) {
                Some((mut ns, k)) => {
                    let ghost old_ns = ns@;
                    ns.insert(0, n);
                    proof {
                        let (ms, _) = names_at(s@, t@, j + 1)->Some_0;
                        let (m, _) = name_at(s@, t@, i as int)->Some_0;
                        let all = seq![m] + ms;
                        assert forall|x: int| 0 <= x < all.len() implies (#[trigger] ns@[x])@ == all[x] by {
                            if x > 0 {
                                assert(ns@[x] == old_ns[x - 1]);
                            }
                        }
                    }
                    Some((ns, k))
                },
                None => None,
            }
        } else {
            let mut v: Vec<String> = Vec::new();
            v.push(n);
            Some((v, j))
        },
        None => None,
    }
}

fn key(s: &str, t: &Vec<Token>, i: usize) -> (r: Option<(Vec<String>, usize)>)
    requires
        well_spanned(s@, t@),
        i < t@.len(),
    ensures
        match key_at(s@, t@, i as int) {
            Some((ms, j)) => r matches Some((v, k)) && k == j && v@.len() == ms.len() && forall|x: int|
                0 <= x < ms.len() ==> (#[trigger] v@[x])@ == ms[x],
            None => r is None,
        },
{
    if at_kind(t, i, TokenKind::Kw(Keyword::Primary)) && at_kind(t, i + 1, TokenKind::Kw(Keyword::Key))
        && at_kind(t, i + 2, TokenKind::LParen) {
        match names(s, t, i + 3) {
            Some((ns, j)) => if at_kind(t, j, TokenKind::RParen) {
                Some((ns, j + 1))
            } else {
                None
            },
            None => None,
        }
    } else {
        None
    }
}

/// The column definitions are the ones that the models describe.
pub open spec fn columns_are(v: Seq<Column>, ms: Seq<ColumnM>) -> bool {
    v.len() == ms.len() && forall|x: int|
        0 <= x < ms.len() ==> (#[trigger] v[x]).id@ == ms[x].id && v[x].ty == ms[x].ty && v[x].not_null
}

/// The texts are the ones of the sequence.
pub open spec fn names_are(v: Seq<String>, ms: Seq<Seq<char>>) -> bool {
    v.len() == ms.len() && forall|x: int| 0 <= x < ms.len() ==> (#[trigger] v[x])@ == ms[x]
}

fn columns(s: &str, t: &Vec<Token>, i: usize) -> (r: Option<(Vec<Column>, Vec<String>, usize)>)
    requires
        well_spanned(s@, t@),
    ensures
        match columns_at(s@, t@, i as int) {
            Some((ms, pk, j)) => r matches Some((v, ks, k)) && k == j && columns_are(v@, ms) && names_are(
                ks@,
                pk,
            ),
            None => r is None,
        },
    decreases t@.len() - i,
{
    let (c, j) = match column(s, t, i) {
        Some(x) => x,
        None => {
            return None;
        },
    };
    if at_kind(t, j, TokenKind::RParen) {
        let mut v: Vec<Column> = Vec::new();
        v.push(c);
        Some((v, Vec::new(), j + 1))
    } else if at_kind(t, j, TokenKind::Comma) {
        if at_kind(t, j + 1, TokenKind::Kw(Keyword::Primary)) {
            match key(s, t, j + 1) {
                Some((pk, k)) => if at_kind(t, k, TokenKind::RParen) {
                    let mut v: Vec<Column> = Vec::new();
                    v.push(c);
                    Some((v, pk, k + 1))
                } else {
                    None
                },
                None => None,
            }
        } else {
            match columns(s, t, j + 1) {
                Some((mut cs, pk, k)) => {
                    let ghost old_cs = cs@;
                    cs.insert(0, c);
                    proof {
                        let (ms, _, _) = columns_at(s@, t@, j + 1)->Some_0;
                        let (m, _) = column_at(s@, t@, i as int)->Some_0;
                        let all = seq![m] + ms;
                        assert forall|x: int| 0 <= x < all.len() implies (#[trigger] cs@[x]).id@ == all[x].id
                            && cs@[x].ty == all[x].ty && cs@[x].not_null by {
                            if x > 0 {
                                assert(cs@[x] == old_cs[x - 1]);
                            }
                        }
                    }
                    Some((cs, pk, k))
                },
                None => None,
            }
        }
    } else {
        None
    }
}

fn create(s: &str, t: &Vec<Token>, i: usize) -> (r: Option<(Statement, usize)>)
    requires
        well_spanned(s@, t@),
    ensures
        match create_at(s@, t@, i as int) {
            Some((m, j)) => r matches Some((st, k)) && statement_is(st, m) && k == j,
            None => r is None,
        },
{
    if !(at_kind(t, i, TokenKind::Kw(Keyword::Create)) && at_kind(t, i + 1, TokenKind::Kw(Keyword::Table))) {
        return None;
    }
    let (id, j) = match name(s, t, i + 2) {
        Some(x) => x,
        None => {
            return None;
        },
    };
    if !at_kind(t, j, TokenKind::LParen) {
        return None;
    }
    let body = if at_kind(t, j + 1, TokenKind::RParen) {
        Some((Vec::new(), Vec::new(), j + 2))
    } else {
        columns(s, t, j + 1)
    };
    match body {
        Some((cs, pk, k)) => Some(
            (Statement::CreateTable(CreateTable { table: Table { id, columns: cs, primary_key: pk } }), k),
        ),
        None => None,
    }
}

fn copy(s: &str, t: &Vec<Token>, i: usize) -> (r: Option<(Statement, usize)>)
    requires
        well_spanned(s@, t@),
    ensures
        match copy_at(s@, t@, i as int) {
            Some((m, j)) => r matches Some((st, k)) && statement_is(st, m) && k == j,
            None => r is None,
        },
{
    if !at_kind(t, i, TokenKind::Kw(Keyword::Copy)) {
        return None;
    }
    let (tb, j) = match name(s, t, i + 1) {
        Some(x) => x,
        None => {
            return None;
        },
    };
    if !(at_kind(t, j, TokenKind::Kw(Keyword::From)) && at_kind(t, j + 1, TokenKind::Str)) {
        return None;
    }
    let file = tok_text(s, t[j + 1]);
    if at_kind(t, j + 2, TokenKind::Kw(Keyword::Delimiter)) {
        if at_kind(t, j + 3, TokenKind::Str) {
            let delimiter = tok_text(s, t[j + 3]);
            Some((Statement::CopyTable(CopyTable { table: tb, file, delimiter }), j + 4))
        } else {
            None
        }
    } else {
        let delimiter = String::from_str("|");
        Some((Statement::CopyTable(CopyTable { table: tb, file, delimiter }), j + 2))
    }
}

fn statement(s: &str, t: &Vec<Token>, i: usize) -> (r: Option<(Statement, usize)>)
    requires
        well_spanned(s@, t@),
    ensures
        match statement_at(s@, t@, i as int) {
            Some((m, j)) => r matches Some((st, k)) && statement_is(st, m) && k == j,
            None => r is None,
        },
{
    if at_kind(t, i, TokenKind::Kw(Keyword::Create)) {
        create(s, t, i)
    } else if at_kind(t, i, TokenKind::Kw(Keyword::Copy)) {
        copy(s, t, i)
    } else {
        match query(s, t, i) {
            Some((q, j)) => Some((Statement::Select(q), j)),
            None => None,
        }
    }
}

fn statements(s: &str, t: &Vec<Token>, i: usize) -> (r: Option<Vec<Statement>>)
    requires
        well_spanned(s@, t@),
    ensures
        match statements_at(s@, t@, i as int) {
            Some(ms) => r matches Some(v) && v@.len() == ms.len() && forall|x: int|
                0 <= x < ms.len() ==> statement_is(#[trigger] v@[x], ms[x]),
            None => r is None,
        },
    decreases t@.len() - i,
{
    let (st, j) = match statement(s, t, i) {
        Some(x) => x,
        None => {
            return None;
        },
    };
    if !at_kind(t, j, TokenKind::Semicolon) {
        return None;
    }
    if j + 1 >= t.len() {
        let mut v: Vec<Statement> = Vec::new();
        v.push(st);
        Some(v)
    } else if i < j {
        match statements(s, t, j + 1) {
            Some(mut rest) => {
                let ghost old_rest = rest@;
                rest.insert(0, st);
                proof {
                    let ms = statements_at(s@, t@, j + 1)->Some_0;
                    let (m, _) = statement_at(s@, t@, i as int)->Some_0;
                    let all = seq![m] + ms;
                    assert forall|x: int| 0 <= x < all.len() implies statement_is(#[trigger] rest@[x], all[x]) by {
                        if x > 0 {
                            assert(rest@[x] == old_rest[x - 1]);
                        }
                    }
                }
                Some(rest)
            },
            None => None,
        }
    } else {
        None
    }
}

} // verus!
