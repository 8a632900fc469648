//! The grammar of the statements, over tokens.
//!
//! ```text
//! statements := statement ';' [statement ';']...
//! statement  := CREATE TABLE name '(' [column [',' column]... [',' PRIMARY KEY '(' name [',' name]... ')']] ')'
//!             | COPY name FROM string [DELIMITER string]
//!             | query
//! column     := name type NOT NULL
//! type       := integer | timestamp | text | bool | numeric '(' num ',' num ')' | char '(' num ')' | varchar '(' num ')'
//! query      := SELECT ('*' | col_id [',' col_id]...) FROM factor [',' factor]... [WHERE pred [AND pred]...]
//! factor     := name [name] | '(' query ')' [name]
//! pred       := col_id '=' (col_id | string | num)
//! col_id     := name ['.' name]
//! ```
//!
//! Each rule is a spec function from a token position to what it reads there
//! and the position after it, or `None`. What is read is a model of the
//! syntax tree with the texts of the tokens.

use vstd::prelude::*;

use crate::parser::ast::{AST, ColId, Query, Statement, TableFactor, expr_unresolved, query_ok};
use crate::parser::expr::{BinaryExpression, BinaryOperator, Expression};
use crate::parser::lexer::{Keyword, Token, TokenKind, lex_from, word_is};
use crate::parser::parse::ParseError;
use crate::types::{Tag, Type};
use crate::util::decimal::spec_parse_int;

verus! {

/// A column identifier: its table (empty if not qualified) and column.
pub struct ColIdM {
    pub table: Seq<char>,
    pub column: Seq<char>,
}

/// The right side of a predicate.
pub enum OperandM {
    Column(ColIdM),
    Constant(Seq<char>),
}

/// A predicate `column = operand`.
pub struct PredM {
    pub left: ColIdM,
    pub right: OperandM,
}

/// A query: its targets (none listed for `*`, which selects every column),
/// the tables it reads and its predicates.
pub struct QueryM {
    pub targets: Seq<ColIdM>,
    pub from: Seq<FactorM>,
    pub preds: Seq<PredM>,
}

/// A table the query reads: a named table or a subquery, with an alias
/// (empty if none).
pub enum FactorM {
    Named { table: Seq<char>, alias: Seq<char> },
    Derived { query: Box<QueryM>, alias: Seq<char> },
}

/// A column definition.
pub struct ColumnM {
    pub id: Seq<char>,
    pub ty: Type,
}

/// A statement.
pub enum StatementM {
    Create { id: Seq<char>, columns: Seq<ColumnM>, primary_key: Seq<Seq<char>> },
    Copy { table: Seq<char>, file: Seq<char>, delimiter: Seq<char> },
    Select(QueryM),
}

/// The text of a token.
pub open spec fn text(s: Seq<char>, tok: Token) -> Seq<char> {
    s.subrange(tok.start as int, tok.end as int)
}

/// The token at `i` is of the kind.
pub open spec fn at(t: Seq<Token>, i: int, k: TokenKind) -> bool {
    0 <= i < t.len() && t[i].kind == k
}

/// The token at `i` is the keyword.
pub open spec fn kw(t: Seq<Token>, i: int, k: Keyword) -> bool {
    at(t, i, TokenKind::Kw(k))
}

/// A name: a word, or a word in double quotes.
pub open spec fn name_at(s: Seq<char>, t: Seq<Token>, i: int) -> Option<(Seq<char>, int)> {
    if at(t, i, TokenKind::Word) || at(t, i, TokenKind::QuotedWord) {
        Some((text(s, t[i]), i + 1))
    } else {
        None
    }
}

/// An optional alias: a name, or the empty text.
pub open spec fn alias_at(s: Seq<char>, t: Seq<Token>, i: int) -> (Seq<char>, int) {
    match name_at(s, t, i) {
        Some((a, j)) => (a, j),
        None => (Seq::empty(), i),
    }
}

pub open spec fn col_id_at(s: Seq<char>, t: Seq<Token>, i: int) -> Option<(ColIdM, int)> {
    match name_at(s, t, i) {
        Some((a, j)) => if at(t, j, TokenKind::Dot) {
            match name_at(s, t, j + 1) {
                Some((b, k)) => Some((ColIdM { table: a, column: b }, k)),
                None => None,
            }
        } else {
            Some((ColIdM { table: Seq::empty(), column: a }, j))
        },
        None => None,
    }
}

pub open spec fn col_ids_at(s: Seq<char>, t: Seq<Token>, i: int) -> Option<(Seq<ColIdM>, int)>
    decreases t.len() - i,
{
    match col_id_at(s, t, i) {
        Some((c, j)) => if at(t, j, TokenKind::Comma) {
            match col_ids_at(s, t, j + 1) {
                Some((cs, k)) => Some((seq![c] + cs, k)),
                None => None,
            }
        } else {
            Some((seq![c], j))
        },
        None => None,
    }
}

pub open spec fn targets_at(s: Seq<char>, t: Seq<Token>, i: int) -> Option<(Seq<ColIdM>, int)> {
    if at(t, i, TokenKind::Star) {
        Some((Seq::empty(), i + 1))
    } else {
        col_ids_at(s, t, i)
    }
}

pub open spec fn operand_at(s: Seq<char>, t: Seq<Token>, i: int) -> Option<(OperandM, int)> {
    if at(t, i, TokenKind::Str) || at(t, i, TokenKind::Num) {
        Some((OperandM::Constant(text(s, t[i])), i + 1))
    } else {
        match col_id_at(s, t, i) {
            Some((c, j)) => Some((OperandM::Column(c), j)),
            None => None,
        }
    }
}

pub open spec fn pred_at(s: Seq<char>, t: Seq<Token>, i: int) -> Option<(PredM, int)> {
    match col_id_at(s, t, i) {
        Some((l, j)) => if at(t, j, TokenKind::Equals) {
            match operand_at(s, t, j + 1) {
                Some((r, k)) => Some((PredM { left: l, right: r }, k)),
                None => None,
            }
        } else {
            None
        },
        None => None,
    }
}

pub open spec fn preds_at(s: Seq<char>, t: Seq<Token>, i: int) -> Option<(Seq<PredM>, int)>
    decreases t.len() - i,
{
    match pred_at(s, t, i) {
        Some((p, j)) => if kw(t, j, Keyword::And) {
            match preds_at(s, t, j + 1) {
                Some((ps, k)) => Some((seq![p] + ps, k)),
                None => None,
            }
        } else {
            Some((seq![p], j))
        },
        None => None,
    }
}

/// A query. The guards `i < j` hold wherever the rules match (each rule
/// reads at least one token) and only serve to show that the rules end.
pub open spec fn query_at(s: Seq<char>, t: Seq<Token>, i: int) -> Option<(QueryM, int)>
    decreases t.len() - i, 2int,
{
    if kw(t, i, Keyword::Select) {
        match targets_at(s, t, i + 1) {
            Some((tg, j)) => if kw(t, j, Keyword::From) && i < j {
                match factors_at(s, t, j + 1) {
                    Some((fs, k)) => if kw(t, k, Keyword::Where) {
                        match preds_at(s, t, k + 1) {
                            Some((ps, m)) => Some((QueryM { targets: tg, from: fs, preds: ps }, m)),
                            None => None,
                        }
                    } else {
                        Some((QueryM { targets: tg, from: fs, preds: Seq::empty() }, k))
                    },
                    None => None,
                }
            } else {
                None
            },
            None => None,
        }
    } else {
        None
    }
}

pub open spec fn factors_at(s: Seq<char>, t: Seq<Token>, i: int) -> Option<(Seq<FactorM>, int)>
    decreases t.len() - i, 1int,
{
    match factor_at(s, t, i) {
        Some((f, j)) => if at(t, j, TokenKind::Comma) {
            if i < j {
                match factors_at(s, t, j + 1) {
                    Some((fs, k)) => Some((seq![f] + fs, k)),
                    None => None,
                }
            } else {
                None
            }
        } else {
            Some((seq![f], j))
        },
        None => None,
    }
}

pub open spec fn factor_at(s: Seq<char>, t: Seq<Token>, i: int) -> Option<(FactorM, int)>
    decreases t.len() - i, 0int,
{
    if at(t, i, TokenKind::LParen) {
        match query_at(s, t, i + 1) {
            Some((q, j)) => if at(t, j, TokenKind::RParen) {
                let (a, k) = alias_at(s, t, j + 1);
                Some((FactorM::Derived { query: Box::new(q), alias: a }, k))
            } else {
                None
            },
            None => None,
        }
    } else {
        match name_at(s, t, i) {
            Some((n, j)) => {
                let (a, k) = alias_at(s, t, j);
                Some((FactorM::Named { table: n, alias: a }, k))
            },
            None => None,
        }
    }
}

/// The number that a token's text reads as.
pub open spec fn num_of(s: Seq<char>, tok: Token) -> Option<int> {
    spec_parse_int(text(s, tok))
}

/// A length argument `'(' num ')'` at `i`, if it fits in 32 bits.
pub open spec fn length_arg_at(s: Seq<char>, t: Seq<Token>, i: int) -> Option<u32> {
    if at(t, i, TokenKind::LParen) && at(t, i + 1, TokenKind::Num) && at(t, i + 2, TokenKind::RParen) {
        match num_of(s, t[i + 1]) {
            Some(n) => if 0 <= n <= u32::MAX {
                Some(n as u32)
            } else {
                None
            },
            None => None,
        }
    } else {
        None
    }
}

/// The arguments `'(' precision ',' scale ')'` at `i`, if the type allows them.
pub open spec fn numeric_args_at(s: Seq<char>, t: Seq<Token>, i: int) -> Option<(u32, u16)> {
    if at(t, i, TokenKind::LParen) && at(t, i + 1, TokenKind::Num) && at(t, i + 2, TokenKind::Comma) && at(
        t,
        i + 3,
        TokenKind::Num,
    ) && at(t, i + 4, TokenKind::RParen) {
        match (num_of(s, t[i + 1]), num_of(s, t[i + 3])) {
            (Some(p), Some(sc)) => if 0 < p <= crate::types::numeric::MAX_PRECISION_NUMERIC && 0 <= sc
                <= crate::types::numeric::MAX_SCALE_NUMERIC {
                Some((p as u32, sc as u16))
            } else {
                None
            },
            _ => None,
        }
    } else {
        None
    }
}

pub open spec fn type_at(s: Seq<char>, t: Seq<Token>, i: int) -> Option<(Type, int)> {
    if at(t, i, TokenKind::Word) {
        let w = text(s, t[i]);
        if word_is(w, "integer"@) {
            Some((Type::spec_new(Tag::Integer, 0, 0, false), i + 1))
        } else if word_is(w, "timestamp"@) {
            Some((Type::spec_new(Tag::Timestamp, 0, 0, false), i + 1))
        } else if word_is(w, "text"@) {
            Some((Type::spec_new(Tag::Text, 0, 0, false), i + 1))
        } else if word_is(w, "bool"@) {
            Some((Type::spec_new(Tag::Bool, 0, 0, false), i + 1))
        } else if word_is(w, "numeric"@) {
            match numeric_args_at(s, t, i + 1) {
                Some((p, sc)) => Some((Type::spec_new(Tag::Numeric, p, sc, false), i + 6)),
                None => None,
            }
        } else if word_is(w, "char"@) {
            match length_arg_at(s, t, i + 1) {
                Some(n) => Some((Type::spec_new(Tag::Char, n, 0, false), i + 4)),
                None => None,
            }
        } else if word_is(w, "varchar"@) {
            match length_arg_at(s, t, i + 1) {
                Some(n) => Some((Type::spec_new(Tag::VarChar, n, 0, false), i + 4)),
                None => None,
            }
        } else {
            None
        }
    } else {
        None
    }
}

/// The SQL word that names a column type, in lower case.
pub open spec fn tag_word(tag: Tag) -> Seq<char> {
    match tag {
        Tag::Bool => "bool"@,
        Tag::Char => "char"@,
        Tag::Integer => "integer"@,
        Tag::Numeric => "numeric"@,
        Tag::Text => "text"@,
        Tag::Timestamp => "timestamp"@,
        Tag::VarChar => "varchar"@,
    }
}

/// A word that matches two lower-case words, in any case, matches them on
/// their first letter alike.
proof fn lemma_same_first_letter(w: Seq<char>, a: Seq<char>, b: Seq<char>)
    requires
        word_is(w, a),
        word_is(w, b),
        a.len() > 0,
        'a' <= a[0] <= 'z',
        'a' <= b[0] <= 'z',
    ensures
        a[0] == b[0],
{
    assert(crate::parser::lexer::ci_eq(w[0], a[0]));
    assert(crate::parser::lexer::ci_eq(w[0], b[0]));
}

/// A column type is read from the word that names it, in any case: a type
/// read at `i` comes from a word that names the type's tag; a word that names
/// a tag is read as a type of that tag, if at all; and a word naming one of
/// the four types without arguments is read as that type, from that one token.
pub proof fn law_type_word_names_tag(s: Seq<char>, t: Seq<Token>, i: int, tag: Tag)
    ensures
        type_at(s, t, i) matches Some((ty, _)) ==> at(t, i, TokenKind::Word) && word_is(
            text(s, t[i]),
            tag_word(ty.spec_tag()),
        ),
        at(t, i, TokenKind::Word) && word_is(text(s, t[i]), tag_word(tag)) ==> (type_at(
            s,
            t,
            i,
        ) matches Some((ty, _)) ==> ty.spec_tag() == tag),
        at(t, i, TokenKind::Word) && word_is(text(s, t[i]), tag_word(tag)) && (tag == Tag::Integer
            || tag == Tag::Timestamp || tag == Tag::Text || tag == Tag::Bool) ==> (type_at(
            s,
            t,
            i,
        ) matches Some((ty, j)) && ty.spec_tag() == tag && j == i + 1),
{
    reveal_strlit("bool");
    reveal_strlit("char");
    reveal_strlit("integer");
    reveal_strlit("numeric");
    reveal_strlit("text");
    reveal_strlit("timestamp");
    reveal_strlit("varchar");
    crate::types::lemma_type_roundtrip(Tag::Integer, 0, 0, false);
    crate::types::lemma_type_roundtrip(Tag::Timestamp, 0, 0, false);
    crate::types::lemma_type_roundtrip(Tag::Text, 0, 0, false);
    crate::types::lemma_type_roundtrip(Tag::Bool, 0, 0, false);
    if at(t, i, TokenKind::Word) {
        let w = text(s, t[i]);
        match numeric_args_at(s, t, i + 1) {
            Some((p, sc)) => crate::types::lemma_type_roundtrip(Tag::Numeric, p, sc, false),
            None => {},
        }
        match length_arg_at(s, t, i + 1) {
            Some(n) => {
                crate::types::lemma_type_roundtrip(Tag::Char, n, 0, false);
                crate::types::lemma_type_roundtrip(Tag::VarChar, n, 0, false);
            },
            None => {},
        }
        if word_is(w, tag_word(tag)) {
            let x = tag_word(tag);
            if word_is(w, "integer"@) {
                lemma_same_first_letter(w, x, "integer"@);
            }
            if word_is(w, "timestamp"@) {
                lemma_same_first_letter(w, x, "timestamp"@);
            }
            if word_is(w, "text"@) {
                lemma_same_first_letter(w, x, "text"@);
            }
            if word_is(w, "bool"@) {
                lemma_same_first_letter(w, x, "bool"@);
            }
            if word_is(w, "numeric"@) {
                lemma_same_first_letter(w, x, "numeric"@);
            }
            if word_is(w, "char"@) {
                lemma_same_first_letter(w, x, "char"@);
            }
            if word_is(w, "varchar"@) {
                lemma_same_first_letter(w, x, "varchar"@);
            }
        }
    }
}

pub open spec fn column_at(s: Seq<char>, t: Seq<Token>, i: int) -> Option<(ColumnM, int)> {
    match name_at(s, t, i) {
        Some((id, j)) => match type_at(s, t, j) {
            Some((ty, k)) => if kw(t, k, Keyword::Not) && kw(t, k + 1, Keyword::Null) {
                Some((ColumnM { id, ty }, k + 2))
            } else {
                None
            },
            None => None,
        },
        None => None,
    }
}

pub open spec fn names_at(s: Seq<char>, t: Seq<Token>, i: int) -> Option<(Seq<Seq<char>>, int)>
    decreases t.len() - i,
{
    match name_at(s, t, i) {
        Some((n, j)) => if at(t, j, TokenKind::Comma) {
            match names_at(s, t, j + 1) {
                Some((ns, k)) => Some((seq![n] + ns, k)),
                None => None,
            }
        } else {
            Some((seq![n], j))
        },
        None => None,
    }
}

/// `PRIMARY KEY '(' name [',' name]... ')'`
pub open spec fn key_at(s: Seq<char>, t: Seq<Token>, i: int) -> Option<(Seq<Seq<char>>, int)> {
    if kw(t, i, Keyword::Primary) && kw(t, i + 1, Keyword::Key) && at(t, i + 2, TokenKind::LParen) {
        match names_at(s, t, i + 3) {
            Some((ns, j)) => if at(t, j, TokenKind::RParen) {
                Some((ns, j + 1))
            } else {
                None
            },
            None => None,
        }
    } else {
        None
    }
}

/// The column definitions and the key of a table, up to and with the
/// closing parenthesis.
pub open spec fn columns_at(s: Seq<char>, t: Seq<Token>, i: int) -> Option<
    (Seq<ColumnM>, Seq<Seq<char>>, int),
>
    decreases t.len() - i,
{
    match column_at(s, t, i) {
        Some((c, j)) => if at(t, j, TokenKind::RParen) {
            Some((seq![c], Seq::empty(), j + 1))
        } else if at(t, j, TokenKind::Comma) {
            if kw(t, j + 1, Keyword::Primary) {
                match key_at(s, t, j + 1) {
                    Some((pk, k)) => if at(t, k, TokenKind::RParen) {
                        Some((seq![c], pk, k + 1))
                    } else {
                        None
                    },
                    None => None,
                }
            } else {
                match columns_at(s, t, j + 1) {
                    Some((cs, pk, k)) => Some((seq![c] + cs, pk, k)),
                    None => None,
                }
            }
        } else {
            None
        },
        None => None,
    }
}

pub open spec fn table_body_at(s: Seq<char>, t: Seq<Token>, i: int) -> Option<
    (Seq<ColumnM>, Seq<Seq<char>>, int),
> {
    if at(t, i, TokenKind::RParen) {
        Some((Seq::empty(), Seq::empty(), i + 1))
    } else {
        columns_at(s, t, i)
    }
}

pub open spec fn create_at(s: Seq<char>, t: Seq<Token>, i: int) -> Option<(StatementM, int)> {
    if kw(t, i, Keyword::Create) && kw(t, i + 1, Keyword::Table) {
        match name_at(s, t, i + 2) {
            Some((id, j)) => if at(t, j, TokenKind::LParen) {
                match table_body_at(s, t, j + 1) {
                    Some((cs, pk, k)) => Some((StatementM::Create { id, columns: cs, primary_key: pk }, k)),
                    None => None,
                }
            } else {
                None
            },
            None => None,
        }
    } else {
        None
    }
}

/// The delimiter of a COPY without a DELIMITER clause.
pub open spec fn default_delimiter() -> Seq<char> {
    "|"@
}

pub open spec fn copy_at(s: Seq<char>, t: Seq<Token>, i: int) -> Option<(StatementM, int)> {
    if kw(t, i, Keyword::Copy) {
        match name_at(s, t, i + 1) {
            Some((tb, j)) => if kw(t, j, Keyword::From) && at(t, j + 1, TokenKind::Str) {
                let file = text(s, t[j + 1]);
                if kw(t, j + 2, Keyword::Delimiter) {
                    if at(t, j + 3, TokenKind::Str) {
                        Some((StatementM::Copy { table: tb, file, delimiter: text(s, t[j + 3]) }, j + 4))
                    } else {
                        None
                    }
                } else {
                    Some((StatementM::Copy { table: tb, file, delimiter: default_delimiter() }, j + 2))
                }
            } else {
                None
            },
            None => None,
        }
    } else {
        None
    }
}

pub open spec fn statement_at(s: Seq<char>, t: Seq<Token>, i: int) -> Option<(StatementM, int)> {
    if kw(t, i, Keyword::Create) {
        create_at(s, t, i)
    } else if kw(t, i, Keyword::Copy) {
        copy_at(s, t, i)
    } else {
        match query_at(s, t, i) {
            Some((q, j)) => Some((StatementM::Select(q), j)),
            None => None,
        }
    }
}

/// The statements from `i` to the end, each closed by `;`.
pub open spec fn statements_at(s: Seq<char>, t: Seq<Token>, i: int) -> Option<Seq<StatementM>>
    decreases t.len() - i,
{
    match statement_at(s, t, i) {
        Some((st, j)) => if at(t, j, TokenKind::Semicolon) {
            if j + 1 >= t.len() {
                Some(seq![st])
            } else if i < j {
                match statements_at(s, t, j + 1) {
                    Some(rest) => Some(seq![st] + rest),
                    None => None,
                }
            } else {
                None
            }
        } else {
            None
        },
        None => None,
    }
}

/// What the text reads as: its statements, or why it reads as none.
pub open spec fn spec_parse(s: Seq<char>) -> Result<Seq<StatementM>, ParseError> {
    match lex_from(s, 0) {
        None => Err(ParseError::Lexical),
        Some(t) => match statements_at(s, t, 0) {
            Some(sts) => Ok(sts),
            None => Err(ParseError::Syntax),
        },
    }
}

pub open spec fn col_id_is(c: ColId, m: ColIdM) -> bool {
    c.table@ == m.table && c.column@ == m.column
}

pub open spec fn pred_is(b: BinaryExpression, p: PredM) -> bool {
    &&& b.op == BinaryOperator::Eq
    &&& b.l matches Expression::ColumnRef(c) && col_id_is(c, p.left)
    &&& match p.right {
        OperandM::Column(m) => b.r matches Expression::ColumnRef(c) && col_id_is(c, m),
        OperandM::Constant(v) => b.r matches Expression::String(x) && x@ == v,
    }
}

/// The query is the one that the model describes.
pub open spec fn query_is(q: Query, m: QueryM) -> bool
    decreases q,
{
    &&& q.targets matches Some(v) && v@.len() == m.targets.len() && forall|k: int|
        0 <= k < m.targets.len() ==> col_id_is(#[trigger] v@[k], m.targets[k])
    &&& q.from@.len() == m.from.len()
    &&& forall|k: int|
        0 <= k < q.from@.len() ==> match #[trigger] q.from@[k] {
            TableFactor::Table(r) => m.from[k] matches FactorM::Named { table, alias } && r.table@ == table
                && r.alias@ == alias,
            TableFactor::Derived { query, alias } => m.from[k] matches FactorM::Derived {
                query: mq,
                alias: ma,
            } && alias@ == ma && query_is(*query, *mq),
        }
    &&& q.where_clause@.len() == m.preds.len()
    &&& forall|k: int| 0 <= k < m.preds.len() ==> pred_is(#[trigger] q.where_clause@[k], m.preds[k])
}

/// The statement is the one that the model describes.
pub open spec fn statement_is(st: Statement, m: StatementM) -> bool {
    match st {
        Statement::CreateTable(c) => m matches StatementM::Create { id, columns, primary_key } && c.table.id@
            == id && c.table.columns@.len() == columns.len() && (forall|k: int|
            0 <= k < columns.len() ==> (#[trigger] c.table.columns@[k]).id@ == columns[k].id
                && c.table.columns@[k].ty == columns[k].ty && c.table.columns@[k].not_null)
            && c.table.primary_key@.len() == primary_key.len() && (forall|k: int|
            0 <= k < primary_key.len() ==> (#[trigger] c.table.primary_key@[k])@ == primary_key[k]),
        Statement::CopyTable(c) => m matches StatementM::Copy { table, file, delimiter } && c.table@
            == table && c.file@ == file && c.delimiter@ == delimiter,
        Statement::Select(q) => m matches StatementM::Select(qm) && query_is(q, qm),
    }
}

/// The syntax tree holds the statements that the models describe, in order.
pub open spec fn ast_is(ast: AST, ms: Seq<StatementM>) -> bool {
    ast.statements@.len() == ms.len() && forall|k: int|
        0 <= k < ms.len() ==> statement_is(#[trigger] ast.statements@[k], ms[k])
}

/// The query model, and every one nested in it, reads from at least one table.
pub open spec fn query_m_ok(m: QueryM) -> bool
    decreases m,
{
    &&& m.from.len() >= 1
    &&& forall|k: int|
        0 <= k < m.from.len() ==> match #[trigger] m.from[k] {
            FactorM::Derived { query, .. } => query_m_ok(*query),
            _ => true,
        }
}

/// Every subquery among the factors is well formed.
pub open spec fn factors_m_ok(fs: Seq<FactorM>) -> bool {
    forall|k: int|
        0 <= k < fs.len() ==> match #[trigger] fs[k] {
            FactorM::Derived { query, .. } => query_m_ok(*query),
            _ => true,
        }
}

pub proof fn lemma_query_at_ok(s: Seq<char>, t: Seq<Token>, i: int)
    ensures
        query_at(s, t, i) matches Some((m, _)) ==> query_m_ok(m),
    decreases t.len() - i, 2int,
{
    if kw(t, i, Keyword::Select) {
        if let Some((tg, j)) = targets_at(s, t, i + 1) {
            if kw(t, j, Keyword::From) && i < j {
                lemma_factors_at_ok(s, t, j + 1);
            }
        }
    }
}

pub proof fn lemma_factors_at_ok(s: Seq<char>, t: Seq<Token>, i: int)
    ensures
        factors_at(s, t, i) matches Some((fs, _)) ==> fs.len() >= 1 && factors_m_ok(fs),
    decreases t.len() - i, 1int,
{
    lemma_factor_at_ok(s, t, i);
    if let Some((f, j)) = factor_at(s, t, i) {
        if at(t, j, TokenKind::Comma) && i < j {
            lemma_factors_at_ok(s, t, j + 1);
            if let Some((fs, k)) = factors_at(s, t, j + 1) {
                let all = seq![f] + fs;
                assert forall|x: int| 0 <= x < all.len() implies match #[trigger] all[x] {
                    FactorM::Derived { query, .. } => query_m_ok(*query),
                    _ => true,
                } by {
                    if x > 0 {
                        assert(all[x] == fs[x - 1]);
                    }
                }
            }
        }
    }
}

pub proof fn lemma_factor_at_ok(s: Seq<char>, t: Seq<Token>, i: int)
    ensures
        factor_at(s, t, i) matches Some((f, _)) ==> (f matches FactorM::Derived { query, .. } ==> query_m_ok(
            *query,
        )),
    decreases t.len() - i, 0int,
{
    if at(t, i, TokenKind::LParen) {
        lemma_query_at_ok(s, t, i + 1);
    }
}

/// Every query that the statements read is well formed.
pub proof fn lemma_statements_at_ok(s: Seq<char>, t: Seq<Token>, i: int)
    ensures
        statements_at(s, t, i) matches Some(ms) ==> forall|k: int|
            0 <= k < ms.len() ==> (#[trigger] ms[k] matches StatementM::Select(qm) ==> query_m_ok(qm)),
    decreases t.len() - i,
{
    lemma_query_at_ok(s, t, i);
    if let Some((st, j)) = statement_at(s, t, i) {
        if at(t, j, TokenKind::Semicolon) && j + 1 < t.len() && i < j {
            lemma_statements_at_ok(s, t, j + 1);
            if let Some(rest) = statements_at(s, t, j + 1) {
                let all = seq![st] + rest;
                assert forall|k: int| 0 <= k < all.len() implies (#[trigger] all[k] matches StatementM::Select(
                    qm,
                ) ==> query_m_ok(qm)) by {
                    if k > 0 {
                        assert(all[k] == rest[k - 1]);
                    }
                }
            }
        }
    }
}

/// A query that a well-formed model describes is one that semantic analysis
/// accepts as input: it reads from a table, and so does every subquery, and
/// its predicates hold no resolved column.
pub proof fn lemma_query_is_ok(q: Query, m: QueryM)
    requires
        query_is(q, m),
        query_m_ok(m),
    ensures
        query_ok(q),
    decreases q,
{
    assert forall|k: int| 0 <= k < q.from@.len() implies match #[trigger] q.from@[k] {
        TableFactor::Derived { query, .. } => query_ok(*query),
        _ => true,
    } by {
        match q.from@[k] {
            TableFactor::Derived { query, alias } => {
                let mk = m.from[k];
                if let FactorM::Derived { query: mq, alias: ma } = mk {
                    lemma_query_is_ok(*query, *mq);
                }
            },
            _ => {},
        }
    }
    assert forall|k: int| 0 <= k < q.where_clause@.len() implies expr_unresolved(
        #[trigger] q.where_clause@[k].l,
    ) && expr_unresolved(q.where_clause@[k].r) by {
        assert(pred_is(q.where_clause@[k], m.preds[k]));
    }
}

} // verus!
