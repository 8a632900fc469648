//! Splitting SQL text into tokens.
//!
//! Keywords are matched without regard to case; words keep their text.
//! A word in double quotes (`"order"`) is a word that is never a keyword, and
//! a text in single quotes (`'students.csv'`) is a string constant. A token
//! records where its text lies in the input: for quoted tokens, the text
//! between the quotes.

use vstd::prelude::*;

use crate::util::decimal::is_digit;

verus! {

/// The keywords of the statements.
#[derive(Debug, Clone, Copy, PartialEq, Eq, Structural)]
pub enum Keyword {
    And,
    Copy,
    Create,
    Delimiter,
    From,
    Key,
    Not,
    Null,
    Primary,
    Select,
    Table,
    Where,
}

/// What a token is.
#[derive(Debug, Clone, Copy, PartialEq, Eq, Structural)]
pub enum TokenKind {
    /// A name: a letter or `_`, then letters, digits and `_`
    Word,
    /// A name in double quotes
    QuotedWord,
    /// A text in single quotes
    Str,
    /// A run of digits
    Num,
    /// A keyword
    Kw(Keyword),
    LParen,
    RParen,
    Comma,
    Semicolon,
    Star,
    Dot,
    Equals,
}

/// A token: its kind and the positions (in chars) of its text.
#[derive(Debug, Clone, Copy, PartialEq, Eq, Structural)]
pub struct Token {
    pub kind: TokenKind,
    pub start: usize,
    pub end: usize,
}

pub open spec fn is_space(c: char) -> bool {
    c == ' ' || c == '\t' || c == '\n' || c == '\r'
}

pub open spec fn is_word_start(c: char) -> bool {
    ('a' <= c && c <= 'z') || ('A' <= c && c <= 'Z') || c == '_'
}

pub open spec fn is_word_char(c: char) -> bool {
    is_word_start(c) || is_digit(c)
}

/// The end of the run of word characters that starts at `i`.
pub open spec fn word_end(s: Seq<char>, i: int) -> int
    decreases s.len() - i,
{
    if 0 <= i < s.len() && is_word_char(s[i]) {
        word_end(s, i + 1)
    } else {
        i
    }
}

/// The end of the run of digits that starts at `i`.
pub open spec fn digits_end(s: Seq<char>, i: int) -> int
    decreases s.len() - i,
{
    if 0 <= i < s.len() && is_digit(s[i]) {
        digits_end(s, i + 1)
    } else {
        i
    }
}

/// The position of the first `q` at or after `i` (the length if there is none).
pub open spec fn quote_end(s: Seq<char>, i: int, q: char) -> int
    decreases s.len() - i,
{
    if 0 <= i < s.len() && s[i] != q {
        quote_end(s, i + 1, q)
    } else {
        i
    }
}

/// `c` is the lower-case letter `l`, in either case, or is `l`.
pub open spec fn ci_eq(c: char, l: char) -> bool {
    c == l || ('a' <= l && l <= 'z' && (c as u32) + 32 == (l as u32))
}

/// The word is `lower` (written in lower case), in any case.
pub open spec fn word_is(w: Seq<char>, lower: Seq<char>) -> bool {
    w.len() == lower.len() && forall|k: int| 0 <= k < w.len() ==> ci_eq(#[trigger] w[k], lower[k])
}

/// The keyword that the word is, if any.
pub open spec fn keyword_of(w: Seq<char>) -> Option<Keyword> {
    if word_is(w, "and"@) {
        Some(Keyword::And)
    } else if word_is(w, "copy"@) {
        Some(Keyword::Copy)
    } else if word_is(w, "create"@) {
        Some(Keyword::Create)
    } else if word_is(w, "delimiter"@) {
        Some(Keyword::Delimiter)
    } else if word_is(w, "from"@) {
        Some(Keyword::From)
    } else if word_is(w, "key"@) {
        Some(Keyword::Key)
    } else if word_is(w, "not"@) {
        Some(Keyword::Not)
    } else if word_is(w, "null"@) {
        Some(Keyword::Null)
    } else if word_is(w, "primary"@) {
        Some(Keyword::Primary)
    } else if word_is(w, "select"@) {
        Some(Keyword::Select)
    } else if word_is(w, "table"@) {
        Some(Keyword::Table)
    } else if word_is(w, "where"@) {
        Some(Keyword::Where)
    } else {
        None
    }
}

/// The token of a one-character symbol.
pub open spec fn symbol_kind(c: char) -> Option<TokenKind> {
    if c == '(' {
        Some(TokenKind::LParen)
    } else if c == ')' {
        Some(TokenKind::RParen)
    } else if c == ',' {
        Some(TokenKind::Comma)
    } else if c == ';' {
        Some(TokenKind::Semicolon)
    } else if c == '*' {
        Some(TokenKind::Star)
    } else if c == '.' {
        Some(TokenKind::Dot)
    } else if c == '=' {
        Some(TokenKind::Equals)
    } else {
        None
    }
}

/// The token in front of the tokens, if there are any.
pub open spec fn cons(tok: Token, rest: Option<Seq<Token>>) -> Option<Seq<Token>> {
    match rest {
        Some(r) => Some(seq![tok] + r),
        None => None,
    }
}

/// The tokens before the tokens, if there are any.
pub open spec fn prepend(toks: Seq<Token>, rest: Option<Seq<Token>>) -> Option<Seq<Token>> {
    match rest {
        Some(r) => Some(toks + r),
        None => None,
    }
}

pub proof fn lemma_word_end(s: Seq<char>, i: int)
    requires
        0 <= i <= s.len(),
    ensures
        i <= word_end(s, i) <= s.len(),
    decreases s.len() - i,
{
    if i < s.len() && is_word_char(s[i]) {
        lemma_word_end(s, i + 1);
    }
}

pub proof fn lemma_digits_end(s: Seq<char>, i: int)
    requires
        0 <= i <= s.len(),
    ensures
        i <= digits_end(s, i) <= s.len(),
    decreases s.len() - i,
{
    if i < s.len() && is_digit(s[i]) {
        lemma_digits_end(s, i + 1);
    }
}

pub proof fn lemma_quote_end(s: Seq<char>, i: int, q: char)
    requires
        0 <= i <= s.len(),
    ensures
        i <= quote_end(s, i, q) <= s.len(),
        quote_end(s, i, q) < s.len() ==> s[quote_end(s, i, q)] == q,
    decreases s.len() - i,
{
    if i < s.len() && s[i] != q {
        lemma_quote_end(s, i + 1, q);
    }
}

/// The tokens of the text from position `i` on; `None` where a character
/// starts no token or a quote is not closed.
pub open spec fn lex_from(s: Seq<char>, i: int) -> Option<Seq<Token>>
    decreases s.len() - i,
{
    if i < 0 || i >= s.len() {
        Some(Seq::empty())
    } else {
        let c = s[i];
        if is_space(c) {
            lex_from(s, i + 1)
        } else if is_word_start(c) {
            let e = word_end(s, i + 1);
            proof {
                lemma_word_end(s, i + 1);
            }
            let kind = match keyword_of(s.subrange(i, e)) {
                Some(k) => TokenKind::Kw(k),
                None => TokenKind::Word,
            };
            cons(Token { kind, start: i as usize, end: e as usize }, lex_from(s, e))
        } else if is_digit(c) {
            let e = digits_end(s, i + 1);
            proof {
                lemma_digits_end(s, i + 1);
            }
            cons(Token { kind: TokenKind::Num, start: i as usize, end: e as usize }, lex_from(s, e))
        } else if c == '\'' || c == '"' {
            let e = quote_end(s, i + 1, c);
            proof {
                lemma_quote_end(s, i + 1, c);
            }
            if e >= s.len() {
                None
            } else {
                let kind = if c == '\'' {
                    TokenKind::Str
                } else {
                    TokenKind::QuotedWord
                };
                cons(Token { kind, start: (i + 1) as usize, end: e as usize }, lex_from(s, e + 1))
            }
        } else {
            match symbol_kind(c) {
                Some(k) => cons(
                    Token { kind: k, start: i as usize, end: (i + 1) as usize },
                    lex_from(s, i + 1),
                ),
                None => None,
            }
        }
    }
}

/// The text of every token lies inside a text of length `len`.
pub open spec fn spans_within(toks: Seq<Token>, len: int) -> bool {
    forall|k: int| 0 <= k < toks.len() ==> (#[trigger] toks[k]).start <= toks[k].end <= len
}

proof fn lemma_cons_within(tok: Token, rest: Option<Seq<Token>>, len: int)
    requires
        tok.start <= tok.end <= len,
        rest matches Some(r) ==> spans_within(r, len),
    ensures
        cons(tok, rest) matches Some(ts) ==> spans_within(ts, len),
{
    if let Some(r) = rest {
        let ts = seq![tok] + r;
        assert forall|k: int| 0 <= k < ts.len() implies (#[trigger] ts[k]).start <= ts[k].end <= len by {
            if k > 0 {
                assert(ts[k] == r[k - 1]);
            }
        }
    }
}

/// The tokens that `lex_from` gives lie inside the text.
pub proof fn lemma_lex_within(s: Seq<char>, i: int)
    requires
        0 <= i,
        s.len() <= usize::MAX,
    ensures
        lex_from(s, i) matches Some(ts) ==> spans_within(ts, s.len() as int),
    decreases s.len() - i,
{
    if i < s.len() {
        let c = s[i];
        if is_space(c) {
            lemma_lex_within(s, i + 1);
        } else if is_word_start(c) {
            let e = word_end(s, i + 1);
            lemma_word_end(s, i + 1);
            lemma_lex_within(s, e);
            let kind = match keyword_of(s.subrange(i, e)) {
                Some(k) => TokenKind::Kw(k),
                None => TokenKind::Word,
            };
            lemma_cons_within(Token { kind, start: i as usize, end: e as usize }, lex_from(s, e), s.len() as int);
        } else if is_digit(c) {
            let e = digits_end(s, i + 1);
            lemma_digits_end(s, i + 1);
            lemma_lex_within(s, e);
            lemma_cons_within(
                Token { kind: TokenKind::Num, start: i as usize, end: e as usize },
                lex_from(s, e),
                s.len() as int,
            );
        } else if c == '\'' || c == '"' {
            let e = quote_end(s, i + 1, c);
            lemma_quote_end(s, i + 1, c);
            if e < s.len() {
                lemma_lex_within(s, e + 1);
                let kind = if c == '\'' {
                    TokenKind::Str
                } else {
                    TokenKind::QuotedWord
                };
                lemma_cons_within(
                    Token { kind, start: (i + 1) as usize, end: e as usize },
                    lex_from(s, e + 1),
                    s.len() as int,
                );
            }
        } else {
            lemma_lex_within(s, i + 1);
            if let Some(k) = symbol_kind(c) {
                lemma_cons_within(
                    Token { kind: k, start: i as usize, end: (i + 1) as usize },
                    lex_from(s, i + 1),
                    s.len() as int,
                );
            }
        }
    }
}

proof fn lemma_prepend_cons(toks: Seq<Token>, tok: Token, rest: Option<Seq<Token>>)
    ensures
        prepend(toks, cons(tok, rest)) == prepend(toks.push(tok), rest),
{
    if let Some(r) = rest {
        assert(toks + (seq![tok] + r) =~= toks.push(tok) + r);
    }
}

fn space(c: char) -> (b: bool)
    ensures
        b == is_space(c),
{
    c == ' ' || c == '\t' || c == '\n' || c == '\r'
}

fn word_start(c: char) -> (b: bool)
    ensures
        b == is_word_start(c),
{
    ('a' <= c && c <= 'z') || ('A' <= c && c <= 'Z') || c == '_'
}

fn digit(c: char) -> (b: bool)
    ensures
        b == is_digit(c),
{
    '0' <= c && c <= '9'
}

fn word_char(c: char) -> (b: bool)
    ensures
        b == is_word_char(c),
{
    word_start(c) || digit(c)
}

fn word_end_at(s: &Vec<char>, i: usize) -> (e: usize)
    requires
        i <= s@.len(),
    ensures
        e == word_end(s@, i as int),
{
    let mut j = i;
    while j < s.len() && word_char(s[j])
        invariant
            i <= j <= s@.len(),
            word_end(s@, j as int) == word_end(s@, i as int),
        decreases s@.len() - j,
    {
        j = j + 1;
    }
    j
}

fn digits_end_at(s: &Vec<char>, i: usize) -> (e: usize)
    requires
        i <= s@.len(),
    ensures
        e == digits_end(s@, i as int),
{
    let mut j = i;
    while j < s.len() && digit(s[j])
        invariant
            i <= j <= s@.len(),
            digits_end(s@, j as int) == digits_end(s@, i as int),
        decreases s@.len() - j,
    {
        j = j + 1;
    }
    j
}

fn quote_end_at(s: &Vec<char>, i: usize, q: char) -> (e: usize)
    requires
        i <= s@.len(),
    ensures
        e == quote_end(s@, i as int, q),
{
    let mut j = i;
    while j < s.len() && s[j] != q
        invariant
            i <= j <= s@.len(),
            quote_end(s@, j as int, q) == quote_end(s@, i as int, q),
        decreases s@.len() - j,
    {
        j = j + 1;
    }
    j
}

/// Is the word between `start` and `end` the given lower-case word, in any case?
fn word_eq(s: &Vec<char>, start: usize, end: usize, lower: &str) -> (b: bool)
    requires
        start <= end <= s@.len(),
    ensures
        b == word_is(s@.subrange(start as int, end as int), lower@),
{
    let ghost w = s@.subrange(start as int, end as int);
    let n = lower.unicode_len();
    if end - start != n {
        return false;
    }
    let mut k: usize = 0;
    while k < n
        invariant
            k <= n,
            n == lower@.len(),
            n == end - start,
            start <= end <= s@.len(),
            w == s@.subrange(start as int, end as int),
            forall|j: int| 0 <= j < k ==> ci_eq(#[trigger] w[j], lower@[j]),
        decreases n - k,
    {
        let c = s[start + k];
        let l = lower.get_char(k);
        if !(c == l || ('a' <= l && l <= 'z' && (c as u32) == (l as u32) - 32)) {
            assert(!ci_eq(w[k as int], lower@[k as int]));
            return false;
        }
        k = k + 1;
    }
    true
}

/// The keyword that the word between `start` and `end` is, if any.
fn keyword_at(s: &Vec<char>, start: usize, end: usize) -> (r: Option<Keyword>)
    requires
        start <= end <= s@.len(),
    ensures
        r == keyword_of(s@.subrange(start as int, end as int)),
{
    if word_eq(s, start, end, "and") {
        Some(Keyword::And)
    } else if word_eq(s, start, end, "copy") {
        Some(Keyword::Copy)
    } else if word_eq(s, start, end, "create") {
        Some(Keyword::Create)
    } else if word_eq(s, start, end, "delimiter") {
        Some(Keyword::Delimiter)
    } else if word_eq(s, start, end, "from") {
        Some(Keyword::From)
    } else if word_eq(s, start, end, "key") {
        Some(Keyword::Key)
    } else if word_eq(s, start, end, "not") {
        Some(Keyword::Not)
    } else if word_eq(s, start, end, "null") {
        Some(Keyword::Null)
    } else if word_eq(s, start, end, "primary") {
        Some(Keyword::Primary)
    } else if word_eq(s, start, end, "select") {
        Some(Keyword::Select)
    } else if word_eq(s, start, end, "table") {
        Some(Keyword::Table)
    } else if word_eq(s, start, end, "where") {
        Some(Keyword::Where)
    } else {
        None
    }
}

fn symbol(c: char) -> (r: Option<TokenKind>)
    ensures
        r == symbol_kind(c),
{
    if c == '(' {
        Some(TokenKind::LParen)
    } else if c == ')' {
        Some(TokenKind::RParen)
    } else if c == ',' {
        Some(TokenKind::Comma)
    } else if c == ';' {
        Some(TokenKind::Semicolon)
    } else if c == '*' {
        Some(TokenKind::Star)
    } else if c == '.' {
        Some(TokenKind::Dot)
    } else if c == '=' {
        Some(TokenKind::Equals)
    } else {
        None
    }
}

/// The tokens of the text, or `None` where a character starts no token or a
/// quote is not closed.
pub fn lex(s: &Vec<char>) -> (r: Option<Vec<Token>>)
    ensures
        match lex_from(s@, 0) {
            Some(ts) => r matches Some(v) && v@ == ts,
            None => r is None,
        },
{
    let n = s.len();
    let mut toks: Vec<Token> = Vec::new();
    let mut i: usize = 0;
    while i < n
        invariant
            i <= n,
            n == s@.len(),
            lex_from(s@, 0) == prepend(toks@, lex_from(s@, i as int)),
        decreases n - i,
    {
        let c = s[i];
        if space(c) {
            i = i + 1;
        } else if word_start(c) {
            let e = word_end_at(s, i + 1);
            proof {
                lemma_word_end(s@, i + 1);
            }
            let kind = match keyword_at(s, i, e) {
                Some(k) => TokenKind::Kw(k),
                None => TokenKind::Word,
            };
            let tok = Token { kind, start: i, end: e };
            proof {
                lemma_prepend_cons(toks@, tok, lex_from(s@, e as int));
            }
            toks.push(tok);
            i = e;
        } else if digit(c) {
            let e = digits_end_at(s, i + 1);
            proof {
                lemma_digits_end(s@, i + 1);
            }
            let tok = Token { kind: TokenKind::Num, start: i, end: e };
            proof {
                lemma_prepend_cons(toks@, tok, lex_from(s@, e as int));
            }
            toks.push(tok);
            i = e;
        } else if c == '\'' || c == '"' {
            let e = quote_end_at(s, i + 1, c);
            proof {
                lemma_quote_end(s@, i + 1, c);
            }
            if e >= n {
                return None;
            }
            let kind = if c == '\'' {
                TokenKind::Str
            } else {
                TokenKind::QuotedWord
            };
            let tok = Token { kind, start: i + 1, end: e };
            proof {
                lemma_prepend_cons(toks@, tok, lex_from(s@, e + 1));
            }
            toks.push(tok);
            i = e + 1;
        } else {
            match symbol(c) {
                Some(k) => {
                    let tok = Token { kind: k, start: i, end: i + 1 };
                    proof {
                        lemma_prepend_cons(toks@, tok, lex_from(s@, i + 1));
                    }
                    toks.push(tok);
                    i = i + 1;
                },
                None => {
                    return None;
                },
            }
        }
    }
    assert(toks@ + Seq::<Token>::empty() =~= toks@);
    Some(toks)
}

} // verus!
