//! Keyword search requests: from the typed expression to the query tree that
//! the server reads.
use vstd::prelude::*;
use vstd::utf8::encode_utf8;

use super::{FT_FILESIZE, FT_FILETYPE, FT_SOURCES};
use crate::bytes::{push_all, push_u16, push_u32, push_u64, u16_le, u32_le, u64_le};
use crate::text::{
    chars_of, eq_ignore_ascii_case, is_space, is_whitespace, lemma_stripped_bytes,
    lemma_trimmed_bytes, opt_text, same_text,
    same_text_ignoring_case, strip_leading, strip_start, text_of, trim, trim_bounds, trimmed,
};

verus! {

pub const FT_FILEFORMAT: u8 = 0x04;
pub const FT_COMPLETE_SOURCES: u8 = 0x30;
pub const ED2K_SEARCH_OP_GREATER_EQUAL: u8 = 3;
pub const ED2K_SEARCH_OP_LESS_EQUAL: u8 = 4;

/// How many AND, OR and NOT operators a keyword expression may hold. What the
/// criteria add does not count.
pub const MAX_SEARCH_OPERATORS: usize = 10;

/// Why a search cannot be asked.
#[derive(Debug, Clone, Copy, PartialEq, Eq, Structural)]
pub enum SearchError {
    UnterminatedQuote,
    InvalidExpression,
    MissingCloseParen,
    TrailingTokens,
    TermTooLong,
    MetaTagTooLong,
    TooComplex,
}

/// A node of a keyword expression.
#[derive(Debug)]
pub enum SearchExprNode {
    Term(String),
    And(Box<SearchExprNode>, Box<SearchExprNode>),
    Or(Box<SearchExprNode>, Box<SearchExprNode>),
    Not(Box<SearchExprNode>, Box<SearchExprNode>),
}

/// A token of a keyword expression.
#[derive(Debug, Clone, PartialEq, Eq)]
pub enum SearchToken {
    Term(String),
    And,
    Or,
    Not,
    OpenParen,
    CloseParen,
}

/// A keyword expression over texts.
pub enum Expr {
    Term(Seq<char>),
    And(Box<Expr>, Box<Expr>),
    Or(Box<Expr>, Box<Expr>),
    Not(Box<Expr>, Box<Expr>),
}

/// A token over texts.
pub enum Tok {
    Term(Seq<char>),
    And,
    Or,
    Not,
    OpenParen,
    CloseParen,
}

impl View for SearchToken {
    type V = Tok;

    open spec fn view(&self) -> Tok {
        match *self {
            SearchToken::Term(s) => Tok::Term(s@),
            SearchToken::And => Tok::And,
            SearchToken::Or => Tok::Or,
            SearchToken::Not => Tok::Not,
            SearchToken::OpenParen => Tok::OpenParen,
            SearchToken::CloseParen => Tok::CloseParen,
        }
    }
}

/// The tokens over texts.
pub open spec fn token_views(tokens: Seq<SearchToken>) -> Seq<Tok> {
    tokens.map_values(|t: SearchToken| t@)
}

/// The expression over texts.
pub open spec fn expr_of(node: SearchExprNode) -> Expr
    decreases node,
{
    match node {
        SearchExprNode::Term(s) => Expr::Term(s@),
        SearchExprNode::And(l, r) => Expr::And(Box::new(expr_of(*l)), Box::new(expr_of(*r))),
        SearchExprNode::Or(l, r) => Expr::Or(Box::new(expr_of(*l)), Box::new(expr_of(*r))),
        SearchExprNode::Not(l, r) => Expr::Not(Box::new(expr_of(*l)), Box::new(expr_of(*r))),
    }
}

// ---------------------------------------------------------------------------
// Tokens
// ---------------------------------------------------------------------------
/// Whether a bare word ends before `c`.
pub open spec fn ends_word(c: char) -> bool {
    is_space(c) || c == '(' || c == ')' || c == '"'
}

/// The first position from `i` on at which a bare word ends.
pub open spec fn word_end(s: Seq<char>, i: int) -> int
    decreases s.len() - i,
{
    if 0 <= i < s.len() && !ends_word(s[i]) {
        word_end(s, i + 1)
    } else {
        i
    }
}

/// The first position from `i` on that holds a quote, or the end.
pub open spec fn quote_end(s: Seq<char>, i: int) -> int
    decreases s.len() - i,
{
    if 0 <= i < s.len() && s[i] != '"' {
        quote_end(s, i + 1)
    } else {
        i
    }
}

/// The token that a bare word is: an operator in either case, else a term.
pub open spec fn word_token(word: Seq<char>) -> Tok {
    if same_text_ignoring_case(word, seq!['A', 'N', 'D']) {
        Tok::And
    } else if same_text_ignoring_case(word, seq!['O', 'R']) {
        Tok::Or
    } else if same_text_ignoring_case(word, seq!['N', 'O', 'T']) {
        Tok::Not
    } else {
        Tok::Term(word)
    }
}

/// `tokens` with the term `phrase` behind them, unless it is empty.
pub open spec fn with_phrase(tokens: Seq<Tok>, phrase: Seq<char>) -> Seq<Tok> {
    if phrase.len() > 0 {
        tokens.push(Tok::Term(phrase))
    } else {
        tokens
    }
}

/// The tokens of `s` from `i` on, behind those already in `tokens`.
pub open spec fn tokens_from(s: Seq<char>, i: int, tokens: Seq<Tok>) -> Result<
    Seq<Tok>,
    SearchError,
>
    decreases s.len() - i,
    via tokens_from_terminates
{
    if i < 0 || i >= s.len() {
        Ok(tokens)
    } else if is_space(s[i]) {
        tokens_from(s, i + 1, tokens)
    } else if s[i] == '(' {
        tokens_from(s, i + 1, tokens.push(Tok::OpenParen))
    } else if s[i] == ')' {
        tokens_from(s, i + 1, tokens.push(Tok::CloseParen))
    } else if s[i] == '"' {
        let end = quote_end(s, i + 1);
        if end >= s.len() {
            Err(SearchError::UnterminatedQuote)
        } else {
            tokens_from(s, end + 1, with_phrase(tokens, trimmed(s.subrange(i + 1, end))))
        }
    } else {
        let end = word_end(s, i);
        tokens_from(s, end, tokens.push(word_token(s.subrange(i, end))))
    }
}

#[via_fn]
proof fn tokens_from_terminates(s: Seq<char>, i: int, tokens: Seq<Tok>) {
    if 0 <= i < s.len() {
        lemma_quote_end(s, i + 1);
        lemma_word_end(s, i);
    }
}

proof fn lemma_quote_end(s: Seq<char>, i: int)
    requires
        0 <= i <= s.len(),
    ensures
        i <= quote_end(s, i) <= s.len(),
    decreases s.len() - i,
{
    if i < s.len() && s[i] != '"' {
        lemma_quote_end(s, i + 1);
    }
}

proof fn lemma_word_end(s: Seq<char>, i: int)
    requires
        0 <= i <= s.len(),
    ensures
        i <= word_end(s, i) <= s.len(),
        i < s.len() && !ends_word(s[i]) ==> i < word_end(s, i),
    decreases s.len() - i,
{
    if i < s.len() && !ends_word(s[i]) {
        lemma_word_end(s, i + 1);
    }
}

fn classify_word(word: String) -> (t: SearchToken)
    ensures
        t@ == word_token(word@),
{
    proof {
        reveal_strlit("AND");
        reveal_strlit("OR");
        reveal_strlit("NOT");
        assert("AND"@ =~= seq!['A', 'N', 'D']);
        assert("OR"@ =~= seq!['O', 'R']);
        assert("NOT"@ =~= seq!['N', 'O', 'T']);
    }
    if eq_ignore_ascii_case(word.as_str(), "AND") {
        SearchToken::And
    } else if eq_ignore_ascii_case(word.as_str(), "OR") {
        SearchToken::Or
    } else if eq_ignore_ascii_case(word.as_str(), "NOT") {
        SearchToken::Not
    } else {
        SearchToken::Term(word)
    }
}

fn push_token(tokens: &mut Vec<SearchToken>, token: SearchToken)
    ensures
        token_views(final(tokens)@) == token_views(old(tokens)@).push(token@),
{
    tokens.push(token);
    assert(token_views(tokens@) =~= token_views(old(tokens)@).push(token@));
}

/// Splits a typed expression into tokens. A quoted phrase is one term; an
/// empty phrase is none.
pub fn tokenize_search_expression(input: &str) -> (r: Result<Vec<SearchToken>, SearchError>)
    ensures
        match r {
            Ok(tokens) => tokens_from(input@, 0, Seq::empty()) == Ok::<_, SearchError>(
                token_views(tokens@),
            ),
            Err(e) => tokens_from(input@, 0, Seq::empty()) == Err::<Seq<Tok>, _>(e),
        },
{
    let chars: Vec<char> = chars_of(input);
    let c: &[char] = chars.as_slice();
    let mut tokens: Vec<SearchToken> = Vec::new();
    let mut i: usize = 0;
    assert(token_views(tokens@) =~= Seq::<Tok>::empty());
    while i < c.len()
        invariant
            c@ == input@,
            i <= c.len(),
            tokens_from(input@, 0, Seq::empty()) == tokens_from(
                input@,
                i as int,
                token_views(tokens@),
            ),
        decreases c@.len() - i,
    {
        let ch: char = c[i];
        if is_whitespace(ch) {
            i += 1;
        } else if ch == '(' {
            push_token(&mut tokens, SearchToken::OpenParen);
            i += 1;
        } else if ch == ')' {
            push_token(&mut tokens, SearchToken::CloseParen);
            i += 1;
        } else if ch == '"' {
            let from: usize = i + 1;
            let mut end: usize = from;
            proof {
                lemma_quote_end(c@, from as int);
            }
            while end < c.len() && c[end] != '"'
                invariant
                    from <= end <= c.len(),
                    quote_end(c@, end as int) == quote_end(c@, from as int),
                decreases c@.len() - end,
            {
                end += 1;
            }
            if end >= c.len() {
                return Err(SearchError::UnterminatedQuote);
            }
            let phrase: &[char] = vstd::slice::slice_subrange(c, from, end);
            let (a, b) = trim_bounds(phrase);
            if a < b {
                push_token(&mut tokens, SearchToken::Term(text_of(phrase, a, b)));
            }
            i = end + 1;
        } else {
            let from: usize = i;
            let mut end: usize = from;
            proof {
                lemma_word_end(c@, from as int);
            }
            while end < c.len() && !(is_whitespace(c[end]) || c[end] == '(' || c[end] == ')'
                || c[end] == '"')
                invariant
                    from <= end <= c.len(),
                    word_end(c@, end as int) == word_end(c@, from as int),
                decreases c@.len() - end,
            {
                end += 1;
            }
            push_token(&mut tokens, classify_word(text_of(c, from, end)));
            i = end;
        }
    }
    Ok(tokens)
}

// ---------------------------------------------------------------------------
// Parsing
// ---------------------------------------------------------------------------
/// A binary operator.
#[derive(Debug, Clone, Copy, PartialEq, Eq, Structural)]
pub enum SearchBinaryOperator {
    And,
    Or,
    Not,
}

/// The operator that stands at `pos`, how tightly it binds, and whether it is
/// only implied by two operands side by side.
pub open spec fn operator_at(t: Seq<Tok>, pos: int) -> Option<(SearchBinaryOperator, u8, bool)> {
    if 0 <= pos < t.len() {
        match t[pos] {
            Tok::And => Some((SearchBinaryOperator::And, 1, false)),
            Tok::Or => Some((SearchBinaryOperator::Or, 2, false)),
            Tok::Not => Some((SearchBinaryOperator::Not, 3, false)),
            Tok::Term(_) => Some((SearchBinaryOperator::And, 1, true)),
            Tok::OpenParen => Some((SearchBinaryOperator::And, 1, true)),
            Tok::CloseParen => None,
        }
    } else {
        None
    }
}

/// `left` and `right` under an operator.
pub open spec fn joined(op: SearchBinaryOperator, left: Expr, right: Expr) -> Expr {
    match op {
        SearchBinaryOperator::And => Expr::And(Box::new(left), Box::new(right)),
        SearchBinaryOperator::Or => Expr::Or(Box::new(left), Box::new(right)),
        SearchBinaryOperator::Not => Expr::Not(Box::new(left), Box::new(right)),
    }
}

/// The operand at `pos`, a term or an expression in parentheses, and the
/// position behind it.
pub open spec fn primary(t: Seq<Tok>, pos: int) -> Result<(Expr, int), SearchError>
    decreases t.len() - pos, 0int,
{
    if pos < 0 || pos >= t.len() {
        Err(SearchError::InvalidExpression)
    } else {
        match t[pos] {
            Tok::Term(s) => Ok((Expr::Term(s), pos + 1)),
            Tok::OpenParen => match expression(t, pos + 1, 1) {
                Err(e) => Err(e),
                Ok((e, end)) => if 0 <= end < t.len() && t[end] is CloseParen {
                    Ok((e, end + 1))
                } else {
                    Err(SearchError::MissingCloseParen)
                },
            },
            _ => Err(SearchError::InvalidExpression),
        }
    }
}

/// The expression at `pos` whose operators bind at least as tightly as
/// `min_precedence`, and the position behind it.
pub open spec fn expression(t: Seq<Tok>, pos: int, min_precedence: u8) -> Result<
    (Expr, int),
    SearchError,
>
    decreases t.len() - pos, 1int,
{
    match primary(t, pos) {
        Err(e) => Err(e),
        Ok((left, next)) => if pos < next <= t.len() {
            operators(t, next, min_precedence, left)
        } else {
            Ok((left, next))
        },
    }
}

/// `left` with the operators from `pos` on that bind at least as tightly as
/// `min_precedence`, joined from the left, and the position behind them.
pub open spec fn operators(t: Seq<Tok>, pos: int, min_precedence: u8, left: Expr) -> Result<
    (Expr, int),
    SearchError,
>
    decreases t.len() - pos, 2int,
{
    match operator_at(t, pos) {
        None => Ok((left, pos)),
        Some((op, precedence, implicit)) => if precedence < min_precedence {
            Ok((left, pos))
        } else {
            let from = if implicit {
                pos
            } else {
                pos + 1
            };
            match expression(t, from, (precedence + 1) as u8) {
                Err(e) => Err(e),
                Ok((right, next)) => if from < next <= t.len() {
                    operators(t, next, min_precedence, joined(op, left, right))
                } else {
                    Ok((left, next))
                },
            }
        },
    }
}

/// How many AND, OR and NOT nodes an expression holds.
pub open spec fn operator_count(e: Expr) -> nat
    decreases e,
{
    match e {
        Expr::Term(_) => 0,
        Expr::And(l, r) => 1 + operator_count(*l) + operator_count(*r),
        Expr::Or(l, r) => 1 + operator_count(*l) + operator_count(*r),
        Expr::Not(l, r) => 1 + operator_count(*l) + operator_count(*r),
    }
}

/// An operand consumes tokens, and more of them than it has operators.
proof fn lemma_primary_progress(t: Seq<Tok>, pos: int)
    ensures
        primary(t, pos) matches Ok((e, next)) ==> 0 <= pos < next <= t.len() && operator_count(e)
            < next - pos,
    decreases t.len() - pos, 0int,
{
    if 0 <= pos < t.len() && t[pos] is OpenParen {
        lemma_expression_progress(t, pos + 1, 1);
    }
}

proof fn lemma_expression_progress(t: Seq<Tok>, pos: int, min_precedence: u8)
    ensures
        expression(t, pos, min_precedence) matches Ok((e, next)) ==> 0 <= pos < next <= t.len()
            && operator_count(e) < next - pos,
    decreases t.len() - pos, 1int,
{
    lemma_primary_progress(t, pos);
    match primary(t, pos) {
        Ok((left, next)) => lemma_operators_progress(t, pos, next, min_precedence, left),
        Err(_) => {},
    }
}

proof fn lemma_operators_progress(t: Seq<Tok>, start: int, pos: int, min_precedence: u8, left: Expr)
    requires
        0 <= start < pos <= t.len(),
        operator_count(left) < pos - start,
    ensures
        operators(t, pos, min_precedence, left) matches Ok((e, next)) ==> pos <= next <= t.len()
            && operator_count(e) < next - start,
    decreases t.len() - pos, 2int,
{
    match operator_at(t, pos) {
        None => {},
        Some((op, precedence, implicit)) => {
            if precedence >= min_precedence {
                let from = if implicit {
                    pos
                } else {
                    pos + 1
                };
                lemma_expression_progress(t, from, (precedence + 1) as u8);
                match expression(t, from, (precedence + 1) as u8) {
                    Ok((right, next)) => {
                        lemma_operators_progress(
                            t,
                            start,
                            next,
                            min_precedence,
                            joined(op, left, right),
                        );
                    },
                    Err(_) => {},
                }
            }
        },
    }
}

/// What a typed expression means: nothing where it has no token.
pub open spec fn parsed(input: Seq<char>) -> Result<Option<Expr>, SearchError> {
    match tokens_from(input, 0, Seq::empty()) {
        Err(e) => Err(e),
        Ok(t) => if t.len() == 0 {
            Ok(None)
        } else {
            match expression(t, 0, 1) {
                Err(e) => Err(e),
                Ok((e, end)) => if end < t.len() {
                    Err(SearchError::TrailingTokens)
                } else {
                    Ok(Some(e))
                },
            }
        },
    }
}

/// The expression of an optional node.
pub open spec fn opt_expr(o: Option<SearchExprNode>) -> Option<Expr> {
    match o {
        Some(node) => Some(expr_of(node)),
        None => None,
    }
}

/// A parser over the tokens of one expression.
pub struct SearchExpressionParser {
    tokens: Vec<SearchToken>,
}

impl View for SearchExpressionParser {
    type V = Seq<Tok>;

    closed spec fn view(&self) -> Seq<Tok> {
        token_views(self.tokens@)
    }
}

impl SearchExpressionParser {
    /// A parser over `tokens`.
    pub fn new(tokens: Vec<SearchToken>) -> (r: Self)
        ensures
            r@ == token_views(tokens@),
    {
        Self { tokens }
    }

    fn peek_binary_operator(&self, pos: usize) -> (r: Option<(SearchBinaryOperator, u8, bool)>)
        ensures
            r == operator_at(self@, pos as int),
    {
        if pos >= self.tokens.len() {
            return None;
        }
        assert(self@[pos as int] == self.tokens@[pos as int]@);
        match &self.tokens[pos] {
            SearchToken::And => Some((SearchBinaryOperator::And, 1, false)),
            SearchToken::Or => Some((SearchBinaryOperator::Or, 2, false)),
            SearchToken::Not => Some((SearchBinaryOperator::Not, 3, false)),
            SearchToken::Term(_) => Some((SearchBinaryOperator::And, 1, true)),
            SearchToken::OpenParen => Some((SearchBinaryOperator::And, 1, true)),
            SearchToken::CloseParen => None,
        }
    }

    fn parse_primary(&self, pos: usize) -> (r: Result<(SearchExprNode, usize), SearchError>)
        ensures
            match r {
                Ok((node, next)) => primary(self@, pos as int) == Ok::<_, SearchError>(
                    (expr_of(node), next as int),
                ) && pos < next <= self@.len(),
                Err(e) => primary(self@, pos as int) == Err::<(Expr, int), _>(e),
            },
        decreases self@.len() - pos, 0int,
    {
        if pos >= self.tokens.len() {
            return Err(SearchError::InvalidExpression);
        }
        assert(self@[pos as int] == self.tokens@[pos as int]@);
        match &self.tokens[pos] {
            SearchToken::Term(value) => Ok((SearchExprNode::Term(value.clone()), pos + 1)),
            SearchToken::OpenParen => {
                let (node, end) = match self.parse_expression(pos + 1, 1) {
                    Ok(x) => x,
                    Err(e) => return Err(e),
                };
                if end < self.tokens.len() {
                    assert(self@[end as int] == self.tokens@[end as int]@);
                    match &self.tokens[end] {
                        SearchToken::CloseParen => Ok((node, end + 1)),
                        _ => Err(SearchError::MissingCloseParen),
                    }
                } else {
                    Err(SearchError::MissingCloseParen)
                }
            },
            _ => Err(SearchError::InvalidExpression),
        }
    }

    /// The expression at `pos` whose operators bind at least as tightly as
    /// `min_precedence`, and the position behind it.
    pub fn parse_expression(&self, pos: usize, min_precedence: u8) -> (r: Result<
        (SearchExprNode, usize),
        SearchError,
    >)
        ensures
            match r {
                Ok((node, next)) => expression(self@, pos as int, min_precedence) == Ok::<
                    _,
                    SearchError,
                >((expr_of(node), next as int)) && pos < next <= self@.len(),
                Err(e) => expression(self@, pos as int, min_precedence) == Err::<(Expr, int), _>(e),
            },
        decreases self@.len() - pos, 1int,
    {
        let (first, after) = match self.parse_primary(pos) {
            Ok(x) => x,
            Err(e) => return Err(e),
        };
        let mut lhs: SearchExprNode = first;
        let mut next: usize = after;
        let count: usize = self.tokens.len();
        loop
            invariant
                self@.len() == count,
                pos < next <= self@.len(),
                expression(self@, pos as int, min_precedence) == operators(
                    self@,
                    next as int,
                    min_precedence,
                    expr_of(lhs),
                ),
            decreases self@.len() - next,
        {
            let (operator, precedence, implicit) = match self.peek_binary_operator(next) {
                Some(x) => x,
                None => return Ok((lhs, next)),
            };
            if precedence < min_precedence {
                return Ok((lhs, next));
            }
            let from: usize = if implicit {
                next
            } else {
                next + 1
            };
            let (rhs, end) = match self.parse_expression(from, precedence + 1) {
                Ok(x) => x,
                Err(e) => return Err(e),
            };
            let ghost left = expr_of(lhs);
            let ghost right = expr_of(rhs);
            lhs = match operator {
                SearchBinaryOperator::And => SearchExprNode::And(Box::new(lhs), Box::new(rhs)),
                SearchBinaryOperator::Or => SearchExprNode::Or(Box::new(lhs), Box::new(rhs)),
                SearchBinaryOperator::Not => SearchExprNode::Not(Box::new(lhs), Box::new(rhs)),
            };
            assert(expr_of(lhs) == joined(operator, left, right));
            next = end;
        }
    }
}

/// Parses a typed expression.
pub fn parse_search_expression(input: &str) -> (r: Result<Option<SearchExprNode>, SearchError>)
    ensures
        match r {
            Ok(node) => parsed(input@) == Ok::<_, SearchError>(opt_expr(node)) && (node matches Some(
                n,
            ) ==> operator_count(expr_of(n)) <= usize::MAX),
            Err(e) => parsed(input@) == Err::<Option<Expr>, _>(e),
        },
{
    let tokens = match tokenize_search_expression(input) {
        Ok(tokens) => tokens,
        Err(e) => return Err(e),
    };
    if tokens.len() == 0 {
        return Ok(None);
    }
    let count: usize = tokens.len();
    let parser = SearchExpressionParser::new(tokens);
    proof {
        lemma_expression_progress(parser@, 0, 1);
    }
    match parser.parse_expression(0, 1) {
        Ok((node, end)) => {
            if end < count {
                Err(SearchError::TrailingTokens)
            } else {
                Ok(Some(node))
            }
        },
        Err(e) => Err(e),
    }
}

/// How many AND, OR and NOT nodes an expression holds.
pub fn count_search_operators(expression: &SearchExprNode) -> (r: usize)
    requires
        operator_count(expr_of(*expression)) <= usize::MAX,
    ensures
        r == operator_count(expr_of(*expression)),
    decreases expression,
{
    match expression {
        SearchExprNode::Term(_) => 0,
        SearchExprNode::And(l, r) => 1 + count_search_operators(l) + count_search_operators(r),
        SearchExprNode::Or(l, r) => 1 + count_search_operators(l) + count_search_operators(r),
        SearchExprNode::Not(l, r) => 1 + count_search_operators(l) + count_search_operators(r),
    }
}

// ---------------------------------------------------------------------------
// Encoding
// ---------------------------------------------------------------------------
/// A string parameter: `01`, a two-byte length and the text as UTF-8.
pub open spec fn string_param(text: Seq<char>) -> Result<Seq<u8>, SearchError> {
    if encode_utf8(text).len() > u16::MAX {
        Err(SearchError::TermTooLong)
    } else {
        Ok(seq![1u8] + u16_le(encode_utf8(text).len() as u16) + encode_utf8(text))
    }
}

/// A string parameter with a tag: `02`, a two-byte length, the text as UTF-8,
/// a name length of one and the tag.
pub open spec fn string_meta_node(tag: u8, text: Seq<char>) -> Result<Seq<u8>, SearchError> {
    if encode_utf8(text).len() > u16::MAX {
        Err(SearchError::MetaTagTooLong)
    } else {
        Ok(
            seq![2u8] + u16_le(encode_utf8(text).len() as u16) + encode_utf8(text) + u16_le(1)
                + seq![tag],
        )
    }
}

/// A numeric parameter with a comparison and a tag: `03` and four bytes, or
/// `08` and eight where four do not hold the value.
pub open spec fn numeric_meta_node(tag: u8, operator: u8, value: u64) -> Seq<u8> {
    (if value > u32::MAX {
        seq![8u8] + u64_le(value)
    } else {
        seq![3u8] + u32_le(value as u32)
    }) + seq![operator] + u16_le(1) + seq![tag]
}

/// The query tree of an expression, in prefix order.
pub open spec fn expression_bytes(e: Expr) -> Result<Seq<u8>, SearchError>
    decreases e,
{
    match e {
        Expr::Term(s) => string_param(s),
        Expr::And(l, r) => node_bytes(0, expression_bytes(*l), expression_bytes(*r)),
        Expr::Or(l, r) => node_bytes(1, expression_bytes(*l), expression_bytes(*r)),
        Expr::Not(l, r) => node_bytes(2, expression_bytes(*l), expression_bytes(*r)),
    }
}

/// A boolean node: `00`, the operator, and both sides.
pub open spec fn node_bytes(
    operator: u8,
    left: Result<Seq<u8>, SearchError>,
    right: Result<Seq<u8>, SearchError>,
) -> Result<Seq<u8>, SearchError> {
    match (left, right) {
        (Ok(l), Ok(r)) => Ok(seq![0u8, operator] + l + r),
        (Err(e), _) => Err(e),
        (_, Err(e)) => Err(e),
    }
}

/// The terms of an expression that only ANDs terms together.
pub open spec fn flat_terms(e: Expr) -> Option<Seq<Seq<char>>>
    decreases e,
{
    match e {
        Expr::Term(s) => Some(seq![s]),
        Expr::And(l, r) => match (flat_terms(*l), flat_terms(*r)) {
            (Some(x), Some(y)) => Some(x + y),
            _ => None,
        },
        _ => None,
    }
}

/// Texts with one space between each two.
pub open spec fn space_joined(terms: Seq<Seq<char>>) -> Seq<char>
    decreases terms.len(),
{
    if terms.len() == 0 {
        Seq::empty()
    } else if terms.len() == 1 {
        terms[0]
    } else {
        space_joined(terms.drop_last()).push(' ') + terms.last()
    }
}

/// The keyword part of a request: one string for terms that are only ANDed, a
/// tree otherwise, and nothing for no expression.
pub open spec fn keyword_bytes(e: Option<Expr>) -> Result<Seq<u8>, SearchError> {
    match e {
        None => Ok(Seq::empty()),
        Some(e) => match flat_terms(e) {
            Some(terms) => string_param(space_joined(terms)),
            None => expression_bytes(e),
        },
    }
}

/// What the server shall filter on besides the keywords.
#[derive(Debug, Clone)]
pub struct SearchCriteria {
    /// File type label; the labels `Arc` and `Iso` go out as `Pro`.
    pub file_type: Option<String>,
    pub extension: Option<String>,
    pub min_size: Option<u64>,
    pub max_size: Option<u64>,
    pub min_availability: Option<u32>,
    pub min_complete_sources: Option<u32>,
}

/// What search criteria say.
pub struct CriteriaView {
    pub file_type: Option<Seq<char>>,
    pub extension: Option<Seq<char>>,
    pub min_size: Option<u64>,
    pub max_size: Option<u64>,
    pub min_availability: Option<u32>,
    pub min_complete_sources: Option<u32>,
}

impl View for SearchCriteria {
    type V = CriteriaView;

    open spec fn view(&self) -> CriteriaView {
        CriteriaView {
            file_type: opt_text(self.file_type),
            extension: opt_text(self.extension),
            min_size: self.min_size,
            max_size: self.max_size,
            min_availability: self.min_availability,
            min_complete_sources: self.min_complete_sources,
        }
    }
}

/// Criteria that ask for nothing.
pub open spec fn no_criteria() -> CriteriaView {
    CriteriaView {
        file_type: None,
        extension: None,
        min_size: None,
        max_size: None,
        min_availability: None,
        min_complete_sources: None,
    }
}

impl Default for SearchCriteria {
    /// Criteria that ask for nothing.
    fn default() -> (r: Self)
        ensures
            r@ == no_criteria(),
    {
        SearchCriteria {
            file_type: None,
            extension: None,
            min_size: None,
            max_size: None,
            min_availability: None,
            min_complete_sources: None,
        }
    }
}

impl SearchCriteria {
    /// Whether the criteria ask for nothing.
    pub fn is_empty(&self) -> (r: bool)
        ensures
            r == (self@ == no_criteria()),
    {
        self.file_type.is_none() && self.extension.is_none() && self.min_size.is_none()
            && self.max_size.is_none() && self.min_availability.is_none()
            && self.min_complete_sources.is_none()
    }
}

/// The label that a file type goes out under, if any.
pub open spec fn wire_type(file_type: Seq<char>) -> Option<Seq<char>> {
    let label = trimmed(file_type);
    if label.len() == 0 {
        None
    } else if label == seq!['A', 'r', 'c'] || label == seq!['I', 's', 'o'] {
        Some(seq!['P', 'r', 'o'])
    } else {
        Some(label)
    }
}

/// The label that a file type goes out under, if any.
pub fn wire_file_type(file_type: &str) -> (r: Option<String>)
    ensures
        opt_text(r) == wire_type(file_type@),
{
    let label: String = trim(file_type);
    proof {
        reveal_strlit("Arc");
        reveal_strlit("Iso");
        reveal_strlit("Pro");
        assert("Arc"@ =~= seq!['A', 'r', 'c']);
        assert("Iso"@ =~= seq!['I', 's', 'o']);
        assert("Pro"@ =~= seq!['P', 'r', 'o']);
    }
    if label.as_str().is_empty() {
        return None;
    }
    if same_text(label.as_str(), "Arc") || same_text(label.as_str(), "Iso") {
        return Some("Pro".to_owned());
    }
    Some(label)
}

/// The extension that goes out, without white space around it and without
/// leading dots.
pub open spec fn wire_extension(extension: Seq<char>) -> Seq<char> {
    strip_leading(trimmed(extension), '.')
}

/// `nodes` with a numeric condition behind them, where one is asked for.
pub open spec fn with_number(
    nodes: Seq<Seq<u8>>,
    tag: u8,
    operator: u8,
    value: Option<u64>,
) -> Seq<Seq<u8>> {
    match value {
        Some(v) => nodes.push(numeric_meta_node(tag, operator, v)),
        None => nodes,
    }
}

/// `nodes` with a text condition behind them, where one is asked for.
pub open spec fn with_text(nodes: Seq<Seq<u8>>, tag: u8, text: Option<Seq<char>>) -> Result<
    Seq<Seq<u8>>,
    SearchError,
> {
    match text {
        Some(s) => match string_meta_node(tag, s) {
            Ok(node) => Ok(nodes.push(node)),
            Err(e) => Err(e),
        },
        None => Ok(nodes),
    }
}

/// A 32-bit number as a 64-bit one.
pub open spec fn widened(value: Option<u32>) -> Option<u64> {
    match value {
        Some(v) => Some(v as u64),
        None => None,
    }
}

/// The text of the file type condition.
pub open spec fn type_condition(c: CriteriaView) -> Option<Seq<char>> {
    match c.file_type {
        Some(t) => wire_type(t),
        None => None,
    }
}

/// The text of the extension condition.
pub open spec fn extension_condition(c: CriteriaView) -> Option<Seq<char>> {
    match c.extension {
        Some(e) => if wire_extension(e).len() > 0 {
            Some(wire_extension(e))
        } else {
            None
        },
        None => None,
    }
}

/// The conditions that criteria add, in the order in which they go out:
/// complete sources, type, least size, greatest size, availability, extension.
pub open spec fn constraint_nodes(c: CriteriaView) -> Result<Seq<Seq<u8>>, SearchError> {
    let complete = with_number(
        Seq::empty(),
        FT_COMPLETE_SOURCES,
        ED2K_SEARCH_OP_GREATER_EQUAL,
        widened(c.min_complete_sources),
    );
    match with_text(complete, FT_FILETYPE, type_condition(c)) {
        Err(e) => Err(e),
        Ok(typed) => {
            let sized = with_number(
                with_number(typed, FT_FILESIZE, ED2K_SEARCH_OP_GREATER_EQUAL, c.min_size),
                FT_FILESIZE,
                ED2K_SEARCH_OP_LESS_EQUAL,
                c.max_size,
            );
            let available = with_number(
                sized,
                FT_SOURCES,
                ED2K_SEARCH_OP_GREATER_EQUAL,
                widened(c.min_availability),
            );
            with_text(available, FT_FILEFORMAT, extension_condition(c))
        },
    }
}

/// Conditions joined by AND from the right: `AND(c0, AND(c1, ...))`.
pub open spec fn and_chain(nodes: Seq<Seq<u8>>) -> Seq<u8>
    decreases nodes.len(),
{
    if nodes.len() == 0 {
        Seq::empty()
    } else if nodes.len() == 1 {
        nodes[0]
    } else {
        seq![0u8, 0u8] + nodes[0] + and_chain(nodes.skip(1))
    }
}

/// The request for a typed expression under criteria: the keyword part, joined
/// by AND with the conditions where there are both.
pub open spec fn search_request(term: Seq<char>, c: CriteriaView) -> Result<
    Seq<u8>,
    SearchError,
> {
    match parsed(term) {
        Err(e) => Err(e),
        Ok(e) => match keyword_bytes(e) {
            Err(e) => Err(e),
            Ok(keyword) => match constraint_nodes(c) {
                Err(e) => Err(e),
                Ok(nodes) => if e is Some && operator_count(e->Some_0) > MAX_SEARCH_OPERATORS {
                    Err(SearchError::TooComplex)
                } else if keyword.len() == 0 || nodes.len() == 0 {
                    Ok(keyword)
                } else {
                    Ok(seq![0u8, 0u8] + keyword + and_chain(nodes))
                },
            },
        },
    }
}

/// Appends a string parameter.
pub fn encode_search_string_param(payload: &mut Vec<u8>, value: &str) -> (r: Result<
    (),
    SearchError,
>)
    ensures
        match r {
            Ok(()) => string_param(value@) matches Ok(p) && final(payload)@ == old(payload)@ + p,
            Err(e) => string_param(value@) == Err::<Seq<u8>, _>(e),
        },
{
    let value_bytes: &[u8] = value.as_bytes();
    if value_bytes.len() > 0xFFFF {
        return Err(SearchError::TermTooLong);
    }
    payload.push(1);
    push_u16(payload, value_bytes.len() as u16);
    push_all(payload, value_bytes);
    assert(payload@ =~= old(payload)@ + string_param(value@)->Ok_0);
    Ok(())
}

/// A string parameter with a tag.
pub fn encode_string_meta_node(meta_tag_id: u8, value: &str) -> (r: Result<Vec<u8>, SearchError>)
    ensures
        match r {
            Ok(node) => string_meta_node(meta_tag_id, value@) == Ok::<_, SearchError>(node@),
            Err(e) => string_meta_node(meta_tag_id, value@) == Err::<Seq<u8>, _>(e),
        },
{
    let bytes: &[u8] = value.as_bytes();
    if bytes.len() > 0xFFFF {
        return Err(SearchError::MetaTagTooLong);
    }
    let mut node: Vec<u8> = Vec::new();
    node.push(2);
    push_u16(&mut node, bytes.len() as u16);
    push_all(&mut node, bytes);
    push_u16(&mut node, 1);
    node.push(meta_tag_id);
    assert(node@ =~= string_meta_node(meta_tag_id, value@)->Ok_0);
    Ok(node)
}

/// A numeric parameter with a comparison and a tag.
pub fn encode_numeric_meta_node(meta_tag_id: u8, operator: u8, value: u64) -> (node: Vec<u8>)
    ensures
        node@ == numeric_meta_node(meta_tag_id, operator, value),
{
    let mut node: Vec<u8> = Vec::with_capacity(9);
    if value > 0xFFFF_FFFF {
        node.push(8);
        push_u64(&mut node, value);
    } else {
        node.push(3);
        push_u32(&mut node, value as u32);
    }
    node.push(operator);
    push_u16(&mut node, 1);
    node.push(meta_tag_id);
    assert(node@ =~= numeric_meta_node(meta_tag_id, operator, value));
    node
}

/// Appends the query tree of an expression. After an error the buffer may hold
/// part of it.
pub fn encode_search_expression(payload: &mut Vec<u8>, expression: &SearchExprNode) -> (r: Result<
    (),
    SearchError,
>)
    ensures
        match r {
            Ok(()) => expression_bytes(expr_of(*expression)) matches Ok(p) && final(payload)@
                == old(payload)@ + p,
            Err(e) => expression_bytes(expr_of(*expression)) == Err::<Seq<u8>, _>(e),
        },
    decreases expression,
{
    let (operator, left, right) = match expression {
        SearchExprNode::Term(value) => return encode_search_string_param(payload, value.as_str()),
        SearchExprNode::And(l, r) => (0u8, l, r),
        SearchExprNode::Or(l, r) => (1u8, l, r),
        SearchExprNode::Not(l, r) => (2u8, l, r),
    };
    payload.push(0);
    payload.push(operator);
    match encode_search_expression(payload, left) {
        Ok(()) => {},
        Err(e) => return Err(e),
    }
    match encode_search_expression(payload, right) {
        Ok(()) => {},
        Err(e) => {
            proof {
                lemma_expression_error(expr_of(**left));
            }
            return Err(e);
        },
    }
    assert(payload@ =~= old(payload)@ + expression_bytes(expr_of(*expression))->Ok_0);
    Ok(())
}

/// The only error of a query tree is a term that is too long.
proof fn lemma_expression_error(e: Expr)
    ensures
        expression_bytes(e) matches Err(err) ==> err == SearchError::TermTooLong,
    decreases e,
{
    match e {
        Expr::Term(_) => {},
        Expr::And(l, r) => {
            lemma_expression_error(*l);
            lemma_expression_error(*r);
        },
        Expr::Or(l, r) => {
            lemma_expression_error(*l);
            lemma_expression_error(*r);
        },
        Expr::Not(l, r) => {
            lemma_expression_error(*l);
            lemma_expression_error(*r);
        },
    }
}

/// Texts of owned strings.
pub open spec fn texts(v: Seq<String>) -> Seq<Seq<char>> {
    v.map_values(|s: String| s@)
}

/// Appends the terms of an expression that only ANDs terms together. Where it
/// does more, the answer is `false`.
pub fn collect_flat_and_terms(expression: &SearchExprNode, terms: &mut Vec<String>) -> (r: bool)
    ensures
        r == (flat_terms(expr_of(*expression)) is Some),
        r ==> texts(final(terms)@) == texts(old(terms)@) + flat_terms(
            expr_of(*expression),
        )->Some_0,
    decreases expression,
{
    match expression {
        SearchExprNode::Term(value) => {
            terms.push(value.clone());
            assert(texts(terms@) =~= texts(old(terms)@) + seq![value@]);
            true
        },
        SearchExprNode::And(left, right) => {
            if !collect_flat_and_terms(left, terms) {
                return false;
            }
            if !collect_flat_and_terms(right, terms) {
                return false;
            }
            assert(texts(terms@) =~= texts(old(terms)@) + flat_terms(
                expr_of(*expression),
            )->Some_0);
            true
        },
        _ => false,
    }
}

/// The terms of an expression that only ANDs terms together.
pub fn flatten_and_terms(expression: &SearchExprNode) -> (r: Option<Vec<String>>)
    ensures
        match r {
            Some(terms) => flat_terms(expr_of(*expression)) == Some(texts(terms@)),
            None => flat_terms(expr_of(*expression)) is None,
        },
{
    let mut terms: Vec<String> = Vec::new();
    assert(texts(terms@) =~= Seq::empty());
    if collect_flat_and_terms(expression, &mut terms) {
        assert(texts(terms@) =~= flat_terms(expr_of(*expression))->Some_0);
        Some(terms)
    } else {
        None
    }
}

fn join_with_spaces(terms: &Vec<String>) -> (r: String)
    ensures
        r@ == space_joined(texts(terms@)),
{
    let mut out: String = String::new();
    let mut i: usize = 0;
    let ghost all = texts(terms@);
    assert(all.take(0) =~= Seq::empty());
    while i < terms.len()
        invariant
            i <= terms@.len(),
            all == texts(terms@),
            out@ == space_joined(all.take(i as int)),
        decreases terms@.len() - i,
    {
        let ghost next = all.take(i + 1);
        assert(next.drop_last() =~= all.take(i as int));
        assert(next.last() == terms@[i as int]@);
        if i > 0 {
            out.push(' ');
        }
        out.append(terms[i].as_str());
        assert(out@ =~= space_joined(next));
        i += 1;
    }
    assert(all.take(i as int) =~= all);
    out
}

/// The keyword part of a request.
pub fn encode_keyword_payload(expression: Option<&SearchExprNode>) -> (r: Result<
    Vec<u8>,
    SearchError,
>)
    ensures
        match r {
            Ok(payload) => keyword_bytes(
                match expression {
                    Some(e) => Some(expr_of(*e)),
                    None => None,
                },
            ) == Ok::<_, SearchError>(payload@),
            Err(e) => keyword_bytes(
                match expression {
                    Some(e) => Some(expr_of(*e)),
                    None => None,
                },
            ) == Err::<Seq<u8>, _>(e),
        },
{
    let mut payload: Vec<u8> = Vec::new();
    let expression: &SearchExprNode = match expression {
        Some(e) => e,
        None => return Ok(payload),
    };
    match flatten_and_terms(expression) {
        Some(terms) => match encode_search_string_param(
            &mut payload,
            join_with_spaces(&terms).as_str(),
        ) {
            Ok(()) => {
                assert(payload@ =~= keyword_bytes(Some(expr_of(*expression)))->Ok_0);
                Ok(payload)
            },
            Err(e) => Err(e),
        },
        None => match encode_search_expression(&mut payload, expression) {
            Ok(()) => {
                assert(payload@ =~= keyword_bytes(Some(expr_of(*expression)))->Ok_0);
                Ok(payload)
            },
            Err(e) => Err(e),
        },
    }
}

/// The bytes of each node.
pub open spec fn node_views(v: Seq<Vec<u8>>) -> Seq<Seq<u8>> {
    v.map_values(|n: Vec<u8>| n@)
}

/// Conditions joined by AND from the right.
pub fn fold_and_chain(constraints: &Vec<Vec<u8>>) -> (out: Vec<u8>)
    ensures
        out@ == and_chain(node_views(constraints@)),
{
    let mut out: Vec<u8> = Vec::new();
    let mut i: usize = 0;
    let ghost all = node_views(constraints@);
    assert(all.skip(0) =~= all);
    assert(out@ + and_chain(all) =~= and_chain(all));
    while i < constraints.len()
        invariant
            i <= constraints@.len(),
            all == node_views(constraints@),
            out@ + and_chain(all.skip(i as int)) == and_chain(all),
        decreases constraints@.len() - i,
    {
        let ghost here = all.skip(i as int);
        let ghost before = out@;
        assert(here[0] == constraints@[i as int]@);
        assert(here.skip(1) =~= all.skip(i + 1));
        if i + 1 < constraints.len() {
            out.push(0);
            out.push(0);
        }
        push_all(&mut out, constraints[i].as_slice());
        i += 1;
        assert(out@ + and_chain(all.skip(i as int)) =~= before + and_chain(here));
    }
    assert(all.skip(i as int) =~= Seq::empty());
    assert(out@ + Seq::<u8>::empty() =~= out@);
    out
}

fn push_node(nodes: &mut Vec<Vec<u8>>, node: Vec<u8>)
    ensures
        node_views(final(nodes)@) == node_views(old(nodes)@).push(node@),
{
    nodes.push(node);
    assert(node_views(nodes@) =~= node_views(old(nodes)@).push(node@));
}

fn push_number(nodes: &mut Vec<Vec<u8>>, tag: u8, operator: u8, value: Option<u64>)
    ensures
        node_views(final(nodes)@) == with_number(node_views(old(nodes)@), tag, operator, value),
{
    match value {
        Some(v) => push_node(nodes, encode_numeric_meta_node(tag, operator, v)),
        None => {},
    }
}

fn push_text(nodes: &mut Vec<Vec<u8>>, tag: u8, text: Option<String>) -> (r: Result<(), SearchError>)
    ensures
        match r {
            Ok(()) => with_text(node_views(old(nodes)@), tag, opt_text(text)) == Ok::<
                _,
                SearchError,
            >(node_views(final(nodes)@)),
            Err(e) => with_text(node_views(old(nodes)@), tag, opt_text(text)) == Err::<
                Seq<Seq<u8>>,
                _,
            >(e),
        },
{
    match text {
        Some(s) => match encode_string_meta_node(tag, s.as_str()) {
            Ok(node) => {
                push_node(nodes, node);
                Ok(())
            },
            Err(e) => Err(e),
        },
        None => Ok(()),
    }
}

fn widen(value: Option<u32>) -> (r: Option<u64>)
    ensures
        r == widened(value),
{
    match value {
        Some(v) => Some(v as u64),
        None => None,
    }
}

fn encode_constraints(criteria: &SearchCriteria) -> (r: Result<Vec<Vec<u8>>, SearchError>)
    ensures
        match r {
            Ok(nodes) => constraint_nodes(criteria@) == Ok::<_, SearchError>(node_views(nodes@)),
            Err(e) => constraint_nodes(criteria@) == Err::<Seq<Seq<u8>>, _>(e),
        },
{
    let mut nodes: Vec<Vec<u8>> = Vec::new();
    assert(node_views(nodes@) =~= Seq::empty());
    push_number(
        &mut nodes,
        FT_COMPLETE_SOURCES,
        ED2K_SEARCH_OP_GREATER_EQUAL,
        widen(criteria.min_complete_sources),
    );
    let label = match &criteria.file_type {
        Some(t) => wire_file_type(t.as_str()),
        None => None,
    };
    match push_text(&mut nodes, FT_FILETYPE, label) {
        Ok(()) => {},
        Err(e) => return Err(e),
    }
    push_number(&mut nodes, FT_FILESIZE, ED2K_SEARCH_OP_GREATER_EQUAL, criteria.min_size);
    push_number(&mut nodes, FT_FILESIZE, ED2K_SEARCH_OP_LESS_EQUAL, criteria.max_size);
    push_number(
        &mut nodes,
        FT_SOURCES,
        ED2K_SEARCH_OP_GREATER_EQUAL,
        widen(criteria.min_availability),
    );
    let extension = match &criteria.extension {
        Some(e) => {
            let e: String = strip_start(trim(e.as_str()).as_str(), '.');
            if e.as_str().is_empty() {
                None
            } else {
                Some(e)
            }
        },
        None => None,
    };
    match push_text(&mut nodes, FT_FILEFORMAT, extension) {
        Ok(()) => Ok(nodes),
        Err(e) => Err(e),
    }
}

/// Encodes the request for a typed expression under criteria.
pub fn encode_search_request_with_criteria(term: &str, criteria: &SearchCriteria) -> (r: Result<
    Vec<u8>,
    SearchError,
>)
    ensures
        match r {
            Ok(payload) => search_request(term@, criteria@) == Ok::<_, SearchError>(payload@),
            Err(e) => search_request(term@, criteria@) == Err::<Seq<u8>, _>(e),
        },
{
    let keyword_expression = match parse_search_expression(term) {
        Ok(e) => e,
        Err(e) => return Err(e),
    };
    let keyword = match encode_keyword_payload(keyword_expression.as_ref()) {
        Ok(k) => k,
        Err(e) => return Err(e),
    };
    let constraints = match encode_constraints(criteria) {
        Ok(c) => c,
        Err(e) => return Err(e),
    };
    let keyword_operators: usize = match &keyword_expression {
        Some(e) => count_search_operators(e),
        None => 0,
    };
    if keyword_operators > MAX_SEARCH_OPERATORS {
        return Err(SearchError::TooComplex);
    }
    if keyword.len() == 0 || constraints.len() == 0 {
        return Ok(keyword);
    }
    let mut payload: Vec<u8> = Vec::new();
    payload.push(0);
    payload.push(0);
    push_all(&mut payload, keyword.as_slice());
    push_all(&mut payload, fold_and_chain(&constraints).as_slice());
    assert(payload@ =~= seq![0u8, 0u8] + keyword@ + and_chain(node_views(constraints@)));
    Ok(payload)
}

/// Encodes the request for a typed expression alone.
pub fn encode_search_request(term: &str) -> (r: Result<Vec<u8>, SearchError>)
    ensures
        match r {
            Ok(payload) => search_request(term@, no_criteria()) == Ok::<_, SearchError>(payload@),
            Err(e) => search_request(term@, no_criteria()) == Err::<Seq<u8>, _>(e),
        },
{
    encode_search_request_with_criteria(term, &SearchCriteria::default())
}

// ---------------------------------------------------------------------------
// Laws
// ---------------------------------------------------------------------------
/// An expression with more operators than the limit is refused, whatever the
/// criteria.
pub proof fn law_over_complex_expression_is_refused(term: Seq<char>, c: CriteriaView)
    requires
        parsed(term) matches Ok(Some(e)) && operator_count(e) > MAX_SEARCH_OPERATORS,
    ensures
        search_request(term, c) is Err,
{
}

/// Whether a text that may be missing fits a text condition.
pub open spec fn text_fits(text: Option<Seq<char>>) -> bool {
    text matches Some(s) ==> encode_utf8(s).len() <= u16::MAX
}

/// Whether the texts of criteria fit text conditions, as they are given.
pub open spec fn criteria_fit(c: CriteriaView) -> bool {
    text_fits(c.file_type) && text_fits(c.extension)
}

proof fn lemma_fitting_criteria(c: CriteriaView)
    requires
        criteria_fit(c),
    ensures
        constraint_nodes(c) is Ok,
{
    if let Some(t) = c.file_type {
        lemma_trimmed_bytes(t);
        let pro = seq!['P', 'r', 'o'];
        reveal_with_fuel(encode_utf8, 4);
        assert(encode_utf8(pro).len() <= 12);
    }
    if let Some(e) = c.extension {
        lemma_trimmed_bytes(e);
        lemma_stripped_bytes(trimmed(e), '.');
    }
}

/// Criteria whose texts fit decide nothing about whether a request goes out:
/// it is refused under some if and only if it is refused under any others, and
/// for the same reason. The limit on operators counts those of the typed
/// expression alone.
pub proof fn law_criteria_do_not_count_as_operators(
    term: Seq<char>,
    c: CriteriaView,
    others: CriteriaView,
)
    requires
        criteria_fit(c),
        criteria_fit(others),
    ensures
        search_request(term, c) is Err == search_request(term, others) is Err,
        search_request(term, c) matches Err(e) ==> search_request(term, others) == Err::<
            Seq<u8>,
            _,
        >(e),
        search_request(term, c) is Err == (parsed(term) is Err || keyword_bytes(
            parsed(term)->Ok_0,
        ) is Err || (parsed(term)->Ok_0 matches Some(e) && operator_count(e)
            > MAX_SEARCH_OPERATORS)),
{
    lemma_fitting_criteria(c);
    lemma_fitting_criteria(others);
}

/// Without criteria the request is the keyword part alone.
pub proof fn law_no_criteria_means_keyword_only(term: Seq<char>)
    requires
        search_request(term, no_criteria()) is Ok,
    ensures
        parsed(term) matches Ok(e) && keyword_bytes(e) == search_request(term, no_criteria()),
{
}

/// With criteria the request is an AND node over the keyword part and the
/// conditions.
pub proof fn law_criteria_are_anded_to_the_keywords(term: Seq<char>, c: CriteriaView)
    requires
        search_request(term, c) is Ok,
        search_request(term, no_criteria()) matches Ok(k) && k.len() > 0,
        constraint_nodes(c) matches Ok(n) && n.len() > 0,
    ensures
        search_request(term, c)->Ok_0 == seq![0u8, 0u8] + search_request(
            term,
            no_criteria(),
        )->Ok_0 + and_chain(constraint_nodes(c)->Ok_0),
{
}

/// `n` words side by side are `n - 1` ANDs, and their terms in order.
pub proof fn law_plain_words_are_anded(t: Seq<Tok>)
    requires
        t.len() > 0,
        forall|i: int| 0 <= i < t.len() ==> (#[trigger] t[i]) is Term,
    ensures
        expression(t, 0, 1) matches Ok((e, end)) && end == t.len() && operator_count(e) == t.len()
            - 1 && flat_terms(e) == Some(t.map_values(|x: Tok| x->Term_0)),
{
    reveal_with_fuel(primary, 2);
    assert(t[0] is Term);
    let first = Expr::Term(t[0]->Term_0);
    assert(primary(t, 0) == Ok::<_, SearchError>((first, 1int)));
    assert(t.take(1).map_values(|x: Tok| x->Term_0) =~= seq![t[0]->Term_0]);
    lemma_plain_words(t, 1, first);
}

proof fn lemma_plain_words(t: Seq<Tok>, pos: int, left: Expr)
    requires
        1 <= pos <= t.len(),
        forall|i: int| 0 <= i < t.len() ==> (#[trigger] t[i]) is Term,
        operator_count(left) == pos - 1,
        flat_terms(left) == Some(t.take(pos).map_values(|x: Tok| x->Term_0)),
    ensures
        operators(t, pos, 1, left) matches Ok((e, end)) && end == t.len() && operator_count(e)
            == t.len() - 1 && flat_terms(e) == Some(t.map_values(|x: Tok| x->Term_0)),
    decreases t.len() - pos,
{
    if pos < t.len() {
        let word = t[pos]->Term_0;
        let right = Expr::Term(word);
        assert(t[pos] is Term);
        assert(operator_at(t, pos) == Some((SearchBinaryOperator::And, 1u8, true)));
        assert(primary(t, pos) == Ok::<_, SearchError>((right, pos + 1)));
        assert(operator_at(t, pos + 1) is None || operator_at(t, pos + 1) == Some(
            (SearchBinaryOperator::And, 1u8, true),
        )) by {
            if pos + 1 < t.len() {
                assert(t[pos + 1] is Term);
            }
        }
        assert(operators(t, pos + 1, 2, right) == Ok::<_, SearchError>((right, pos + 1)));
        assert(expression(t, pos, 2) == Ok::<_, SearchError>((right, pos + 1)));
        let both = joined(SearchBinaryOperator::And, left, right);
        assert(t.take(pos + 1).map_values(|x: Tok| x->Term_0) =~= t.take(pos).map_values(
            |x: Tok| x->Term_0,
        ) + seq![word]);
        assert(flat_terms(right) == Some(seq![word]));
        assert(operator_count(right) == 0);
        assert(operator_count(both) == 1 + operator_count(left) + operator_count(right));
        lemma_plain_words(t, pos + 1, both);
        assert(operators(t, pos, 1, left) == operators(t, pos + 1, 1, both));
    } else {
        assert(t.take(pos) =~= t);
    }
}

} // verus!
