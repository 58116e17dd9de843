//! What a search request means: the query that a server reads in it, what that
//! query asks of a file, and what a typed expression stands for.
//!
//! The reader here knows the wire form of a query on its own and shares nothing
//! with the writer.
use vstd::prelude::*;
use vstd::utf8::encode_utf8;

use super::search_expr::{
    and_chain, constraint_nodes, ends_word, expression, expression_bytes, extension_condition,
    flat_terms, keyword_bytes, no_criteria, numeric_meta_node, operator_at, operator_count,
    operators, parsed, primary, quote_end, search_request, space_joined, string_meta_node,
    string_param, tokens_from, type_condition, widened, with_number, with_text, word_end,
    word_token, CriteriaView, Expr, SearchBinaryOperator, SearchError, Tok,
};
use crate::bytes::{le16, le32, le64, lemma_le16, lemma_le32, lemma_le64, u16_le, u32_le, u64_le};
use crate::text::{
    ascii_lower, is_space, law_text_survives_utf8, same_text_ignoring_case, strip_leading,
    text_from, trimmed,
};

verus! {

// ---------------------------------------------------------------------------
// The reader
// ---------------------------------------------------------------------------
/// A query as a server reads it.
pub enum Query {
    /// A text among the keywords of a file.
    Term(Seq<char>),
    And(Box<Query>, Box<Query>),
    Or(Box<Query>, Box<Query>),
    /// The first, but not the second.
    Not(Box<Query>, Box<Query>),
    /// A tag that holds a text.
    TextIs(u8, Seq<char>),
    /// A tag that holds a number no smaller.
    AtLeast(u8, u64),
    /// A tag that holds a number no greater.
    AtMost(u8, u64),
}

/// The text behind a two-byte length that opens `b`, and what follows it.
pub open spec fn read_text(b: Seq<u8>) -> Option<(Seq<char>, Seq<u8>)> {
    if b.len() < 2 || b.len() - 2 < le16(b, 0) {
        None
    } else {
        Some((text_from(b.subrange(2, 2 + le16(b, 0))), b.skip(2 + le16(b, 0))))
    }
}

/// The one-byte name behind its length that opens `b`, and what follows it.
pub open spec fn read_name(b: Seq<u8>) -> Option<(u8, Seq<u8>)> {
    if b.len() < 3 || le16(b, 0) != 1 {
        None
    } else {
        Some((b[2], b.skip(3)))
    }
}

/// A number, how it compares, and the name of a tag.
pub open spec fn read_comparison(value: u64, b: Seq<u8>) -> Option<(Query, Seq<u8>)> {
    if b.len() < 1 {
        None
    } else {
        match read_name(b.skip(1)) {
            None => None,
            Some((name, rest)) => if b[0] == 3 {
                Some((Query::AtLeast(name, value), rest))
            } else if b[0] == 4 {
                Some((Query::AtMost(name, value), rest))
            } else {
                None
            },
        }
    }
}

/// The query that opens `b`, and what follows it: `00 00`, `00 01` and `00 02`
/// open an AND, an OR and an AND NOT, `01` a text, `02` a text under a tag,
/// `03` and `08` a number of four and of eight bytes under a tag.
pub open spec fn read_query(b: Seq<u8>) -> Option<(Query, Seq<u8>)>
    decreases b.len(),
{
    if b.len() < 2 {
        None
    } else if b[0] == 0 {
        match read_query(b.skip(2)) {
            None => None,
            Some((left, middle)) => if middle.len() >= b.len() {
                None
            } else {
                match read_query(middle) {
                    None => None,
                    Some((right, rest)) => if b[1] == 0 {
                        Some((Query::And(Box::new(left), Box::new(right)), rest))
                    } else if b[1] == 1 {
                        Some((Query::Or(Box::new(left), Box::new(right)), rest))
                    } else if b[1] == 2 {
                        Some((Query::Not(Box::new(left), Box::new(right)), rest))
                    } else {
                        None
                    },
                }
            },
        }
    } else if b[0] == 1 {
        match read_text(b.skip(1)) {
            None => None,
            Some((text, rest)) => Some((Query::Term(text), rest)),
        }
    } else if b[0] == 2 {
        match read_text(b.skip(1)) {
            None => None,
            Some((text, rest)) => match read_name(rest) {
                None => None,
                Some((name, rest)) => Some((Query::TextIs(name, text), rest)),
            },
        }
    } else if b[0] == 3 && b.len() >= 5 {
        read_comparison(le32(b, 1) as u64, b.skip(5))
    } else if b[0] == 8 && b.len() >= 9 {
        read_comparison(le64(b, 1), b.skip(9))
    } else {
        None
    }
}

/// Whether `bytes` read as `q`, whatever follows them.
pub open spec fn reads_as(bytes: Seq<u8>, q: Query) -> bool {
    &&& bytes.len() >= 2
    &&& forall|rest: Seq<u8>| #[trigger] read_query(bytes + rest) == Some((q, rest))
}

/// The query that an expression is.
pub open spec fn query_of(e: Expr) -> Query
    decreases e,
{
    match e {
        Expr::Term(s) => Query::Term(s),
        Expr::And(l, r) => Query::And(Box::new(query_of(*l)), Box::new(query_of(*r))),
        Expr::Or(l, r) => Query::Or(Box::new(query_of(*l)), Box::new(query_of(*r))),
        Expr::Not(l, r) => Query::Not(Box::new(query_of(*l)), Box::new(query_of(*r))),
    }
}

/// Whether every term of an expression takes at most 65535 bytes.
pub open spec fn terms_fit(e: Expr) -> bool
    decreases e,
{
    match e {
        Expr::Term(s) => encode_utf8(s).len() <= 65535,
        Expr::And(l, r) => terms_fit(*l) && terms_fit(*r),
        Expr::Or(l, r) => terms_fit(*l) && terms_fit(*r),
        Expr::Not(l, r) => terms_fit(*l) && terms_fit(*r),
    }
}

proof fn lemma_text_reads_back(text: Seq<char>, rest: Seq<u8>)
    requires
        encode_utf8(text).len() <= 65535,
    ensures
        read_text(u16_le(encode_utf8(text).len() as u16) + encode_utf8(text) + rest) == Some(
            (text, rest),
        ),
{
    let bytes = encode_utf8(text);
    let n = bytes.len() as int;
    let b = u16_le(n as u16) + bytes + rest;
    assert(b.subrange(0, 2) =~= u16_le(n as u16));
    lemma_le16(n as u16, b, 0);
    assert(b.subrange(2, 2 + n) =~= bytes);
    assert(b.skip(2 + n) =~= rest);
    law_text_survives_utf8(text);
}

proof fn lemma_name_reads_back(name: u8, rest: Seq<u8>)
    ensures
        read_name(u16_le(1) + seq![name] + rest) == Some((name, rest)),
{
    let b = u16_le(1) + seq![name] + rest;
    assert(b.subrange(0, 2) =~= u16_le(1));
    lemma_le16(1, b, 0);
    assert(b[2] == name);
    assert(b.skip(3) =~= rest);
}

proof fn lemma_term_reads_back(text: Seq<char>)
    requires
        encode_utf8(text).len() <= 65535,
    ensures
        string_param(text) is Ok,
        reads_as(string_param(text)->Ok_0, Query::Term(text)),
{
    let p = string_param(text)->Ok_0;
    assert forall|rest: Seq<u8>| #[trigger]
        read_query(p + rest) == Some((Query::Term(text), rest)) by {
        lemma_text_reads_back(text, rest);
        assert((p + rest).skip(1) =~= u16_le(encode_utf8(text).len() as u16) + encode_utf8(text)
            + rest);
    }
}

proof fn lemma_node_reads_back(op: u8, l: Seq<u8>, left: Query, r: Seq<u8>, right: Query)
    requires
        reads_as(l, left),
        reads_as(r, right),
        op <= 2,
    ensures
        reads_as(
            seq![0u8, op] + l + r,
            if op == 0 {
                Query::And(Box::new(left), Box::new(right))
            } else if op == 1 {
                Query::Or(Box::new(left), Box::new(right))
            } else {
                Query::Not(Box::new(left), Box::new(right))
            },
        ),
{
    let p = seq![0u8, op] + l + r;
    let q = if op == 0 {
        Query::And(Box::new(left), Box::new(right))
    } else if op == 1 {
        Query::Or(Box::new(left), Box::new(right))
    } else {
        Query::Not(Box::new(left), Box::new(right))
    };
    assert forall|rest: Seq<u8>| #[trigger] read_query(p + rest) == Some((q, rest)) by {
        let b = p + rest;
        assert(b.skip(2) =~= l + (r + rest));
        assert(read_query(l + (r + rest)) == Some((left, r + rest)));
        assert(read_query(r + rest) == Some((right, rest)));
    }
}

/// A query tree reads back: whatever follows it, the server finds the very
/// expression in it, with its AND, OR and NOT nodes.
pub proof fn law_expression_reads_back(e: Expr, rest: Seq<u8>)
    requires
        terms_fit(e),
    ensures
        expression_bytes(e) matches Ok(bytes) && read_query(bytes + rest) == Some(
            (query_of(e), rest),
        ),
{
    lemma_expression_reads_back(e);
    let bytes = expression_bytes(e)->Ok_0;
    assert(read_query(bytes + rest) == Some((query_of(e), rest)));
}

proof fn lemma_expression_reads_back(e: Expr)
    requires
        terms_fit(e),
    ensures
        expression_bytes(e) is Ok,
        reads_as(expression_bytes(e)->Ok_0, query_of(e)),
    decreases e,
{
    match e {
        Expr::Term(s) => {
            lemma_term_reads_back(s);
        },
        Expr::And(l, r) => {
            lemma_expression_reads_back(*l);
            lemma_expression_reads_back(*r);
            lemma_node_reads_back(
                0,
                expression_bytes(*l)->Ok_0,
                query_of(*l),
                expression_bytes(*r)->Ok_0,
                query_of(*r),
            );
        },
        Expr::Or(l, r) => {
            lemma_expression_reads_back(*l);
            lemma_expression_reads_back(*r);
            lemma_node_reads_back(
                1,
                expression_bytes(*l)->Ok_0,
                query_of(*l),
                expression_bytes(*r)->Ok_0,
                query_of(*r),
            );
        },
        Expr::Not(l, r) => {
            lemma_expression_reads_back(*l);
            lemma_expression_reads_back(*r);
            lemma_node_reads_back(
                2,
                expression_bytes(*l)->Ok_0,
                query_of(*l),
                expression_bytes(*r)->Ok_0,
                query_of(*r),
            );
        },
    }
}

/// An expression can be asked exactly where each of its terms fits; a term
/// that does not is what its error says.
pub proof fn law_only_long_terms_are_refused(e: Expr)
    ensures
        terms_fit(e) <==> expression_bytes(e) is Ok,
        !terms_fit(e) ==> expression_bytes(e) == Err::<Seq<u8>, _>(SearchError::TermTooLong),
    decreases e,
{
    match e {
        Expr::Term(_) => {},
        Expr::And(l, r) => {
            law_only_long_terms_are_refused(*l);
            law_only_long_terms_are_refused(*r);
        },
        Expr::Or(l, r) => {
            law_only_long_terms_are_refused(*l);
            law_only_long_terms_are_refused(*r);
        },
        Expr::Not(l, r) => {
            law_only_long_terms_are_refused(*l);
            law_only_long_terms_are_refused(*r);
        },
    }
}

/// The three operators over the same sides go out differently, and each opens
/// with its own two bytes.
pub proof fn law_operators_are_told_apart(l: Expr, r: Expr)
    requires
        terms_fit(l),
        terms_fit(r),
    ensures
        ({
            let and = expression_bytes(Expr::And(Box::new(l), Box::new(r)));
            let or = expression_bytes(Expr::Or(Box::new(l), Box::new(r)));
            let not = expression_bytes(Expr::Not(Box::new(l), Box::new(r)));
            &&& and matches Ok(b) && b.len() > 2 && b[0] == 0 && b[1] == 0
            &&& or matches Ok(b) && b.len() > 2 && b[0] == 0 && b[1] == 1
            &&& not matches Ok(b) && b.len() > 2 && b[0] == 0 && b[1] == 2
            &&& and != or && or != not && and != not
        }),
{
    lemma_expression_reads_back(l);
    lemma_expression_reads_back(r);
    reveal_with_fuel(expression_bytes, 2);
    let and = expression_bytes(Expr::And(Box::new(l), Box::new(r)));
    let or = expression_bytes(Expr::Or(Box::new(l), Box::new(r)));
    let not = expression_bytes(Expr::Not(Box::new(l), Box::new(r)));
    assert(and->Ok_0[1] == 0 && or->Ok_0[1] == 1 && not->Ok_0[1] == 2);
}

/// The keyword part of a request reads back: terms that are only ANDed as one
/// text with a space between each two, anything else as the expression.
pub proof fn law_keywords_read_back(e: Expr, rest: Seq<u8>)
    requires
        keyword_bytes(Some(e)) is Ok,
    ensures
        ({
            let bytes = keyword_bytes(Some(e))->Ok_0;
            read_query(bytes + rest) == Some((keyword_query(e), rest))
        }),
{
    lemma_keywords_read_back(e);
    let bytes = keyword_bytes(Some(e))->Ok_0;
    assert(read_query(bytes + rest) == Some((keyword_query(e), rest)));
}

/// The query that the keyword part of a request is.
pub open spec fn keyword_query(e: Expr) -> Query {
    match flat_terms(e) {
        Some(terms) => Query::Term(space_joined(terms)),
        None => query_of(e),
    }
}

proof fn lemma_keywords_read_back(e: Expr)
    requires
        keyword_bytes(Some(e)) is Ok,
    ensures
        reads_as(keyword_bytes(Some(e))->Ok_0, keyword_query(e)),
{
    match flat_terms(e) {
        Some(terms) => {
            lemma_term_reads_back(space_joined(terms));
        },
        None => {
            law_only_long_terms_are_refused(e);
            lemma_expression_reads_back(e);
        },
    }
}

/// Joining two lists of terms puts one space between what each comes to; a
/// single term is itself.
pub proof fn law_terms_are_joined_by_spaces(a: Seq<Seq<char>>, b: Seq<Seq<char>>, t: Seq<char>)
    requires
        a.len() > 0,
        b.len() > 0,
    ensures
        space_joined(a + b) == space_joined(a).push(' ') + space_joined(b),
        space_joined(seq![t]) == t,
    decreases b.len(),
{
    assert((a + b).drop_last() =~= a + b.drop_last());
    if b.len() == 1 {
        assert(a + b.drop_last() =~= a);
    } else {
        law_terms_are_joined_by_spaces(a, b.drop_last(), t);
        assert(space_joined(a + b) =~= space_joined(a).push(' ') + space_joined(b));
    }
}

// ---------------------------------------------------------------------------
// What a query asks of a file
// ---------------------------------------------------------------------------
/// A file as a query sees it: the texts that its keywords hold, and what its
/// tags hold.
pub struct FileFacts {
    pub has: spec_fn(Seq<char>) -> bool,
    pub text: spec_fn(u8) -> Seq<char>,
    pub number: spec_fn(u8) -> u64,
}

/// Whether a query finds a file.
pub open spec fn finds(q: Query, f: FileFacts) -> bool
    decreases q,
{
    match q {
        Query::Term(s) => (f.has)(s),
        Query::And(l, r) => finds(*l, f) && finds(*r, f),
        Query::Or(l, r) => finds(*l, f) || finds(*r, f),
        Query::Not(l, r) => finds(*l, f) && !finds(*r, f),
        Query::TextIs(name, s) => (f.text)(name) == s,
        Query::AtLeast(name, v) => (f.number)(name) >= v,
        Query::AtMost(name, v) => (f.number)(name) <= v,
    }
}

/// Whether a file has the type that criteria ask for. The types of archives
/// and of images are both asked for as programs.
pub open spec fn has_type(wanted: Option<Seq<char>>, actual: Seq<char>) -> bool {
    wanted matches Some(t) ==> trimmed(t).len() > 0 ==> actual == if trimmed(t) == seq![
        'A',
        'r',
        'c',
    ] || trimmed(t) == seq!['I', 's', 'o'] {
        seq!['P', 'r', 'o']
    } else {
        trimmed(t)
    }
}

/// Whether a file has the extension that criteria ask for, whatever dots lead
/// it.
pub open spec fn has_extension(wanted: Option<Seq<char>>, actual: Seq<char>) -> bool {
    wanted matches Some(t) ==> strip_leading(trimmed(t), '.').len() > 0 ==> actual
        == strip_leading(trimmed(t), '.')
}

/// Whether a file meets criteria: its size lies within the bounds, it has
/// enough sources and complete sources, and it has the type and the extension.
pub open spec fn meets(c: CriteriaView, f: FileFacts) -> bool {
    &&& c.min_size matches Some(v) ==> (f.number)(0x02) >= v
    &&& c.max_size matches Some(v) ==> (f.number)(0x02) <= v
    &&& c.min_availability matches Some(v) ==> (f.number)(0x15) >= v
    &&& c.min_complete_sources matches Some(v) ==> (f.number)(0x30) >= v
    &&& has_type(c.file_type, (f.text)(0x03))
    &&& has_extension(c.extension, (f.text)(0x04))
}

proof fn lemma_number_reads_back(name: u8, op: u8, value: u64)
    requires
        op == 3 || op == 4,
    ensures
        reads_as(
            numeric_meta_node(name, op, value),
            if op == 3 {
                Query::AtLeast(name, value)
            } else {
                Query::AtMost(name, value)
            },
        ),
{
    let p = numeric_meta_node(name, op, value);
    let q = if op == 3 {
        Query::AtLeast(name, value)
    } else {
        Query::AtMost(name, value)
    };
    assert forall|rest: Seq<u8>| #[trigger] read_query(p + rest) == Some((q, rest)) by {
        let b = p + rest;
        let tail = seq![op] + u16_le(1) + seq![name] + rest;
        lemma_name_reads_back(name, rest);
        assert(tail.skip(1) =~= u16_le(1) + seq![name] + rest);
        if value > u32::MAX {
            assert(b.subrange(1, 9) =~= u64_le(value));
            lemma_le64(value, b, 1);
            assert(b.skip(9) =~= tail);
        } else {
            assert(b.subrange(1, 5) =~= u32_le(value as u32));
            lemma_le32(value as u32, b, 1);
            assert(b.skip(5) =~= tail);
        }
    }
}

proof fn lemma_text_condition_reads_back(name: u8, text: Seq<char>)
    requires
        string_meta_node(name, text) is Ok,
    ensures
        reads_as(string_meta_node(name, text)->Ok_0, Query::TextIs(name, text)),
{
    let p = string_meta_node(name, text)->Ok_0;
    let q = Query::TextIs(name, text);
    assert forall|rest: Seq<u8>| #[trigger] read_query(p + rest) == Some((q, rest)) by {
        let tail = u16_le(1) + seq![name] + rest;
        lemma_text_reads_back(text, tail);
        lemma_name_reads_back(name, rest);
        assert((p + rest).skip(1) =~= u16_le(encode_utf8(text).len() as u16) + encode_utf8(text)
            + tail);
    }
}

/// Whether each node reads as the query at its place, and the queries together
/// find the files that `wanted` says.
spec fn nodes_ask(
    nodes: Seq<Seq<u8>>,
    queries: Seq<Query>,
    f: FileFacts,
    wanted: bool,
) -> bool {
    &&& nodes.len() == queries.len()
    &&& forall|i: int| 0 <= i < nodes.len() ==> reads_as(#[trigger] nodes[i], queries[i])
    &&& wanted <==> forall|i: int| 0 <= i < queries.len() ==> finds(#[trigger] queries[i], f)
}

proof fn lemma_push_condition(
    nodes: Seq<Seq<u8>>,
    queries: Seq<Query>,
    f: FileFacts,
    wanted: bool,
    node: Seq<u8>,
    q: Query,
)
    requires
        nodes_ask(nodes, queries, f, wanted),
        reads_as(node, q),
    ensures
        nodes_ask(nodes.push(node), queries.push(q), f, wanted && finds(q, f)),
{
    let n = nodes.push(node);
    let more = queries.push(q);
    assert forall|i: int| 0 <= i < n.len() implies reads_as(#[trigger] n[i], more[i]) by {
        if i < nodes.len() {
            assert(n[i] == nodes[i] && more[i] == queries[i]);
        }
    }
    if forall|i: int| 0 <= i < more.len() ==> finds(#[trigger] more[i], f) {
        assert(more[queries.len() as int] == q);
        assert forall|i: int| 0 <= i < queries.len() implies finds(#[trigger] queries[i], f) by {
            assert(more[i] == queries[i]);
        }
    }
}

proof fn lemma_with_number(
    nodes: Seq<Seq<u8>>,
    queries: Seq<Query>,
    f: FileFacts,
    wanted: bool,
    name: u8,
    op: u8,
    value: Option<u64>,
) -> (after: Seq<Query>)
    requires
        nodes_ask(nodes, queries, f, wanted),
        op == 3 || op == 4,
    ensures
        nodes_ask(
            with_number(nodes, name, op, value),
            after,
            f,
            wanted && (value matches Some(v) ==> if op == 3 {
                (f.number)(name) >= v
            } else {
                (f.number)(name) <= v
            }),
        ),
{
    match value {
        None => queries,
        Some(v) => {
            let q = if op == 3 {
                Query::AtLeast(name, v)
            } else {
                Query::AtMost(name, v)
            };
            lemma_number_reads_back(name, op, v);
            lemma_push_condition(nodes, queries, f, wanted, numeric_meta_node(name, op, v), q);
            queries.push(q)
        },
    }
}

proof fn lemma_with_text(
    nodes: Seq<Seq<u8>>,
    queries: Seq<Query>,
    f: FileFacts,
    wanted: bool,
    name: u8,
    text: Option<Seq<char>>,
) -> (after: Seq<Query>)
    requires
        nodes_ask(nodes, queries, f, wanted),
        with_text(nodes, name, text) is Ok,
    ensures
        nodes_ask(
            with_text(nodes, name, text)->Ok_0,
            after,
            f,
            wanted && (text matches Some(s) ==> (f.text)(name) == s),
        ),
{
    match text {
        None => queries,
        Some(s) => {
            let q = Query::TextIs(name, s);
            lemma_text_condition_reads_back(name, s);
            lemma_push_condition(
                nodes,
                queries,
                f,
                wanted,
                string_meta_node(name, s)->Ok_0,
                q,
            );
            queries.push(q)
        },
    }
}

/// Conditions joined by AND.
spec fn chain_query(queries: Seq<Query>) -> Query
    decreases queries.len(),
{
    if queries.len() <= 1 {
        queries[0]
    } else {
        Query::And(Box::new(queries[0]), Box::new(chain_query(queries.skip(1))))
    }
}

proof fn lemma_chain_reads_back(
    nodes: Seq<Seq<u8>>,
    queries: Seq<Query>,
    f: FileFacts,
    wanted: bool,
)
    requires
        nodes.len() > 0,
        nodes_ask(nodes, queries, f, wanted),
    ensures
        reads_as(and_chain(nodes), chain_query(queries)),
        finds(chain_query(queries), f) <==> wanted,
    decreases nodes.len(),
{
    assert(reads_as(nodes[0], queries[0]));
    if nodes.len() > 1 {
        let n = nodes.skip(1);
        let q = queries.skip(1);
        let others = forall|i: int| 0 <= i < q.len() ==> finds(#[trigger] q[i], f);
        assert forall|i: int| 0 <= i < n.len() implies reads_as(#[trigger] n[i], q[i]) by {
            assert(n[i] == nodes[i + 1] && q[i] == queries[i + 1]);
        }
        lemma_chain_reads_back(n, q, f, others);
        lemma_node_reads_back(0, nodes[0], queries[0], and_chain(n), chain_query(q));
        if wanted {
            assert forall|i: int| 0 <= i < q.len() implies finds(#[trigger] q[i], f) by {
                assert(q[i] == queries[i + 1]);
            }
        }
        if others && finds(queries[0], f) {
            assert forall|i: int| 0 <= i < queries.len() implies finds(
                #[trigger] queries[i],
                f,
            ) by {
                if i > 0 {
                    assert(queries[i] == q[i - 1]);
                }
            }
        }
    }
}

/// The conditions of criteria ask exactly for what the criteria say.
proof fn lemma_conditions_ask(c: CriteriaView, f: FileFacts) -> (queries: Seq<Query>)
    requires
        constraint_nodes(c) is Ok,
    ensures
        nodes_ask(constraint_nodes(c)->Ok_0, queries, f, meets(c, f)),
{
    let n0 = Seq::<Seq<u8>>::empty();
    let q0 = Seq::<Query>::empty();
    assert(nodes_ask(n0, q0, f, true));
    let n1 = with_number(n0, 0x30, 3, widened(c.min_complete_sources));
    let q1 = lemma_with_number(n0, q0, f, true, 0x30, 3, widened(c.min_complete_sources));
    let w1 = c.min_complete_sources matches Some(v) ==> (f.number)(0x30) >= v;
    assert(nodes_ask(n1, q1, f, w1));
    let q2 = lemma_with_text(n1, q1, f, w1, 0x03, type_condition(c));
    let n2 = with_text(n1, 0x03, type_condition(c))->Ok_0;
    let w2 = w1 && has_type(c.file_type, (f.text)(0x03));
    assert(nodes_ask(n2, q2, f, w2));
    let n3 = with_number(n2, 0x02, 3, c.min_size);
    let q3 = lemma_with_number(n2, q2, f, w2, 0x02, 3, c.min_size);
    let w3 = w2 && (c.min_size matches Some(v) ==> (f.number)(0x02) >= v);
    assert(nodes_ask(n3, q3, f, w3));
    let n4 = with_number(n3, 0x02, 4, c.max_size);
    let q4 = lemma_with_number(n3, q3, f, w3, 0x02, 4, c.max_size);
    let w4 = w3 && (c.max_size matches Some(v) ==> (f.number)(0x02) <= v);
    assert(nodes_ask(n4, q4, f, w4));
    let n5 = with_number(n4, 0x15, 3, widened(c.min_availability));
    let q5 = lemma_with_number(n4, q4, f, w4, 0x15, 3, widened(c.min_availability));
    let w5 = w4 && (c.min_availability matches Some(v) ==> (f.number)(0x15) >= v);
    assert(nodes_ask(n5, q5, f, w5));
    let q6 = lemma_with_text(n5, q5, f, w5, 0x04, extension_condition(c));
    let w6 = w5 && has_extension(c.extension, (f.text)(0x04));
    assert(nodes_ask(constraint_nodes(c)->Ok_0, q6, f, w6));
    q6
}

/// A request finds exactly the files that its keywords find and that meet the
/// criteria, and there is nothing else in it.
pub proof fn law_request_finds_what_was_asked_for(
    term: Seq<char>,
    c: CriteriaView,
    f: FileFacts,
)
    requires
        search_request(term, c) matches Ok(b) && b.len() > 0,
    ensures
        search_request(term, no_criteria()) matches Ok(k) && k.len() > 0,
        ({
            let asked = read_query(search_request(term, c)->Ok_0);
            let keywords = read_query(search_request(term, no_criteria())->Ok_0);
            &&& asked matches Some((q, rest)) && rest.len() == 0
            &&& keywords matches Some((q, rest)) && rest.len() == 0
            &&& finds(asked->Some_0.0, f) <==> finds(keywords->Some_0.0, f) && meets(c, f)
        }),
        parsed(term) matches Ok(Some(e)) && read_query(
            search_request(term, no_criteria())->Ok_0,
        )->Some_0.0 == keyword_query(e),
{
    let e = parsed(term)->Ok_0->Some_0;
    let none = Seq::<u8>::empty();
    let k = keyword_bytes(Some(e))->Ok_0;
    lemma_keywords_read_back(e);
    assert(k + none =~= k);
    assert(read_query(k + none) == Some((keyword_query(e), none)));
    let nodes = constraint_nodes(c)->Ok_0;
    let queries = lemma_conditions_ask(c, f);
    let b = search_request(term, c)->Ok_0;
    if nodes.len() > 0 {
        lemma_chain_reads_back(nodes, queries, f, meets(c, f));
        lemma_node_reads_back(0, k, keyword_query(e), and_chain(nodes), chain_query(queries));
        assert(b + none =~= b);
        let q = Query::And(Box::new(keyword_query(e)), Box::new(chain_query(queries)));
        assert(read_query(b + none) == Some((q, none)));
    }
}

// ---------------------------------------------------------------------------
// What a typed expression stands for
// ---------------------------------------------------------------------------
/// Whether a text can stand in quotes as it is: it is not empty, holds no quote
/// and has no white space at either end.
pub open spec fn is_phrase(s: Seq<char>) -> bool {
    &&& s.len() > 0
    &&& !is_space(s[0])
    &&& !is_space(s.last())
    &&& forall|i: int| 0 <= i < s.len() ==> #[trigger] s[i] != '"'
}

/// Whether every term of an expression can stand in quotes.
pub open spec fn is_typeable(e: Expr) -> bool
    decreases e,
{
    match e {
        Expr::Term(s) => is_phrase(s),
        Expr::And(l, r) => is_typeable(*l) && is_typeable(*r),
        Expr::Or(l, r) => is_typeable(*l) && is_typeable(*r),
        Expr::Not(l, r) => is_typeable(*l) && is_typeable(*r),
    }
}

/// An expression in full: terms in quotes, every operator with its two sides in
/// parentheses.
pub open spec fn typed(e: Expr) -> Seq<char>
    decreases e,
{
    match e {
        Expr::Term(s) => seq!['"'] + s + seq!['"'],
        Expr::And(l, r) => seq!['('] + typed(*l) + seq![' ', 'A', 'N', 'D', ' '] + typed(*r)
            + seq![')'],
        Expr::Or(l, r) => seq!['('] + typed(*l) + seq![' ', 'O', 'R', ' '] + typed(*r) + seq![')'],
        Expr::Not(l, r) => seq!['('] + typed(*l) + seq![' ', 'N', 'O', 'T', ' '] + typed(*r)
            + seq![')'],
    }
}

/// The tokens of an expression in full.
spec fn full_tokens(e: Expr) -> Seq<Tok>
    decreases e,
{
    match e {
        Expr::Term(s) => seq![Tok::Term(s)],
        Expr::And(l, r) => seq![Tok::OpenParen] + full_tokens(*l) + seq![Tok::And] + full_tokens(*r)
            + seq![Tok::CloseParen],
        Expr::Or(l, r) => seq![Tok::OpenParen] + full_tokens(*l) + seq![Tok::Or] + full_tokens(*r)
            + seq![Tok::CloseParen],
        Expr::Not(l, r) => seq![Tok::OpenParen] + full_tokens(*l) + seq![Tok::Not] + full_tokens(*r)
            + seq![Tok::CloseParen],
    }
}

proof fn lemma_quote_ends_at(s: Seq<char>, i: int, end: int)
    requires
        0 <= i <= end < s.len(),
        s[end] == '"',
        forall|k: int| i <= k < end ==> #[trigger] s[k] != '"',
    ensures
        quote_end(s, i) == end,
    decreases end - i,
{
    if i < end {
        lemma_quote_ends_at(s, i + 1, end);
    }
}

proof fn lemma_word_ends_at(s: Seq<char>, i: int, end: int)
    requires
        0 <= i <= end <= s.len(),
        end < s.len() ==> ends_word(s[end]),
        forall|k: int| i <= k < end ==> !ends_word(#[trigger] s[k]),
    ensures
        word_end(s, i) == end,
    decreases end - i,
{
    if i < end {
        lemma_word_ends_at(s, i + 1, end);
    }
}

proof fn lemma_phrase_token(s: Seq<char>, i: int, phrase: Seq<char>, tokens: Seq<Tok>)
    requires
        0 <= i,
        i + phrase.len() + 2 <= s.len(),
        is_phrase(phrase),
        s.subrange(i, i + phrase.len() + 2) == seq!['"'] + phrase + seq!['"'],
    ensures
        tokens_from(s, i, tokens) == tokens_from(
            s,
            i + phrase.len() + 2,
            tokens.push(Tok::Term(phrase)),
        ),
{
    let n = phrase.len() as int;
    let piece = seq!['"'] + phrase + seq!['"'];
    let cut = s.subrange(i, i + n + 2);
    assert(cut[0] == '"' && piece[0] == '"' && s[i] == cut[0]);
    assert(piece[n + 1] == '"' && s[i + n + 1] == cut[n + 1]);
    assert forall|k: int| i + 1 <= k < i + n + 1 implies #[trigger] s[k] != '"' by {
        assert(s[k] == cut[k - i]);
        assert(piece[k - i] == phrase[k - i - 1]);
    }
    lemma_quote_ends_at(s, i + 1, i + n + 1);
    assert(s.subrange(i + 1, i + n + 1) =~= cut.subrange(1, n + 1));
    assert(piece.subrange(1, n + 1) =~= phrase);
    assert(trimmed(phrase) == phrase);
    assert(!is_space('"'));
}

/// Whether no character of a word ends it.
spec fn is_bare(word: Seq<char>) -> bool {
    forall|k: int| 0 <= k < word.len() ==> !ends_word(#[trigger] word[k])
}

proof fn lemma_word_token(s: Seq<char>, i: int, word: Seq<char>, tokens: Seq<Tok>)
    requires
        0 <= i,
        word.len() > 0,
        i + word.len() <= s.len(),
        s.subrange(i, i + word.len()) == word,
        is_bare(word),
        i + word.len() < s.len() ==> ends_word(s[i + word.len()]),
    ensures
        tokens_from(s, i, tokens) == tokens_from(
            s,
            i + word.len(),
            tokens.push(word_token(word)),
        ),
{
    let n = word.len() as int;
    let cut = s.subrange(i, i + n);
    assert forall|k: int| i <= k < i + n implies !ends_word(#[trigger] s[k]) by {
        assert(s[k] == cut[k - i]);
    }
    assert(!ends_word(s[i]));
    lemma_word_ends_at(s, i, i + n);
}

proof fn lemma_space_token(s: Seq<char>, i: int, tokens: Seq<Tok>)
    requires
        0 <= i < s.len(),
        s[i] == ' ',
    ensures
        tokens_from(s, i, tokens) == tokens_from(s, i + 1, tokens),
{
    assert(is_space(' '));
}

/// An operator with a space on either side is one token.
proof fn lemma_spaced_word(s: Seq<char>, i: int, word: Seq<char>, tokens: Seq<Tok>)
    requires
        0 <= i,
        word.len() > 0,
        i + word.len() + 2 <= s.len(),
        s.subrange(i, i + word.len() + 2) == seq![' '] + word + seq![' '],
        is_bare(word),
    ensures
        tokens_from(s, i, tokens) == tokens_from(
            s,
            i + word.len() + 2,
            tokens.push(word_token(word)),
        ),
{
    let n = word.len() as int;
    let piece = seq![' '] + word + seq![' '];
    let cut = s.subrange(i, i + n + 2);
    assert(s[i] == cut[0] && piece[0] == ' ');
    assert(s[i + n + 1] == cut[n + 1] && piece[n + 1] == ' ');
    assert(s.subrange(i + 1, i + 1 + n) =~= cut.subrange(1, n + 1));
    assert(piece.subrange(1, n + 1) =~= word);
    assert(is_space(' '));
    lemma_space_token(s, i, tokens);
    lemma_word_token(s, i + 1, word, tokens);
    lemma_space_token(s, i + n + 1, tokens.push(word_token(word)));
}

proof fn lemma_operator_words()
    ensures
        word_token(seq!['A', 'N', 'D']) == Tok::And,
        word_token(seq!['O', 'R']) == Tok::Or,
        word_token(seq!['N', 'O', 'T']) == Tok::Not,
        is_bare(seq!['A', 'N', 'D']),
        is_bare(seq!['O', 'R']),
        is_bare(seq!['N', 'O', 'T']),
{
    let and = seq!['A', 'N', 'D'];
    let or = seq!['O', 'R'];
    let not = seq!['N', 'O', 'T'];
    assert(ascii_lower(not[0]) != ascii_lower(and[0]));
    assert(and.len() == 3 && or.len() == 2 && not.len() == 3);
    assert(!same_text_ignoring_case(not, and)) by {
        assert(ascii_lower(not[0]) != ascii_lower(and[0]));
    }
    assert(!same_text_ignoring_case(or, and));
    assert(!same_text_ignoring_case(not, or));
}

proof fn lemma_typed_tokens(s: Seq<char>, i: int, e: Expr, tokens: Seq<Tok>)
    requires
        0 <= i,
        is_typeable(e),
        i + typed(e).len() <= s.len(),
        s.subrange(i, i + typed(e).len()) == typed(e),
    ensures
        tokens_from(s, i, tokens) == tokens_from(
            s,
            i + typed(e).len(),
            tokens + full_tokens(e),
        ),
    decreases e,
{
    lemma_operator_words();
    match e {
        Expr::Term(text) => {
            lemma_phrase_token(s, i, text, tokens);
            assert(tokens + full_tokens(e) =~= tokens.push(Tok::Term(text)));
        },
        Expr::And(l, r) => {
            lemma_typed_node(s, i, e, *l, seq!['A', 'N', 'D'], Tok::And, *r, tokens);
        },
        Expr::Or(l, r) => {
            lemma_typed_node(s, i, e, *l, seq!['O', 'R'], Tok::Or, *r, tokens);
        },
        Expr::Not(l, r) => {
            lemma_typed_node(s, i, e, *l, seq!['N', 'O', 'T'], Tok::Not, *r, tokens);
        },
    }
}

proof fn lemma_typed_node(
    s: Seq<char>,
    i: int,
    e: Expr,
    l: Expr,
    word: Seq<char>,
    op: Tok,
    r: Expr,
    tokens: Seq<Tok>,
)
    requires
        0 <= i,
        is_typeable(l),
        is_typeable(r),
        decreases_to!(e => l),
        decreases_to!(e => r),
        typed(e) =~= seq!['('] + typed(l) + (seq![' '] + word + seq![' ']) + typed(r) + seq![')'],
        full_tokens(e) =~= seq![Tok::OpenParen] + full_tokens(l) + seq![op] + full_tokens(r) + seq![
            Tok::CloseParen,
        ],
        word.len() > 0,
        is_bare(word),
        word_token(word) == op,
        i + typed(e).len() <= s.len(),
        s.subrange(i, i + typed(e).len()) == typed(e),
    ensures
        tokens_from(s, i, tokens) == tokens_from(
            s,
            i + typed(e).len(),
            tokens + full_tokens(e),
        ),
    decreases e, 0int,
{
    let whole = typed(e);
    let a = typed(l).len() as int;
    let w = word.len() as int;
    let b = typed(r).len() as int;
    let cut = s.subrange(i, i + whole.len());
    assert(s[i] == cut[0] && whole[0] == '(');
    assert(!is_space('(') && !is_space(')'));
    let t1 = tokens.push(Tok::OpenParen);
    assert(tokens_from(s, i, tokens) == tokens_from(s, i + 1, t1));
    assert(s.subrange(i + 1, i + 1 + a) =~= cut.subrange(1, 1 + a));
    assert(whole.subrange(1, 1 + a) =~= typed(l));
    lemma_typed_tokens(s, i + 1, l, t1);
    let t2 = t1 + full_tokens(l);
    let at = i + 1 + a;
    assert(s.subrange(at, at + w + 2) =~= cut.subrange(1 + a, 1 + a + w + 2));
    assert(whole.subrange(1 + a, 1 + a + w + 2) =~= seq![' '] + word + seq![' ']);
    lemma_spaced_word(s, at, word, t2);
    let t3 = t2.push(op);
    let from = at + w + 2;
    assert(s.subrange(from, from + b) =~= cut.subrange(from - i, from - i + b));
    assert(whole.subrange(from - i, from - i + b) =~= typed(r));
    lemma_typed_tokens(s, from, r, t3);
    let t4 = t3 + full_tokens(r);
    let last = from + b;
    assert(s[last] == cut[last - i] && whole[last - i] == ')');
    assert(tokens_from(s, last, t4) == tokens_from(s, last + 1, t4.push(Tok::CloseParen)));
    assert(t4.push(Tok::CloseParen) =~= tokens + full_tokens(e));
}

proof fn lemma_full_tokens_parse(t: Seq<Tok>, pos: int, e: Expr)
    requires
        0 <= pos,
        pos + full_tokens(e).len() <= t.len(),
        t.subrange(pos, pos + full_tokens(e).len()) == full_tokens(e),
    ensures
        full_tokens(e).len() > 0,
        primary(t, pos) == Ok::<_, SearchError>((e, pos + full_tokens(e).len())),
    decreases e,
{
    match e {
        Expr::Term(s) => {
            assert(t.subrange(pos, pos + 1)[0] == t[pos]);
        },
        Expr::And(l, r) => {
            lemma_full_node_parses(t, pos, e, *l, SearchBinaryOperator::And, 1, Tok::And, *r);
        },
        Expr::Or(l, r) => {
            lemma_full_node_parses(t, pos, e, *l, SearchBinaryOperator::Or, 2, Tok::Or, *r);
        },
        Expr::Not(l, r) => {
            lemma_full_node_parses(t, pos, e, *l, SearchBinaryOperator::Not, 3, Tok::Not, *r);
        },
    }
}

proof fn lemma_full_node_parses(
    t: Seq<Tok>,
    pos: int,
    e: Expr,
    l: Expr,
    op: SearchBinaryOperator,
    precedence: u8,
    tok: Tok,
    r: Expr,
)
    requires
        0 <= pos,
        decreases_to!(e => l),
        decreases_to!(e => r),
        pos + full_tokens(e).len() <= t.len(),
        t.subrange(pos, pos + full_tokens(e).len()) == full_tokens(e),
        full_tokens(e) =~= seq![Tok::OpenParen] + full_tokens(l) + seq![tok] + full_tokens(r) + seq![
            Tok::CloseParen,
        ],
        (op == SearchBinaryOperator::And && precedence == 1 && tok is And && e == Expr::And(
            Box::new(l),
            Box::new(r),
        )) || (op == SearchBinaryOperator::Or && precedence == 2 && tok is Or && e == Expr::Or(
            Box::new(l),
            Box::new(r),
        )) || (op == SearchBinaryOperator::Not && precedence == 3 && tok is Not && e == Expr::Not(
            Box::new(l),
            Box::new(r),
        )),
    ensures
        primary(t, pos) == Ok::<_, SearchError>((e, pos + full_tokens(e).len())),
    decreases e, 0int,
{
    let whole = full_tokens(e);
    let a = full_tokens(l).len() as int;
    let b = full_tokens(r).len() as int;
    let cut = t.subrange(pos, pos + whole.len());
    assert(t[pos] == cut[0] && whole[0] == Tok::OpenParen);
    assert(t.subrange(pos + 1, pos + 1 + a) =~= cut.subrange(1, 1 + a));
    assert(whole.subrange(1, 1 + a) =~= full_tokens(l));
    lemma_full_tokens_parse(t, pos + 1, l);
    let at = pos + 1 + a;
    assert(t[at] == cut[1 + a] && whole[1 + a] == tok);
    assert(operator_at(t, at) == Some((op, precedence, false)));
    assert(t.subrange(at + 1, at + 1 + b) =~= cut.subrange(2 + a, 2 + a + b));
    assert(whole.subrange(2 + a, 2 + a + b) =~= full_tokens(r));
    lemma_full_tokens_parse(t, at + 1, r);
    let end = at + 1 + b;
    assert(t[end] == cut[2 + a + b] && whole[2 + a + b] == Tok::CloseParen);
    assert(operator_at(t, end) is None);
    assert(operators(t, end, (precedence + 1) as u8, r) == Ok::<_, SearchError>((r, end)));
    assert(expression(t, at + 1, (precedence + 1) as u8) == Ok::<_, SearchError>((r, end)));
    assert(operators(t, end, 1, e) == Ok::<_, SearchError>((e, end)));
    assert(operators(t, at, 1, l) == Ok::<_, SearchError>((e, end)));
    assert(expression(t, pos + 1, 1) == Ok::<_, SearchError>((e, end)));
}

/// An expression that is typed in full is read as that very expression: what
/// stands in quotes is a term whatever it says, AND, OR and NOT are the
/// operators that they name, and their sides stay in order.
pub proof fn law_typed_expression_is_understood(e: Expr)
    requires
        is_typeable(e),
    ensures
        parsed(typed(e)) == Ok::<_, SearchError>(Some(e)),
{
    let s = typed(e);
    let n = s.len() as int;
    let t = full_tokens(e);
    assert(s.subrange(0, n) =~= s);
    lemma_typed_tokens(s, 0, e, Seq::empty());
    assert(Seq::<Tok>::empty() + t =~= t);
    assert(tokens_from(s, n, t) == Ok::<_, SearchError>(t));
    assert(t.subrange(0, t.len() as int) =~= t);
    lemma_full_tokens_parse(t, 0, e);
    let end = t.len() as int;
    assert(operator_at(t, end) is None);
    assert(operators(t, end, 1, e) == Ok::<_, SearchError>((e, end)));
}

/// How tightly an operator binds: NOT more than OR, OR more than AND.
pub open spec fn tightness(op: Tok) -> int {
    match op {
        Tok::Not => 2,
        Tok::Or => 1,
        _ => 0,
    }
}

/// Two expressions under the operator of a token.
pub open spec fn under_operator(op: Tok, l: Expr, r: Expr) -> Expr {
    match op {
        Tok::Or => Expr::Or(Box::new(l), Box::new(r)),
        Tok::Not => Expr::Not(Box::new(l), Box::new(r)),
        _ => Expr::And(Box::new(l), Box::new(r)),
    }
}

/// Without parentheses the operator that binds more tightly takes its sides
/// first; of two that bind alike the first one does.
pub proof fn law_tighter_operators_come_first(
    a: Seq<char>,
    first: Tok,
    b: Seq<char>,
    second: Tok,
    c: Seq<char>,
)
    requires
        first is And || first is Or || first is Not,
        second is And || second is Or || second is Not,
    ensures
        expression(
            seq![Tok::Term(a), first, Tok::Term(b), second, Tok::Term(c)],
            0,
            1,
        ) == Ok::<_, SearchError>(
            (
                if tightness(first) >= tightness(second) {
                    under_operator(
                        second,
                        under_operator(first, Expr::Term(a), Expr::Term(b)),
                        Expr::Term(c),
                    )
                } else {
                    under_operator(
                        first,
                        Expr::Term(a),
                        under_operator(second, Expr::Term(b), Expr::Term(c)),
                    )
                },
                5int,
            ),
        ),
{
    let t = seq![Tok::Term(a), first, Tok::Term(b), second, Tok::Term(c)];
    let p1: u8 = (tightness(first) + 1) as u8;
    let p2: u8 = (tightness(second) + 1) as u8;
    let (x, y, z) = (Expr::Term(a), Expr::Term(b), Expr::Term(c));
    assert(t.len() == 5);
    assert(t[0] == Tok::Term(a) && t[1] == first && t[2] == Tok::Term(b) && t[3] == second && t[4]
        == Tok::Term(c));
    assert(primary(t, 0) == Ok::<_, SearchError>((x, 1int)));
    assert(primary(t, 2) == Ok::<_, SearchError>((y, 3int)));
    assert(primary(t, 4) == Ok::<_, SearchError>((z, 5int)));
    assert(operator_at(t, 5) is None);
    assert(operator_at(t, 1) matches Some((_, p, implicit)) && p == p1 && !implicit);
    assert(operator_at(t, 3) matches Some((_, p, implicit)) && p == p2 && !implicit);
    assert(operators(t, 5, (p2 + 1) as u8, z) == Ok::<_, SearchError>((z, 5int)));
    assert(expression(t, 4, (p2 + 1) as u8) == Ok::<_, SearchError>((z, 5int)));
    if tightness(first) >= tightness(second) {
        let xy = under_operator(first, x, y);
        assert(operators(t, 3, (p1 + 1) as u8, y) == Ok::<_, SearchError>((y, 3int)));
        assert(expression(t, 2, (p1 + 1) as u8) == Ok::<_, SearchError>((y, 3int)));
        let all = under_operator(second, xy, z);
        assert(operators(t, 5, 1, all) == Ok::<_, SearchError>((all, 5int)));
        assert(operators(t, 3, 1, xy) == Ok::<_, SearchError>((all, 5int)));
        assert(operators(t, 1, 1, x) == Ok::<_, SearchError>((all, 5int)));
    } else {
        let yz = under_operator(second, y, z);
        assert(operators(t, 5, (p1 + 1) as u8, yz) == Ok::<_, SearchError>((yz, 5int)));
        assert(operators(t, 3, (p1 + 1) as u8, y) == Ok::<_, SearchError>((yz, 5int)));
        assert(expression(t, 2, (p1 + 1) as u8) == Ok::<_, SearchError>((yz, 5int)));
        let all = under_operator(first, x, yz);
        assert(operators(t, 5, 1, all) == Ok::<_, SearchError>((all, 5int)));
        assert(operators(t, 1, 1, x) == Ok::<_, SearchError>((all, 5int)));
    }
}

/// Whether a text is a bare word: it is not empty and holds no white space, no
/// parenthesis and no quote.
pub open spec fn is_word(w: Seq<char>) -> bool {
    w.len() > 0 && forall|k: int|
        0 <= k < w.len() ==> !is_space(#[trigger] w[k]) && w[k] != '(' && w[k] != ')' && w[k] != '"'
}

/// Whether a word is the name of an operator, in any case.
pub open spec fn names_operator(w: Seq<char>) -> bool {
    ||| same_text_ignoring_case(w, seq!['a', 'n', 'd'])
    ||| same_text_ignoring_case(w, seq!['o', 'r'])
    ||| same_text_ignoring_case(w, seq!['n', 'o', 't'])
}

proof fn lemma_word_tokens(w: Seq<char>)
    ensures
        same_text_ignoring_case(w, seq!['a', 'n', 'd']) ==> word_token(w) == Tok::And,
        same_text_ignoring_case(w, seq!['o', 'r']) ==> word_token(w) == Tok::Or,
        same_text_ignoring_case(w, seq!['n', 'o', 't']) ==> word_token(w) == Tok::Not,
        !names_operator(w) ==> word_token(w) == Tok::Term(w),
{
    let (a, b, c) = (seq!['a', 'n', 'd'], seq!['o', 'r'], seq!['n', 'o', 't']);
    let (x, y, z) = (seq!['A', 'N', 'D'], seq!['O', 'R'], seq!['N', 'O', 'T']);
    assert(forall|k: int| 0 <= k < 3 ==> ascii_lower(#[trigger] a[k]) == ascii_lower(x[k]));
    assert(forall|k: int| 0 <= k < 2 ==> ascii_lower(#[trigger] b[k]) == ascii_lower(y[k]));
    assert(forall|k: int| 0 <= k < 3 ==> ascii_lower(#[trigger] c[k]) == ascii_lower(z[k]));
    if same_text_ignoring_case(w, x) {
        assert forall|k: int| 0 <= k < w.len() implies ascii_lower(#[trigger] w[k]) == ascii_lower(
            a[k],
        ) by {}
    }
    if same_text_ignoring_case(w, y) {
        assert forall|k: int| 0 <= k < w.len() implies ascii_lower(#[trigger] w[k]) == ascii_lower(
            b[k],
        ) by {}
    }
    if same_text_ignoring_case(w, z) {
        assert forall|k: int| 0 <= k < w.len() implies ascii_lower(#[trigger] w[k]) == ascii_lower(
            c[k],
        ) by {}
    }
    if same_text_ignoring_case(w, a) {
        assert forall|k: int| 0 <= k < w.len() implies ascii_lower(#[trigger] w[k]) == ascii_lower(
            x[k],
        ) by {}
    }
    if same_text_ignoring_case(w, b) {
        assert forall|k: int| 0 <= k < w.len() implies ascii_lower(#[trigger] w[k]) == ascii_lower(
            y[k],
        ) by {}
        assert(w.len() == 2);
    }
    if same_text_ignoring_case(w, c) {
        assert forall|k: int| 0 <= k < w.len() implies ascii_lower(#[trigger] w[k]) == ascii_lower(
            z[k],
        ) by {}
        assert(ascii_lower(w[0]) == 'n');
        assert(ascii_lower(x[0]) == 'a');
    }
}

/// Two words with the name of an operator between them, in any case, stand for
/// that operator over the two words.
pub proof fn law_operator_between_words(x: Seq<char>, op: Seq<char>, y: Seq<char>)
    requires
        is_word(x) && !names_operator(x),
        is_word(op) && names_operator(op),
        is_word(y) && !names_operator(y),
    ensures
        ({
            let (l, r) = (Box::new(Expr::Term(x)), Box::new(Expr::Term(y)));
            parsed(x + (seq![' '] + op + seq![' ']) + y) == Ok::<_, SearchError>(
                Some(
                    if same_text_ignoring_case(op, seq!['a', 'n', 'd']) {
                        Expr::And(l, r)
                    } else if same_text_ignoring_case(op, seq!['o', 'r']) {
                        Expr::Or(l, r)
                    } else {
                        Expr::Not(l, r)
                    },
                ),
            )
        }),
{
    let s = x + (seq![' '] + op + seq![' ']) + y;
    let a = x.len() as int;
    let n = op.len() as int;
    let none = Seq::<Tok>::empty();
    lemma_word_tokens(x);
    lemma_word_tokens(op);
    lemma_word_tokens(y);
    assert(s[a] == ' ');
    assert(s.subrange(0, a) =~= x);
    lemma_word_token(s, 0, x, none);
    let t1 = none.push(Tok::Term(x));
    assert(s.subrange(a, a + n + 2) =~= seq![' '] + op + seq![' ']);
    lemma_spaced_word(s, a, op, t1);
    let tok = word_token(op);
    let t2 = t1.push(tok);
    assert(s.subrange(a + n + 2, s.len() as int) =~= y);
    lemma_word_token(s, a + n + 2, y, t2);
    let t = t2.push(Tok::Term(y));
    assert(tokens_from(s, s.len() as int, t) == Ok::<_, SearchError>(t));
    assert(t[0] == Tok::Term(x) && t[1] == tok && t[2] == Tok::Term(y) && t.len() == 3);
    let p: u8 = (tightness(tok) + 1) as u8;
    let (l, r) = (Expr::Term(x), Expr::Term(y));
    assert(primary(t, 0) == Ok::<_, SearchError>((l, 1int)));
    assert(primary(t, 2) == Ok::<_, SearchError>((r, 3int)));
    assert(operator_at(t, 3) is None);
    assert(operator_at(t, 1) matches Some((_, q, implicit)) && q == p && !implicit);
    assert(operators(t, 3, (p + 1) as u8, r) == Ok::<_, SearchError>((r, 3int)));
    assert(expression(t, 2, (p + 1) as u8) == Ok::<_, SearchError>((r, 3int)));
    let all = under_operator(tok, l, r);
    assert(operators(t, 3, 1, all) == Ok::<_, SearchError>((all, 3int)));
    assert(operators(t, 1, 1, l) == Ok::<_, SearchError>((all, 3int)));
    assert(same_text_ignoring_case(op, seq!['a', 'n', 'd']) == (tok is And));
    assert(expression(t, 0, 1) == Ok::<_, SearchError>((all, 3int)));
}

/// A bare word that names no operator is a term, and nothing but white space is
/// no expression.
pub proof fn law_single_word_is_a_term(w: Seq<char>)
    requires
        is_word(w) && !names_operator(w),
    ensures
        parsed(w) == Ok::<_, SearchError>(Some(Expr::Term(w))),
        parsed(Seq::<char>::empty()) == Ok::<_, SearchError>(None::<Expr>),
{
    let none = Seq::<Tok>::empty();
    lemma_word_tokens(w);
    assert(w.subrange(0, w.len() as int) =~= w);
    lemma_word_token(w, 0, w, none);
    let t = none.push(Tok::Term(w));
    assert(tokens_from(w, w.len() as int, t) == Ok::<_, SearchError>(t));
    assert(primary(t, 0) == Ok::<_, SearchError>((Expr::Term(w), 1int)));
    assert(operator_at(t, 1) is None);
    assert(operators(t, 1, 1, Expr::Term(w)) == Ok::<_, SearchError>((Expr::Term(w), 1int)));
}

// ---------------------------------------------------------------------------
// The limit on operators
// ---------------------------------------------------------------------------
/// How many operators stand in a query.
pub open spec fn operators_in(q: Query) -> nat
    decreases q,
{
    match q {
        Query::And(l, r) => 1 + operators_in(*l) + operators_in(*r),
        Query::Or(l, r) => 1 + operators_in(*l) + operators_in(*r),
        Query::Not(l, r) => 1 + operators_in(*l) + operators_in(*r),
        _ => 0,
    }
}

/// Every operator of an expression counts, of whichever kind.
pub proof fn law_every_operator_counts(e: Expr)
    ensures
        operator_count(e) == operators_in(query_of(e)),
    decreases e,
{
    match e {
        Expr::Term(_) => {},
        Expr::And(l, r) => {
            law_every_operator_counts(*l);
            law_every_operator_counts(*r);
        },
        Expr::Or(l, r) => {
            law_every_operator_counts(*l);
            law_every_operator_counts(*r);
        },
        Expr::Not(l, r) => {
            law_every_operator_counts(*l);
            law_every_operator_counts(*r);
        },
    }
}

/// A search of up to ten operators goes out; one of more is refused as too
/// complex.
pub proof fn law_ten_operators_are_the_limit(term: Seq<char>, e: Expr)
    requires
        parsed(term) == Ok::<_, SearchError>(Some(e)),
        keyword_bytes(Some(e)) is Ok,
    ensures
        operators_in(query_of(e)) > 10 ==> search_request(term, no_criteria()) == Err::<
            Seq<u8>,
            _,
        >(SearchError::TooComplex),
        operators_in(query_of(e)) <= 10 ==> search_request(term, no_criteria()) == keyword_bytes(
            Some(e),
        ),
{
    law_every_operator_counts(e);
}

/// Conditions go out in one order: complete sources, type, least size, greatest
/// size, availability, extension.
pub proof fn law_conditions_go_out_in_order(
    kind: Seq<char>,
    extension: Seq<char>,
    least: u64,
    most: u64,
    availability: u32,
    complete: u32,
)
    requires
        kind.len() > 0,
        !is_space(kind[0]),
        !is_space(kind.last()),
        kind != seq!['A', 'r', 'c'],
        kind != seq!['I', 's', 'o'],
        encode_utf8(kind).len() <= 65535,
        extension.len() > 0,
        !is_space(extension[0]),
        !is_space(extension.last()),
        extension[0] != '.',
        encode_utf8(extension).len() <= 65535,
    ensures
        ({
            let nodes = constraint_nodes(
                CriteriaView {
                    file_type: Some(kind),
                    extension: Some(extension),
                    min_size: Some(least),
                    max_size: Some(most),
                    min_availability: Some(availability),
                    min_complete_sources: Some(complete),
                },
            );
            &&& nodes is Ok
            &&& nodes->Ok_0.len() == 6
            &&& reads_as(nodes->Ok_0[0], Query::AtLeast(0x30, complete as u64))
            &&& reads_as(nodes->Ok_0[1], Query::TextIs(0x03, kind))
            &&& reads_as(nodes->Ok_0[2], Query::AtLeast(0x02, least))
            &&& reads_as(nodes->Ok_0[3], Query::AtMost(0x02, most))
            &&& reads_as(nodes->Ok_0[4], Query::AtLeast(0x15, availability as u64))
            &&& reads_as(nodes->Ok_0[5], Query::TextIs(0x04, extension))
        }),
{
    let none = Seq::<char>::empty();
    crate::text::law_trimming_leaves_the_text(none, kind, none);
    assert(none + kind + none =~= kind);
    crate::text::law_trimming_leaves_the_text(none, extension, none);
    assert(none + extension + none =~= extension);
    crate::text::law_stripping_leaves_the_rest(0, '.', extension);
    assert(Seq::new(0, |i: int| '.') + extension =~= extension);
    lemma_number_reads_back(0x30, 3, complete as u64);
    lemma_text_condition_reads_back(0x03, kind);
    lemma_number_reads_back(0x02, 3, least);
    lemma_number_reads_back(0x02, 4, most);
    lemma_number_reads_back(0x15, 3, availability as u64);
    lemma_text_condition_reads_back(0x04, extension);
}

} // verus!
