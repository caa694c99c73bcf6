//! The pattern parser: recursive descent over the token stream, one token of
//! lookahead at each decision point.
//!
//! Each `sp_*` spec function returns, besides the parsed value, how many
//! tokens it consumed (for group-shaped productions, consumed minus one, so
//! that progress is evident); the executable parser mirrors it exactly and
//! returns the index after the consumed tokens.
//!
//! Child parsing is best-effort-sequential: the parser repeatedly attempts
//! one more child constraint and stops silently on the first that fails to
//! parse; what is left of the enclosing group is swallowed up to the
//! matching closer. An unmatched delimiter, a missing kind or wildcard
//! token, a field separator with no group after it, and a dangling `@` are
//! syntax errors.

use vstd::prelude::*;

use crate::ast::Field;
use crate::ast::FieldV;
use crate::ast::Logical;
use crate::ast::Query;
use crate::ast::QueryV;
use crate::ast::SubQuery;
use crate::ast::SubQueryV;
use crate::ast::lemma_view_queries;
use crate::ast::lemma_view_subqueries;
use crate::ast::spec_view_queries;
use crate::ast::spec_view_query;
use crate::ast::spec_view_subqueries;
use crate::lexer::Tok;
use crate::lexer::TokV;
use crate::lexer::lex_from;
use crate::lexer::spec_lex;
use crate::lexer::toks_view;

verus! {

/// How parsing or compiling a pattern can fail.
#[derive(Clone, Copy, PartialEq, Eq, Structural, Debug)]
pub enum QueryError {
    /// Malformed pattern text.
    Syntax,
    /// A capture name with no binding in scope at compile time.
    UnboundCapture,
}

/// An optional field selector: an identifier or an index, each followed by a
/// required `:`. A lone identifier or index with no `:` is an error; anything
/// else means "no selector", consuming nothing.
pub open spec fn sp_field(ts: Seq<TokV>, i: int) -> Option<(Option<FieldV>, nat)> {
    if i < 0 || i >= ts.len() {
        Some((None, 0))
    } else {
        match ts[i] {
            TokV::Ident(nm) => if i + 1 < ts.len() && ts[i + 1] is Colon {
                Some((Some(FieldV::Named(nm)), 2))
            } else {
                None
            },
            TokV::Int(v) => if i + 1 < ts.len() && ts[i + 1] is Colon {
                Some((Some(FieldV::Index(v)), 2))
            } else {
                None
            },
            _ => Some((None, 0)),
        }
    }
}

/// The quantifier/capture suffix: optional `+`, `*`, `?` in that fixed
/// order, then an optional `@name`. A dangling `@` is an error.
pub open spec fn sp_tail(ts: Seq<TokV>, i: int) -> Option<((bool, bool, bool, Option<Seq<u8>>), nat)> {
    let pl: int = if 0 <= i < ts.len() && ts[i] is Plus {
        1
    } else {
        0
    };
    let st: int = if 0 <= i + pl < ts.len() && ts[i + pl] is Star {
        1
    } else {
        0
    };
    let op: int = if 0 <= i + pl + st < ts.len() && ts[i + pl + st] is Question {
        1
    } else {
        0
    };
    let j = i + pl + st + op;
    if 0 <= j < ts.len() && ts[j] is At {
        if j + 1 < ts.len() && ts[j + 1] is Ident {
            match ts[j + 1] {
                TokV::Ident(nm) => Some(
                    ((pl == 1, st == 1, op == 1, Some(nm)), (pl + st + op + 2) as nat),
                ),
                _ => None,
            }
        } else {
            None
        }
    } else {
        Some(((pl == 1, st == 1, op == 1, None), (pl + st + op) as nat))
    }
}

/// Offset of the matching closer (`)` if `close_paren`, else `]`) from `i`,
/// skipping balanced nested groups; `None` when the group is unmatched.
pub open spec fn sp_skip(ts: Seq<TokV>, i: int, close_paren: bool) -> Option<nat>
    decreases ts.len() - i,
{
    if i < 0 || i >= ts.len() {
        None
    } else if (close_paren && ts[i] is RParen) || (!close_paren && ts[i] is RBracket) {
        Some(0)
    } else if ts[i] is RParen || ts[i] is RBracket {
        None
    } else if ts[i] is LParen || ts[i] is LBracket {
        match sp_skip(ts, i + 1, ts[i] is LParen) {
            None => None,
            Some(c1) => if i + 2 + c1 > ts.len() {
                None
            } else {
                match sp_skip(ts, i + 2 + c1, close_paren) {
                    None => None,
                    Some(c2) => Some((2 + c1 + c2) as nat),
                }
            },
        }
    } else {
        match sp_skip(ts, i + 1, close_paren) {
            None => None,
            Some(c) => Some((1 + c) as nat),
        }
    }
}

/// One parenthesized pattern group with its suffix, starting at the `(` at
/// `i`; the `nat` is the consumed token count minus one.
pub open spec fn sp_query(ts: Seq<TokV>, i: int) -> Option<(QueryV, nat)>
    decreases ts.len() - i, 0int,
{
    if i < 0 || i >= ts.len() || !(ts[i] is LParen) {
        None
    } else {
        match sp_content(ts, i + 1) {
            None => None,
            Some((kind, subs, cc)) => {
                let j = i + 1 + cc;
                if j > ts.len() {
                    None
                } else {
                    match sp_skip(ts, j, true) {
                        None => None,
                        Some(sk) => {
                            let k = j + sk + 1;
                            if k > ts.len() {
                                None
                            } else {
                                match sp_tail(ts, k) {
                                    None => None,
                                    Some(((pl, st, op, cap), tc)) => Some(
                                        (
                                            QueryV {
                                                node: kind,
                                                children: subs,
                                                capture_name: cap,
                                                is_optional: op,
                                                is_star: st,
                                                is_plus: pl,
                                            },
                                            (cc + sk + 1 + tc) as nat,
                                        ),
                                    ),
                                }
                            }
                        },
                    }
                }
            },
        }
    }
}

/// The inside of a group: a required wildcard `_` or kind identifier, then
/// as many child constraints as parse.
pub open spec fn sp_content(ts: Seq<TokV>, i: int) -> Option<
    (Option<Seq<u8>>, Seq<SubQueryV>, nat),
>
    decreases ts.len() - i, 0int,
{
    if i < 0 || i >= ts.len() {
        None
    } else {
        match ts[i] {
            TokV::Underscore => {
                let (subs, cc) = sp_children(ts, i + 1);
                Some((None, subs, (1 + cc) as nat))
            },
            TokV::Ident(nm) => {
                let (subs, cc) = sp_children(ts, i + 1);
                Some((Some(nm), subs, (1 + cc) as nat))
            },
            _ => None,
        }
    }
}

/// Child constraints, one after the other, until one fails to parse.
pub open spec fn sp_children(ts: Seq<TokV>, i: int) -> (Seq<SubQueryV>, nat)
    decreases ts.len() - i, 1int,
{
    match sp_child(ts, i) {
        None => (Seq::empty(), 0),
        Some((c, ex)) => {
            if i + 1 + ex > ts.len() {
                (seq![c], (1 + ex) as nat)
            } else {
                let (rest, rc) = sp_children(ts, i + 1 + ex);
                (seq![c] + rest, (1 + ex + rc) as nat)
            }
        },
    }
}

/// One child constraint: an optional field selector, then a bracket group
/// (alternatives), a doubly parenthesized group (sequence), or a plain
/// sub-pattern (single); the `nat` is the consumed token count minus one.
pub open spec fn sp_child(ts: Seq<TokV>, i: int) -> Option<(SubQueryV, nat)>
    decreases ts.len() - i, 0int,
{
    if i < 0 || i >= ts.len() {
        None
    } else {
        match sp_field(ts, i) {
            None => None,
            Some((f, flen)) => {
                let j = i + flen;
                if j >= ts.len() {
                    None
                } else if ts[j] is LBracket {
                    let (qs, qc) = sp_queries(ts, j + 1);
                    let m = j + 1 + qc;
                    if m > ts.len() {
                        None
                    } else {
                        match sp_skip(ts, m, false) {
                            None => None,
                            Some(sk) => Some(
                                (
                                    SubQueryV { field: f, logic: Logical::Alternative, queries: qs },
                                    (flen + 1 + qc + sk) as nat,
                                ),
                            ),
                        }
                    }
                } else if ts[j] is LParen {
                    if j + 1 < ts.len() && ts[j + 1] is LParen {
                        let (qs, qc) = sp_queries(ts, j + 2);
                        let m = j + 2 + qc;
                        if m > ts.len() {
                            None
                        } else {
                            match sp_skip(ts, m, true) {
                                None => None,
                                Some(sk1) => {
                                    let n = m + sk1 + 1;
                                    if n > ts.len() {
                                        None
                                    } else {
                                        match sp_skip(ts, n, true) {
                                            None => None,
                                            Some(sk2) => Some(
                                                (
                                                    SubQueryV {
                                                        field: f,
                                                        logic: Logical::Sequence,
                                                        queries: qs,
                                                    },
                                                    (flen + 3 + qc + sk1 + sk2) as nat,
                                                ),
                                            ),
                                        }
                                    }
                                },
                            }
                        }
                    } else {
                        match sp_content(ts, j + 1) {
                            None => None,
                            Some((kind, subs, cc)) => {
                                let m = j + 1 + cc;
                                if m > ts.len() {
                                    None
                                } else {
                                    match sp_skip(ts, m, true) {
                                        None => None,
                                        Some(sk) => {
                                            let k = m + sk + 1;
                                            if k > ts.len() {
                                                None
                                            } else {
                                                match sp_tail(ts, k) {
                                                    None => None,
                                                    Some(((pl, st, op, cap), tc)) => Some(
                                                        (
                                                            SubQueryV {
                                                                field: f,
                                                                logic: Logical::Single,
                                                                queries: seq![
                                                                    QueryV {
                                                                        node: kind,
                                                                        children: subs,
                                                                        capture_name: cap,
                                                                        is_optional: op,
                                                                        is_star: st,
                                                                        is_plus: pl,
                                                                    },
                                                                ],
                                                            },
                                                            (flen + cc + sk + 1 + tc) as nat,
                                                        ),
                                                    ),
                                                }
                                            }
                                        },
                                    }
                                }
                            },
                        }
                    }
                } else {
                    None
                }
            },
        }
    }
}

/// Pattern groups, one after the other, until one fails to parse.
pub open spec fn sp_queries(ts: Seq<TokV>, i: int) -> (Seq<QueryV>, nat)
    decreases ts.len() - i, 1int,
{
    match sp_query(ts, i) {
        None => (Seq::empty(), 0),
        Some((q, ex)) => {
            if i + 1 + ex > ts.len() {
                (seq![q], (1 + ex) as nat)
            } else {
                let (rest, rc) = sp_queries(ts, i + 1 + ex);
                (seq![q] + rest, (1 + ex + rc) as nat)
            }
        },
    }
}

/// The whole parse: tokenize, parse one pattern group with its suffix, and
/// demand that nothing is left over.
pub open spec fn sp_parse(s: Seq<u8>) -> Option<QueryV> {
    match spec_lex(s, 0) {
        None => None,
        Some(ts) => match sp_query(ts, 0) {
            None => None,
            Some((q, ex)) => if 1 + ex == ts.len() {
                Some(q)
            } else {
                None
            },
        },
    }
}

pub open spec fn opt_field_view(f: Option<Field>) -> Option<FieldV> {
    match f {
        Some(x) => Some(x@),
        None => None,
    }
}

pub open spec fn opt_bytes_view(b: Option<Vec<u8>>) -> Option<Seq<u8>> {
    match b {
        Some(x) => Some(x@),
        None => None,
    }
}

pub(crate) fn copy_bytes(src: &Vec<u8>) -> (r: Vec<u8>)
    ensures
        r@ == src@,
{
    let mut r: Vec<u8> = Vec::new();
    let mut k: usize = 0;
    while k < src.len()
        invariant
            0 <= k <= src@.len(),
            r@ == src@.subrange(0, k as int),
        decreases src@.len() - k,
    {
        r.push(src[k]);
        proof {
            assert(r@ =~= src@.subrange(0, k + 1 as int));
        }
        k = k + 1;
    }
    proof {
        assert(r@ =~= src@);
    }
    r
}

fn is_lparen(t: &Tok) -> (r: bool)
    ensures
        r == (t@ is LParen),
{
    matches!(t, Tok::LParen)
}

fn is_lbracket(t: &Tok) -> (r: bool)
    ensures
        r == (t@ is LBracket),
{
    matches!(t, Tok::LBracket)
}

fn is_rparen(t: &Tok) -> (r: bool)
    ensures
        r == (t@ is RParen),
{
    matches!(t, Tok::RParen)
}

fn is_rbracket(t: &Tok) -> (r: bool)
    ensures
        r == (t@ is RBracket),
{
    matches!(t, Tok::RBracket)
}

fn is_colon(t: &Tok) -> (r: bool)
    ensures
        r == (t@ is Colon),
{
    matches!(t, Tok::Colon)
}

fn is_at(t: &Tok) -> (r: bool)
    ensures
        r == (t@ is At),
{
    matches!(t, Tok::At)
}

fn is_plus(t: &Tok) -> (r: bool)
    ensures
        r == (t@ is Plus),
{
    matches!(t, Tok::Plus)
}

fn is_star(t: &Tok) -> (r: bool)
    ensures
        r == (t@ is Star),
{
    matches!(t, Tok::Star)
}

fn is_question(t: &Tok) -> (r: bool)
    ensures
        r == (t@ is Question),
{
    matches!(t, Tok::Question)
}

/// Mirrors `sp_field`.
fn p_field(ts: &Vec<Tok>, i: usize) -> (r: Option<(Option<Field>, usize)>)
    requires
        i <= ts@.len(),
    ensures
        match r {
            Some((f, j)) => sp_field(toks_view(ts@), i as int) == Some(
                (opt_field_view(f), (j - i) as nat),
            ) && i <= j <= ts@.len(),
            None => sp_field(toks_view(ts@), i as int) is None,
        },
{
    if i >= ts.len() {
        return Some((None, i));
    }
    match &ts[i] {
        Tok::Ident(w) => {
            if i + 1 < ts.len() && is_colon(&ts[i + 1]) {
                Some((Some(Field::Named(copy_bytes(w))), i + 2))
            } else {
                None
            }
        },
        Tok::Int(v) => {
            if i + 1 < ts.len() && is_colon(&ts[i + 1]) {
                Some((Some(Field::Index(*v)), i + 2))
            } else {
                None
            }
        },
        _ => Some((None, i)),
    }
}

/// Mirrors `sp_tail`.
fn p_tail(ts: &Vec<Tok>, i: usize) -> (r: Option<((bool, bool, bool, Option<Vec<u8>>), usize)>)
    requires
        i <= ts@.len(),
    ensures
        match r {
            Some((t, j)) => sp_tail(toks_view(ts@), i as int) == Some(
                ((t.0, t.1, t.2, opt_bytes_view(t.3)), (j - i) as nat),
            ) && i <= j <= ts@.len(),
            None => sp_tail(toks_view(ts@), i as int) is None,
        },
{
    let mut j = i;
    let plus = j < ts.len() && is_plus(&ts[j]);
    if plus {
        j = j + 1;
    }
    let star = j < ts.len() && is_star(&ts[j]);
    if star {
        j = j + 1;
    }
    let opt = j < ts.len() && is_question(&ts[j]);
    if opt {
        j = j + 1;
    }
    if j < ts.len() && is_at(&ts[j]) {
        if j + 1 < ts.len() {
            match &ts[j + 1] {
                Tok::Ident(w) => Some(((plus, star, opt, Some(copy_bytes(w))), j + 2)),
                _ => None,
            }
        } else {
            None
        }
    } else {
        Some(((plus, star, opt, None), j))
    }
}

/// Mirrors `sp_skip`.
fn p_skip(ts: &Vec<Tok>, i: usize, close_paren: bool) -> (r: Option<usize>)
    requires
        i <= ts@.len(),
    ensures
        match r {
            Some(c) => sp_skip(toks_view(ts@), i as int, close_paren) == Some(c as nat) && i + c
                < ts@.len(),
            None => sp_skip(toks_view(ts@), i as int, close_paren) is None,
        },
    decreases ts@.len() - i,
{
    if i >= ts.len() {
        return None;
    }
    let t = &ts[i];
    if (close_paren && is_rparen(t)) || (!close_paren && is_rbracket(t)) {
        Some(0)
    } else if is_rparen(t) || is_rbracket(t) {
        None
    } else if is_lparen(t) || is_lbracket(t) {
        match p_skip(ts, i + 1, is_lparen(t)) {
            None => None,
            Some(c1) => {
                match p_skip(ts, i + 2 + c1, close_paren) {
                    None => None,
                    Some(c2) => Some(2 + c1 + c2),
                }
            },
        }
    } else {
        match p_skip(ts, i + 1, close_paren) {
            None => None,
            Some(c) => Some(1 + c),
        }
    }
}

/// Mirrors `sp_query`.
fn p_query(ts: &Vec<Tok>, i: usize) -> (r: Option<(Query, usize)>)
    requires
        i <= ts@.len(),
    ensures
        match r {
            Some((q, j)) => sp_query(toks_view(ts@), i as int) == Some((q@, (j - i - 1) as nat))
                && i < j <= ts@.len(),
            None => sp_query(toks_view(ts@), i as int) is None,
        },
    decreases ts@.len() - i, 0int,
{
    if i >= ts.len() || !is_lparen(&ts[i]) {
        return None;
    }
    match p_content(ts, i + 1) {
        None => None,
        Some((kind, subs, m)) => {
            match p_skip(ts, m, true) {
                None => None,
                Some(sk) => {
                    let k = m + sk + 1;
                    match p_tail(ts, k) {
                        None => None,
                        Some(((pl, st, op, cap), e)) => {
                            let q = Query {
                                node: kind,
                                children: subs,
                                capture_name: cap,
                                is_optional: op,
                                is_star: st,
                                is_plus: pl,
                            };
                            Some((q, e))
                        },
                    }
                },
            }
        },
    }
}

/// Mirrors `sp_content`.
fn p_content(ts: &Vec<Tok>, i: usize) -> (r: Option<(Option<Vec<u8>>, Vec<SubQuery>, usize)>)
    requires
        i <= ts@.len(),
    ensures
        match r {
            Some((kind, subs, j)) => sp_content(toks_view(ts@), i as int) == Some(
                (opt_bytes_view(kind), spec_view_subqueries(subs, 0), (j - i) as nat),
            ) && i < j <= ts@.len(),
            None => sp_content(toks_view(ts@), i as int) is None,
        },
    decreases ts@.len() - i, 1int,
{
    if i >= ts.len() {
        return None;
    }
    let kind: Option<Vec<u8>> = match &ts[i] {
        Tok::Underscore => None,
        Tok::Ident(w) => Some(copy_bytes(w)),
        _ => {
            return None;
        },
    };
    let mut subs: Vec<SubQuery> = Vec::new();
    let j = p_children_from(ts, i + 1, &mut subs);
    proof {
        let (subsv, cc) = sp_children(toks_view(ts@), i + 1 as int);
        assert(Seq::<SubQueryV>::empty() + subsv =~= subsv);
    }
    Some((kind, subs, j))
}

/// Mirrors `sp_children`, appending the parsed constraints to `acc`.
fn p_children_from(ts: &Vec<Tok>, i: usize, acc: &mut Vec<SubQuery>) -> (j: usize)
    requires
        i <= ts@.len(),
    ensures
        ({
            let (subs, c) = sp_children(toks_view(ts@), i as int);
            &&& j == i + c
            &&& i <= j <= ts@.len()
            &&& spec_view_subqueries(*final(acc), 0) == spec_view_subqueries(*old(acc), 0) + subs
        }),
    decreases ts@.len() - i, 1int,
{
    match p_child(ts, i) {
        None => {
            proof {
                assert(spec_view_subqueries(*acc, 0) =~= spec_view_subqueries(*acc, 0)
                    + Seq::<SubQueryV>::empty());
            }
            i
        },
        Some((c, j2)) => {
            let ghost cv = c@;
            let ghost before = *acc;
            acc.push(c);
            proof {
                lemma_view_subqueries(before, 0);
                lemma_view_subqueries(*acc, 0);
                assert(acc@ == before@.push(c));
                assert(forall|k: int| 0 <= k < before@.len() ==> acc@[k] == before@[k]);
                assert(acc@[before@.len() as int] == c);
                assert(spec_view_subqueries(*acc, 0) =~= spec_view_subqueries(before, 0)
                    + seq![cv]);
            }
            let j3 = p_children_from(ts, j2, acc);
            proof {
                let (rest, rc) = sp_children(toks_view(ts@), j2 as int);
                assert(spec_view_subqueries(*acc, 0) =~= spec_view_subqueries(before, 0) + (
                seq![cv] + rest));
            }
            j3
        },
    }
}

/// Mirrors `sp_queries`, appending the parsed patterns to `acc`.
fn p_queries_from(ts: &Vec<Tok>, i: usize, acc: &mut Vec<Query>) -> (j: usize)
    requires
        i <= ts@.len(),
    ensures
        ({
            let (qs, c) = sp_queries(toks_view(ts@), i as int);
            &&& j == i + c
            &&& i <= j <= ts@.len()
            &&& spec_view_queries(*final(acc), 0) == spec_view_queries(*old(acc), 0) + qs
        }),
    decreases ts@.len() - i, 1int,
{
    match p_query(ts, i) {
        None => {
            proof {
                assert(spec_view_queries(*acc, 0) =~= spec_view_queries(*acc, 0)
                    + Seq::<QueryV>::empty());
            }
            i
        },
        Some((q, j2)) => {
            let ghost qv = q@;
            let ghost before = *acc;
            acc.push(q);
            proof {
                lemma_view_queries(before, 0);
                lemma_view_queries(*acc, 0);
                assert(acc@ == before@.push(q));
                assert(forall|k: int| 0 <= k < before@.len() ==> acc@[k] == before@[k]);
                assert(acc@[before@.len() as int] == q);
                assert(spec_view_queries(*acc, 0) =~= spec_view_queries(before, 0) + seq![qv]);
            }
            let j3 = p_queries_from(ts, j2, acc);
            proof {
                let (rest, rc) = sp_queries(toks_view(ts@), j2 as int);
                assert(spec_view_queries(*acc, 0) =~= spec_view_queries(before, 0) + (seq![qv]
                    + rest));
            }
            j3
        },
    }
}

/// Mirrors `sp_child`.
#[verifier::rlimit(100)]
fn p_child(ts: &Vec<Tok>, i: usize) -> (r: Option<(SubQuery, usize)>)
    requires
        i <= ts@.len(),
    ensures
        match r {
            Some((c, j)) => sp_child(toks_view(ts@), i as int) == Some((c@, (j - i - 1) as nat))
                && i < j <= ts@.len(),
            None => sp_child(toks_view(ts@), i as int) is None,
        },
    decreases ts@.len() - i, 0int,
{
    if i >= ts.len() {
        return None;
    }
    match p_field(ts, i) {
        None => None,
        Some((f, j0)) => {
            if j0 >= ts.len() {
                return None;
            }
            if is_lbracket(&ts[j0]) {
                let mut qs: Vec<Query> = Vec::new();
                proof {
                    lemma_view_queries(qs, 0);
                }
                let m = p_queries_from(ts, j0 + 1, &mut qs);
                proof {
                    let (qsv, qc) = sp_queries(toks_view(ts@), j0 + 1 as int);
                    assert(Seq::<QueryV>::empty() + qsv =~= qsv);
                }
                match p_skip(ts, m, false) {
                    None => None,
                    Some(sk) => {
                        let c = SubQuery { field: f, logic: Logical::Alternative, queries: qs };
                        Some((c, m + sk + 1))
                    },
                }
            } else if is_lparen(&ts[j0]) {
                if j0 + 1 < ts.len() && is_lparen(&ts[j0 + 1]) {
                    let mut qs: Vec<Query> = Vec::new();
                    proof {
                        lemma_view_queries(qs, 0);
                    }
                    let m = p_queries_from(ts, j0 + 2, &mut qs);
                    proof {
                        let (qsv, qc) = sp_queries(toks_view(ts@), j0 + 2 as int);
                        assert(Seq::<QueryV>::empty() + qsv =~= qsv);
                    }
                    match p_skip(ts, m, true) {
                        None => None,
                        Some(sk1) => {
                            match p_skip(ts, m + sk1 + 1, true) {
                                None => None,
                                Some(sk2) => {
                                    let c = SubQuery {
                                        field: f,
                                        logic: Logical::Sequence,
                                        queries: qs,
                                    };
                                    Some((c, m + sk1 + 1 + sk2 + 1))
                                },
                            }
                        },
                    }
                } else {
                    match p_content(ts, j0 + 1) {
                        None => None,
                        Some((kind, subs, m)) => {
                            match p_skip(ts, m, true) {
                                None => None,
                                Some(sk) => {
                                    let k = m + sk + 1;
                                    match p_tail(ts, k) {
                                        None => None,
                                        Some(((pl, st, op, cap), e)) => {
                                            let q = Query {
                                                node: kind,
                                                children: subs,
                                                capture_name: cap,
                                                is_optional: op,
                                                is_star: st,
                                                is_plus: pl,
                                            };
                                            let mut qv: Vec<Query> = Vec::new();
                                            qv.push(q);
                                            let c = SubQuery {
                                                field: f,
                                                logic: Logical::Single,
                                                queries: qv,
                                            };
                                            proof {
                                                lemma_view_queries(qv, 0);
                                                assert(spec_view_queries(qv, 0)
                                                    =~= seq![spec_view_query(qv@[0])]);
                                            }
                                            Some((c, e))
                                        },
                                    }
                                },
                            }
                        },
                    }
                }
            } else {
                None
            }
        },
    }
}

impl Query {
    /// Parse pattern text into a `Query` tree; `Err(Syntax)` exactly when
    /// the text is not a well-formed pattern.
    pub fn parse(src: &[u8]) -> (r: Result<Query, QueryError>)
        ensures
            match r {
                Ok(q) => sp_parse(src@) == Some(q@),
                Err(e) => sp_parse(src@) is None && e == QueryError::Syntax,
            },
    {
        let mut toks: Vec<Tok> = Vec::new();
        let ghost empty_toks = toks@;
        if !lex_from(src, 0, &mut toks) {
            return Err(QueryError::Syntax);
        }
        proof {
            let r = spec_lex(src@, 0).unwrap();
            assert(toks_view(empty_toks) =~= Seq::<TokV>::empty());
            assert(toks_view(toks@) =~= r);
        }
        match p_query(&toks, 0) {
            None => Err(QueryError::Syntax),
            Some((q, j)) => {
                if j == toks.len() {
                    Ok(q)
                } else {
                    Err(QueryError::Syntax)
                }
            },
        }
    }
}

} // verus!
