//! Parsing is idempotent on the pretty-printer's output: rendering a parsed
//! pattern and parsing it again gives the same pattern tree. Proved in two
//! layers: the lexer inverts token rendering, and the parser inverts token
//! printing.

use vstd::prelude::*;

use crate::ast::FieldV;
use crate::ast::Logical;
use crate::ast::QueryV;
use crate::ast::SubQueryV;
use crate::lexer::TokV;
use crate::parser::sp_child;
use crate::parser::sp_children;
use crate::parser::sp_content;
use crate::parser::sp_field;
use crate::parser::sp_parse;
use crate::parser::sp_queries;
use crate::parser::sp_query;
use crate::parser::sp_skip;
use crate::parser::sp_tail;
use crate::lexer::digit_run_len;
use crate::lexer::digits_val;
use crate::lexer::ident_run_len;
use crate::lexer::is_digit;
use crate::lexer::is_ident_char;
use crate::lexer::is_ident_start;
use crate::lexer::is_ws;
use crate::lexer::spec_lex;
use crate::printer::dec_digits;
use crate::printer::pr_child;
use crate::printer::pr_children;
use crate::printer::pr_field;
use crate::printer::pr_queries;
use crate::printer::pr_query;
use crate::printer::pr_tail;
use crate::printer::print_of;
use crate::printer::render_from;
use crate::printer::render_tok;

verus! {

/// An identifier the lexer will read back as one `Ident` token.
pub open spec fn valid_ident(w: Seq<u8>) -> bool {
    &&& w.len() > 0
    &&& is_ident_start(w[0])
    &&& forall|k: int| 0 <= k < w.len() ==> is_ident_char(#[trigger] w[k])
    &&& !(w.len() == 1 && w[0] == 95)
}

/// Tokens the renderer can spell so that the lexer reads them back.
pub open spec fn tok_wf(t: TokV) -> bool {
    match t {
        TokV::Ident(w) => valid_ident(w),
        TokV::Int(v) => 0 <= v <= usize::MAX as int,
        _ => true,
    }
}

pub open spec fn toks_wf(ts: Seq<TokV>) -> bool {
    forall|k: int| 0 <= k < ts.len() ==> tok_wf(#[trigger] ts[k])
}

/// Value of a whole digit sequence, most significant first.
pub open spec fn val_of(d: Seq<u8>) -> int
    decreases d.len(),
{
    if d.len() == 0 {
        0
    } else {
        val_of(d.drop_last()) * 10 + (d.last() - 48)
    }
}

/// `digits_val` reads the value of the designated subrange.
proof fn lemma_digits_val_is_val_of(s: Seq<u8>, i: int, n: int)
    requires
        0 <= i,
        0 <= n,
        i + n <= s.len(),
    ensures
        digits_val(s, i, n) == val_of(s.subrange(i, i + n)),
    decreases n,
{
    if n > 0 {
        lemma_digits_val_is_val_of(s, i, n - 1);
        let d = s.subrange(i, i + n);
        assert(d.drop_last() =~= s.subrange(i, i + n - 1));
    }
}

/// The decimal spelling of `n` holds only digits and reads back as `n`.
proof fn lemma_dec_digits(n: int)
    requires
        0 <= n,
    ensures
        dec_digits(n).len() >= 1,
        forall|k: int| 0 <= k < dec_digits(n).len() ==> is_digit(#[trigger] dec_digits(n)[k]),
        val_of(dec_digits(n)) == n,
    decreases n,
{
    if n >= 10 {
        lemma_dec_digits(n / 10);
        let d = dec_digits(n);
        assert(d.drop_last() =~= dec_digits(n / 10));
        assert(d.last() == (48 + n % 10) as u8);
        assert((48 + n % 10) as u8 - 48 == n % 10);
        assert(val_of(d) == (n / 10) * 10 + n % 10);
    } else {
        let d = dec_digits(n);
        assert(d.drop_last() =~= Seq::<u8>::empty());
        assert(val_of(Seq::<u8>::empty()) == 0);
        assert(d.last() == (48 + n) as u8);
        assert((48 + n) as u8 - 48 == n);
        assert(val_of(d) == n);
    }
}

/// A run of exactly `m` identifier characters, stopped right after.
proof fn lemma_ident_run_exact(s: Seq<u8>, x: int, m: int)
    requires
        0 <= x,
        0 <= m,
        x + m <= s.len(),
        forall|d: int| 0 <= d < m ==> is_ident_char(#[trigger] s[x + d]),
        x + m == s.len() || !is_ident_char(s[x + m]),
    ensures
        ident_run_len(s, x) == m,
    decreases m,
{
    if m > 0 {
        assert(is_ident_char(s[x + 0]));
        assert forall|d2: int| 0 <= d2 < m - 1 implies is_ident_char(#[trigger] s[x + 1 + d2]) by {
            assert(is_ident_char(s[x + (1 + d2)]));
        }
        lemma_ident_run_exact(s, x + 1, m - 1);
    }
}

/// A run of exactly `m` digits, stopped right after.
proof fn lemma_digit_run_exact(s: Seq<u8>, x: int, m: int)
    requires
        0 <= x,
        0 <= m,
        x + m <= s.len(),
        forall|d: int| 0 <= d < m ==> is_digit(#[trigger] s[x + d]),
        x + m == s.len() || !is_digit(s[x + m]),
    ensures
        digit_run_len(s, x) == m,
    decreases m,
{
    if m > 0 {
        assert(is_digit(s[x + 0]));
        assert forall|d2: int| 0 <= d2 < m - 1 implies is_digit(#[trigger] s[x + 1 + d2]) by {
            assert(is_digit(s[x + (1 + d2)]));
        }
        lemma_digit_run_exact(s, x + 1, m - 1);
    }
}

/// The lexer inverts the renderer: lexing the rendered spelling of a
/// well-formed token sequence gives those tokens back.
pub proof fn lemma_lex_render(s: Seq<u8>, j: int, ts: Seq<TokV>, k: int)
    requires
        0 <= j <= s.len(),
        0 <= k <= ts.len(),
        s.subrange(j, s.len() as int) == render_from(ts, k),
        toks_wf(ts),
    ensures
        spec_lex(s, j) == Some(ts.subrange(k, ts.len() as int)),
    decreases ts.len() - k,
{
    if k >= ts.len() {
        assert(render_from(ts, k).len() == 0);
        assert(j == s.len());
        assert(ts.subrange(k, ts.len() as int) =~= Seq::<TokV>::empty());
    } else {
        let t = ts[k];
        let sp = render_tok(t);
        let rest = render_from(ts, k + 1);
        let region = s.subrange(j, s.len() as int);
        assert(region == sp + seq![32u8] + rest);
        let n = sp.len() as int;
        assert(region.len() == n + 1 + rest.len());
        assert forall|m: int| 0 <= m < n implies s[j + m] == sp[m] by {
            assert(region[m] == sp[m]);
        }
        assert(s[j + n] == 32) by {
            assert(region[n] == (sp + seq![32u8] + rest)[n]);
        }
        assert(s.subrange(j + n + 1, s.len() as int) =~= rest) by {
            assert forall|m: int| 0 <= m < rest.len() implies s.subrange(
                j + n + 1,
                s.len() as int,
            )[m] == rest[m] by {
                assert(region[n + 1 + m] == rest[m]);
            }
        }
        lemma_lex_render(s, j + n + 1, ts, k + 1);
        assert(spec_lex(s, j + n) == Some(ts.subrange(k + 1, ts.len() as int)));
        match t {
            TokV::Ident(w) => {
                assert(tok_wf(t));
                assert(valid_ident(w));
                assert forall|d: int| 0 <= d < n - 1 implies is_ident_char(
                    #[trigger] s[j + 1 + d],
                ) by {
                    assert(s[j + (1 + d)] == sp[1 + d]);
                    assert(is_ident_char(w[1 + d]));
                }
                assert(!is_ident_char(s[j + 1 + (n - 1)]));
                lemma_ident_run_exact(s, j + 1, n - 1);
                assert(s[j + 0] == w[0]);
                assert(is_ident_start(s[j]));
                assert(!is_ws(s[j]) && !is_digit(s[j]));
                assert(s.subrange(j, j + n) =~= w);
                if s[j] == 95 && ident_run_len(s, j + 1) == 0 {
                    assert(w.len() == 1 && w[0] == 95);
                    assert(false);
                }
                assert(spec_lex(s, j) == Some(seq![t] + ts.subrange(k + 1, ts.len() as int)));
                assert(seq![t] + ts.subrange(k + 1, ts.len() as int) =~= ts.subrange(
                    k,
                    ts.len() as int,
                ));
            },
            TokV::Int(v) => {
                assert(tok_wf(t));
                lemma_dec_digits(v);
                assert forall|d: int| 0 <= d < n implies is_digit(#[trigger] s[j + d]) by {
                    assert(s[j + d] == sp[d]);
                }
                assert(!is_digit(s[j + n]));
                assert forall|d: int| 0 <= d < n - 1 implies is_digit(#[trigger] s[j + 1 + d]) by {
                    assert(is_digit(s[j + (1 + d)]));
                }
                lemma_digit_run_exact(s, j + 1, n - 1);
                assert(s[j + 0] == sp[0]);
                assert(is_digit(sp[0]));
                assert(is_digit(s[j]));
                assert(!is_ws(s[j]));
                assert(1 + digit_run_len(s, j + 1) == n);
                lemma_digits_val_is_val_of(s, j, n);
                assert(s.subrange(j, j + n) =~= sp);
                assert(digits_val(s, j, n) == v);
                assert(spec_lex(s, j) == Some(seq![t] + ts.subrange(k + 1, ts.len() as int)));
                assert(seq![t] + ts.subrange(k + 1, ts.len() as int) =~= ts.subrange(
                    k,
                    ts.len() as int,
                ));
            },
            _ => {
                assert(n == 1);
                assert(s[j] == sp[0]);
                assert(spec_lex(s, j) == Some(seq![t] + ts.subrange(k + 1, ts.len() as int)));
                assert(seq![t] + ts.subrange(k + 1, ts.len() as int) =~= ts.subrange(
                    k,
                    ts.len() as int,
                ));
            },
        }
    }
}

/// A pattern the printer can spell so that the parser reads it back: every
/// identifier is lexable, positional indices fit `usize`, and a single
/// constraint holds exactly one sub-pattern — all invariants that parsing
/// itself establishes.
pub open spec fn wfp_query(q: QueryV) -> bool
    decreases q, 2int, 0int,
{
    &&& (match q.node {
        Some(k) => valid_ident(k),
        None => true,
    })
    &&& (match q.capture_name {
        Some(c) => valid_ident(c),
        None => true,
    })
    &&& wfp_children(q.children, 0)
}

pub open spec fn wfp_children(cs: Seq<SubQueryV>, i: int) -> bool
    decreases cs, 1int, cs.len() - i,
{
    if i < 0 || i >= cs.len() {
        true
    } else {
        wfp_child(cs[i]) && wfp_children(cs, i + 1)
    }
}

pub open spec fn wfp_child(c: SubQueryV) -> bool
    decreases c, 4int, 0int,
{
    &&& (match c.field {
        Some(FieldV::Named(nm)) => valid_ident(nm),
        Some(FieldV::Index(v)) => 0 <= v <= usize::MAX as int,
        None => true,
    })
    &&& (c.logic is Single ==> c.queries.len() == 1)
    &&& wfp_queries(c.queries, 0)
}

pub open spec fn wfp_queries(qs: Seq<QueryV>, i: int) -> bool
    decreases qs, 3int, qs.len() - i,
{
    if i < 0 || i >= qs.len() {
        true
    } else {
        wfp_query(qs[i]) && wfp_queries(qs, i + 1)
    }
}

/// A token that would be taken up by the quantifier/capture suffix parser.
pub open spec fn tail_start(t: TokV) -> bool {
    t is Plus || t is Star || t is Question || t is At
}

proof fn lemma_toks_wf_concat(a: Seq<TokV>, b: Seq<TokV>)
    requires
        toks_wf(a),
        toks_wf(b),
    ensures
        toks_wf(a + b),
{
    assert forall|k: int| 0 <= k < (a + b).len() implies tok_wf(#[trigger] (a + b)[k]) by {
        if k < a.len() {
            assert(tok_wf(a[k]));
        } else {
            assert(tok_wf(b[k - a.len()]));
        }
    }
}

/// The printed tokens of a well-formed pattern are well formed.
proof fn lemma_pr_query_wf(q: QueryV)
    requires
        wfp_query(q),
    ensures
        toks_wf(pr_query(q)),
    decreases q, 2int, 0int,
{
    lemma_pr_children_wf(q.children, 0);
    let k = match q.node {
        None => seq![TokV::Underscore],
        Some(kk) => seq![TokV::Ident(kk)],
    };
    assert(toks_wf(seq![TokV::LParen]));
    assert(toks_wf(k));
    assert(toks_wf(seq![TokV::RParen]));
    lemma_pr_tail_wf(q);
    lemma_toks_wf_concat(seq![TokV::LParen], k);
    lemma_toks_wf_concat(seq![TokV::LParen] + k, pr_children(q.children, 0));
    lemma_toks_wf_concat(seq![TokV::LParen] + k + pr_children(q.children, 0), seq![TokV::RParen]);
    lemma_toks_wf_concat(
        seq![TokV::LParen] + k + pr_children(q.children, 0) + seq![TokV::RParen],
        pr_tail(q),
    );
}

proof fn lemma_pr_tail_wf(q: QueryV)
    requires
        wfp_query(q),
    ensures
        toks_wf(pr_tail(q)),
{
    assert forall|k: int| 0 <= k < pr_tail(q).len() implies tok_wf(#[trigger] pr_tail(q)[k]) by {}
}

proof fn lemma_pr_children_wf(cs: Seq<SubQueryV>, i: int)
    requires
        0 <= i <= cs.len(),
        wfp_children(cs, i),
    ensures
        toks_wf(pr_children(cs, i)),
    decreases cs, 1int, cs.len() - i,
{
    if i < cs.len() {
        lemma_pr_child_wf(cs[i]);
        lemma_pr_children_wf(cs, i + 1);
        lemma_toks_wf_concat(pr_child(cs[i]), pr_children(cs, i + 1));
    } else {
        assert(toks_wf(Seq::<TokV>::empty()));
    }
}

proof fn lemma_pr_child_wf(c: SubQueryV)
    requires
        wfp_child(c),
    ensures
        toks_wf(pr_child(c)),
    decreases c, 4int, 0int,
{
    lemma_pr_queries_wf(c.queries, 0);
    assert(toks_wf(pr_field(c.field)));
    let qs = pr_queries(c.queries, 0);
    match c.logic {
        Logical::Alternative => {
            lemma_toks_wf_concat(seq![TokV::LBracket], qs);
            lemma_toks_wf_concat(seq![TokV::LBracket] + qs, seq![TokV::RBracket]);
            lemma_toks_wf_concat(
                pr_field(c.field),
                seq![TokV::LBracket] + qs + seq![TokV::RBracket],
            );
        },
        Logical::Sequence => {
            lemma_toks_wf_concat(seq![TokV::LParen, TokV::LParen], qs);
            lemma_toks_wf_concat(
                seq![TokV::LParen, TokV::LParen] + qs,
                seq![TokV::RParen, TokV::RParen],
            );
            lemma_toks_wf_concat(
                pr_field(c.field),
                seq![TokV::LParen, TokV::LParen] + qs + seq![TokV::RParen, TokV::RParen],
            );
        },
        Logical::Single => {
            if c.queries.len() > 0 {
                lemma_pr_query_wf(c.queries[0]);
                lemma_toks_wf_concat(pr_field(c.field), pr_query(c.queries[0]));
            } else {
                lemma_toks_wf_concat(
                    pr_field(c.field),
                    seq![TokV::LParen, TokV::Underscore, TokV::RParen],
                );
            }
        },
    }
}

proof fn lemma_pr_queries_wf(qs: Seq<QueryV>, i: int)
    requires
        0 <= i <= qs.len(),
        wfp_queries(qs, i),
    ensures
        toks_wf(pr_queries(qs, i)),
    decreases qs, 3int, qs.len() - i,
{
    if i < qs.len() {
        lemma_pr_query_wf(qs[i]);
        lemma_pr_queries_wf(qs, i + 1);
        lemma_toks_wf_concat(pr_query(qs[i]), pr_queries(qs, i + 1));
    } else {
        assert(toks_wf(Seq::<TokV>::empty()));
    }
}

/// A printed child constraint is nonempty and never starts with a token the
/// suffix parser would take.
proof fn lemma_pr_child_first(c: SubQueryV)
    ensures
        pr_child(c).len() >= 1,
        !tail_start(pr_child(c)[0]),
        !(pr_child(c)[0] is RParen),
        !(pr_child(c)[0] is RBracket),
{
}

/// The suffix parser reads a printed suffix back exactly.
proof fn la_tail(ts: Seq<TokV>, i: int, q: QueryV)
    requires
        0 <= i,
        i + pr_tail(q).len() <= ts.len(),
        ts.subrange(i, i + pr_tail(q).len() as int) == pr_tail(q),
        i + pr_tail(q).len() == ts.len() || !tail_start(ts[i + pr_tail(q).len()]),
    ensures
        sp_tail(ts, i) == Some(
            ((q.is_plus, q.is_star, q.is_optional, q.capture_name), pr_tail(q).len() as nat),
        ),
{
    let t = pr_tail(q);
    assert forall|m: int| 0 <= m < t.len() implies ts[i + m] == t[m] by {
        assert(ts.subrange(i, i + t.len() as int)[m] == t[m]);
    }
    let pl = if q.is_plus {
        seq![TokV::Plus]
    } else {
        Seq::<TokV>::empty()
    };
    let st = if q.is_star {
        seq![TokV::Star]
    } else {
        Seq::<TokV>::empty()
    };
    let op = if q.is_optional {
        seq![TokV::Question]
    } else {
        Seq::<TokV>::empty()
    };
    let cp = match q.capture_name {
        None => Seq::<TokV>::empty(),
        Some(nm) => seq![TokV::At, TokV::Ident(nm)],
    };
    assert(t == pl + st + op + cp);
    let a = pl.len() as int;
    let b = st.len() as int;
    let cdot = op.len() as int;
    assert(t.len() == a + b + cdot + cp.len());
    // the boundary token, if any, is not a suffix token
    assert(i + t.len() == ts.len() || !tail_start(ts[i + t.len()]));
    // position of each printed suffix token
    if q.is_plus {
        assert(ts[i + 0] == t[0]);
        assert(t[0] == TokV::Plus);
    }
    if q.is_star {
        assert(ts[i + a] == t[a]);
        assert(t[a] == TokV::Star);
    }
    if q.is_optional {
        assert(ts[i + (a + b)] == t[a + b]);
        assert(t[a + b] == TokV::Question);
    }
    match q.capture_name {
        None => {},
        Some(nm) => {
            assert(ts[i + (a + b + cdot)] == t[a + b + cdot]);
            assert(t[a + b + cdot] == TokV::At);
            assert(ts[i + (a + b + cdot + 1)] == t[a + b + cdot + 1]);
            assert(t[a + b + cdot + 1] == TokV::Ident(nm));
        },
    }
    // what stands right after each consumed prefix is never mistaken for
    // the next suffix token
    if !q.is_plus {
        if t.len() > 0 {
            assert(ts[i + 0] == t[0]);
            assert(!(t[0] is Plus));
        }
    }
    if !q.is_star {
        if a < t.len() {
            assert(ts[i + a] == t[a]);
            assert(!(t[a] is Star));
        }
    }
    if !q.is_optional {
        if a + b < t.len() {
            assert(ts[i + (a + b)] == t[a + b]);
            assert(!(t[a + b] is Question));
        }
    }
    if q.capture_name is None {
        assert(a + b + cdot == t.len());
    }
}

/// The pattern parser reads a printed pattern group back exactly.
#[verifier::rlimit(100)]
proof fn la_query(ts: Seq<TokV>, i: int, q: QueryV)
    requires
        0 <= i,
        i + pr_query(q).len() <= ts.len(),
        ts.subrange(i, i + pr_query(q).len() as int) == pr_query(q),
        i + pr_query(q).len() == ts.len() || !tail_start(ts[i + pr_query(q).len()]),
        wfp_query(q),
    ensures
        sp_query(ts, i) == Some((q, (pr_query(q).len() - 1) as nat)),
    decreases q, 2int, 0int,
{
    let p = pr_query(q);
    let kt = match q.node {
        None => TokV::Underscore,
        Some(kk) => TokV::Ident(kk),
    };
    let c = pr_children(q.children, 0);
    let t = pr_tail(q);
    assert(p =~= seq![TokV::LParen, kt] + c + seq![TokV::RParen] + t);
    assert forall|m: int| 0 <= m < p.len() implies ts[i + m] == p[m] by {
        assert(ts.subrange(i, i + p.len() as int)[m] == p[m]);
    }
    assert(ts[i + 0] == p[0]);
    assert(p[0] == TokV::LParen);
    assert(ts[i + 1] == p[1]);
    assert(p[1] == kt);
    let cl = c.len() as int;
    assert forall|m: int| 0 <= m < cl implies ts[i + 2 + m] == c[m] by {
        assert(ts[i + (2 + m)] == p[2 + m]);
    }
    assert(ts.subrange(i + 2, i + 2 + cl) =~= c);
    assert(ts[i + 2 + cl] == TokV::RParen) by {
        assert(ts[i + (2 + cl)] == p[2 + cl]);
    }
    la_children(ts, i + 2, q.children, 0);
    assert(sp_children(ts, i + 2) == (q.children, cl as nat));
    assert(sp_content(ts, i + 1) == Some((q.node, q.children, (1 + cl) as nat)));
    assert(sp_skip(ts, i + 2 + cl, true) == Some(0nat));
    let k = i + 2 + cl + 1;
    assert forall|m: int| 0 <= m < t.len() implies ts[k + m] == t[m] by {
        assert(ts[i + (3 + cl + m)] == p[3 + cl + m]);
    }
    assert(ts.subrange(k, k + t.len() as int) =~= t);
    la_tail(ts, k, q);
    assert(sp_query(ts, i) == Some(
        (
            QueryV {
                node: q.node,
                children: q.children,
                capture_name: q.capture_name,
                is_optional: q.is_optional,
                is_star: q.is_star,
                is_plus: q.is_plus,
            },
            (1 + cl + 0 + 1 + t.len()) as nat,
        ),
    ));
    assert(QueryV {
        node: q.node,
        children: q.children,
        capture_name: q.capture_name,
        is_optional: q.is_optional,
        is_star: q.is_star,
        is_plus: q.is_plus,
    } == q);
}

/// The child-list parser reads printed child constraints back exactly,
/// stopping at the closing parenthesis.
#[verifier::rlimit(100)]
proof fn la_children(ts: Seq<TokV>, i: int, cs: Seq<SubQueryV>, n: int)
    requires
        0 <= i,
        0 <= n <= cs.len(),
        i + pr_children(cs, n).len() < ts.len(),
        ts.subrange(i, i + pr_children(cs, n).len() as int) == pr_children(cs, n),
        ts[i + pr_children(cs, n).len()] is RParen,
        wfp_children(cs, n),
    ensures
        sp_children(ts, i) == (cs.subrange(n, cs.len() as int), pr_children(cs, n).len() as nat),
    decreases cs, 1int, cs.len() - n,
{
    let p = pr_children(cs, n);
    assert forall|m: int| 0 <= m < p.len() implies ts[i + m] == p[m] by {
        assert(ts.subrange(i, i + p.len() as int)[m] == p[m]);
    }
    if n >= cs.len() {
        assert(p.len() == 0);
        assert(ts[i] is RParen);
        assert(sp_field(ts, i) == Some((None::<FieldV>, 0nat)));
        assert(sp_child(ts, i) is None);
        assert(cs.subrange(n, cs.len() as int) =~= Seq::<SubQueryV>::empty());
    } else {
        let a = pr_child(cs[n]);
        let b = pr_children(cs, n + 1);
        assert(p == a + b);
        let al = a.len() as int;
        assert(ts.subrange(i, i + al) =~= a) by {
            assert forall|m: int| 0 <= m < al implies ts.subrange(i, i + al)[m] == a[m] by {
                assert(ts[i + m] == p[m]);
            }
        }
        assert(ts.subrange(i + al, i + al + b.len() as int) =~= b) by {
            assert forall|m: int| 0 <= m < b.len() implies ts.subrange(
                i + al,
                i + al + b.len() as int,
            )[m] == b[m] by {
                assert(ts[i + (al + m)] == p[al + m]);
            }
        }
        if n + 1 < cs.len() {
            lemma_pr_child_first(cs[n + 1]);
            assert(ts[i + al] == b[0]);
            assert(b[0] == pr_child(cs[n + 1])[0]);
        } else {
            assert(b.len() == 0);
            assert(ts[i + al] is RParen) by {
                assert(ts[i + p.len()] is RParen);
            }
        }
        la_child(ts, i, cs[n]);
        la_children(ts, i + al, cs, n + 1);
        assert(sp_children(ts, i + al) == (cs.subrange(n + 1, cs.len() as int), b.len() as nat));
        assert(seq![cs[n]] + cs.subrange(n + 1, cs.len() as int) =~= cs.subrange(
            n,
            cs.len() as int,
        ));
    }
}

/// The field parser reads a printed field selector back exactly, given
/// that a group opener follows it.
proof fn field_tokens(ts: Seq<TokV>, i: int, c: SubQueryV)
    requires
        0 <= i,
        i + pr_field(c.field).len() < ts.len(),
        ts.subrange(i, i + pr_field(c.field).len() as int) == pr_field(c.field),
        ts[i + pr_field(c.field).len()] is LBracket || ts[i + pr_field(c.field).len()] is LParen,
    ensures
        sp_field(ts, i) == Some((c.field, pr_field(c.field).len() as nat)),
{
    let f = pr_field(c.field);
    match c.field {
        None => {
            assert(f.len() == 0);
        },
        Some(FieldV::Named(nm)) => {
            assert(ts.subrange(i, i + 2)[0] == f[0]);
            assert(ts.subrange(i, i + 2)[1] == f[1]);
            assert(ts[i] == TokV::Ident(nm));
            assert(ts[i + 1] == TokV::Colon);
        },
        Some(FieldV::Index(v)) => {
            assert(ts.subrange(i, i + 2)[0] == f[0]);
            assert(ts.subrange(i, i + 2)[1] == f[1]);
            assert(ts[i] == TokV::Int(v));
            assert(ts[i + 1] == TokV::Colon);
        },
    }
}

/// The child parser reads one printed child constraint back exactly.
#[verifier::rlimit(100)]
proof fn la_child(ts: Seq<TokV>, i: int, c: SubQueryV)
    requires
        0 <= i,
        i + pr_child(c).len() <= ts.len(),
        ts.subrange(i, i + pr_child(c).len() as int) == pr_child(c),
        i + pr_child(c).len() == ts.len() || (!tail_start(ts[i + pr_child(c).len()])),
        wfp_child(c),
    ensures
        sp_child(ts, i) == Some((c, (pr_child(c).len() - 1) as nat)),
    decreases c, 4int, 0int,
{
    match c.logic {
        Logical::Alternative => la_child_alt(ts, i, c),
        Logical::Sequence => la_child_seq(ts, i, c),
        Logical::Single => la_child_single(ts, i, c),
    }
}

/// `la_child`, for a alternative constraint.
#[verifier::rlimit(100)]
proof fn la_child_alt(ts: Seq<TokV>, i: int, c: SubQueryV)
    requires
        0 <= i,
        i + pr_child(c).len() <= ts.len(),
        ts.subrange(i, i + pr_child(c).len() as int) == pr_child(c),
        i + pr_child(c).len() == ts.len() || (!tail_start(ts[i + pr_child(c).len()])),
        wfp_child(c),
        c.logic is Alternative,
    ensures
        sp_child(ts, i) == Some((c, (pr_child(c).len() - 1) as nat)),
    decreases c, 3int, 0int,
{
    let p = pr_child(c);
    let f = pr_field(c.field);
    let fl = f.len() as int;
    assert forall|m: int| 0 <= m < p.len() implies ts[i + m] == p[m] by {
        assert(ts.subrange(i, i + p.len() as int)[m] == p[m]);
    }
    let j = i + fl;


            let qs = pr_queries(c.queries, 0);
            let ql = qs.len() as int;
            assert(p =~= f + (seq![TokV::LBracket] + qs + seq![TokV::RBracket]));
            assert(ts[j] == TokV::LBracket) by {
                assert(ts[i + fl] == p[fl]);
            }
            assert(ts.subrange(i, i + fl) =~= f) by {
                assert forall|m: int| 0 <= m < fl implies ts.subrange(i, i + fl)[m] == f[m] by {
                    assert(ts[i + m] == p[m]);
                }
            }
            field_tokens(ts, i, c);
            assert forall|m: int| 0 <= m < ql implies ts[j + 1 + m] == qs[m] by {
                assert(ts[i + (fl + 1 + m)] == p[fl + 1 + m]);
            }
            assert(ts.subrange(j + 1, j + 1 + ql) =~= qs);
            assert(ts[j + 1 + ql] is RBracket) by {
                assert(ts[i + (fl + 1 + ql)] == p[fl + 1 + ql]);
            }
            la_queries(ts, j + 1, c.queries, 0);
            assert(sp_queries(ts, j + 1) == (c.queries, ql as nat));
            assert(sp_skip(ts, j + 1 + ql, false) == Some(0nat));
            assert(SubQueryV { field: c.field, logic: Logical::Alternative, queries: c.queries }
                == c);
}

/// `la_child`, for a sequence constraint.
#[verifier::rlimit(100)]
proof fn la_child_seq(ts: Seq<TokV>, i: int, c: SubQueryV)
    requires
        0 <= i,
        i + pr_child(c).len() <= ts.len(),
        ts.subrange(i, i + pr_child(c).len() as int) == pr_child(c),
        i + pr_child(c).len() == ts.len() || (!tail_start(ts[i + pr_child(c).len()])),
        wfp_child(c),
        c.logic is Sequence,
    ensures
        sp_child(ts, i) == Some((c, (pr_child(c).len() - 1) as nat)),
    decreases c, 3int, 0int,
{
    let p = pr_child(c);
    let f = pr_field(c.field);
    let fl = f.len() as int;
    assert forall|m: int| 0 <= m < p.len() implies ts[i + m] == p[m] by {
        assert(ts.subrange(i, i + p.len() as int)[m] == p[m]);
    }
    let j = i + fl;


            let qs = pr_queries(c.queries, 0);
            let ql = qs.len() as int;
            assert(p =~= f + (seq![TokV::LParen, TokV::LParen] + qs + seq![
                TokV::RParen,
                TokV::RParen,
            ]));
            assert(ts[j] == TokV::LParen) by {
                assert(ts[i + fl] == p[fl]);
            }
            assert(ts.subrange(i, i + fl) =~= f) by {
                assert forall|m: int| 0 <= m < fl implies ts.subrange(i, i + fl)[m] == f[m] by {
                    assert(ts[i + m] == p[m]);
                }
            }
            field_tokens(ts, i, c);
            assert(ts[j + 1] == TokV::LParen) by {
                assert(ts[i + (fl + 1)] == p[fl + 1]);
            }
            assert forall|m: int| 0 <= m < ql implies ts[j + 2 + m] == qs[m] by {
                assert(ts[i + (fl + 2 + m)] == p[fl + 2 + m]);
            }
            assert(ts.subrange(j + 2, j + 2 + ql) =~= qs);
            assert(ts[j + 2 + ql] is RParen) by {
                assert(ts[i + (fl + 2 + ql)] == p[fl + 2 + ql]);
            }
            assert(ts[j + 3 + ql] is RParen) by {
                assert(ts[i + (fl + 3 + ql)] == p[fl + 3 + ql]);
            }
            la_queries(ts, j + 2, c.queries, 0);
            assert(sp_queries(ts, j + 2) == (c.queries, ql as nat));
            assert(sp_skip(ts, j + 2 + ql, true) == Some(0nat));
            assert(sp_skip(ts, j + 3 + ql, true) == Some(0nat));
            assert(SubQueryV { field: c.field, logic: Logical::Sequence, queries: c.queries }
                == c);
}

/// `la_child`, for a single constraint.
#[verifier::rlimit(100)]
proof fn la_child_single(ts: Seq<TokV>, i: int, c: SubQueryV)
    requires
        0 <= i,
        i + pr_child(c).len() <= ts.len(),
        ts.subrange(i, i + pr_child(c).len() as int) == pr_child(c),
        i + pr_child(c).len() == ts.len() || (!tail_start(ts[i + pr_child(c).len()])),
        wfp_child(c),
        c.logic is Single,
    ensures
        sp_child(ts, i) == Some((c, (pr_child(c).len() - 1) as nat)),
    decreases c, 3int, 0int,
{
    let p = pr_child(c);
    let f = pr_field(c.field);
    let fl = f.len() as int;
    assert forall|m: int| 0 <= m < p.len() implies ts[i + m] == p[m] by {
        assert(ts.subrange(i, i + p.len() as int)[m] == p[m]);
    }
    let j = i + fl;


            assert(c.queries.len() == 1);
            let q0 = c.queries[0];
            let pq = pr_query(q0);
            assert(p =~= f + pq);
            assert(pq[0] is LParen);
            assert(ts[i + fl] == p[fl]);
            assert(p[fl] == pq[0]);
            assert(ts.subrange(i, i + fl) =~= f) by {
                assert forall|m: int| 0 <= m < fl implies ts.subrange(i, i + fl)[m] == f[m] by {
                    assert(ts[i + m] == p[m]);
                }
            }
            field_tokens(ts, i, c);
            assert(wfp_queries(c.queries, 0));
            assert(wfp_query(q0));
            let kt = match q0.node {
                None => TokV::Underscore,
                Some(kk) => TokV::Ident(kk),
            };
            let cc = pr_children(q0.children, 0);
            let cl = cc.len() as int;
            let t = pr_tail(q0);
            assert(pq =~= seq![TokV::LParen, kt] + cc + seq![TokV::RParen] + t);
            assert forall|m: int| 0 <= m < pq.len() implies ts[j + m] == pq[m] by {
                assert(ts[i + (fl + m)] == p[fl + m]);
            }
            assert(ts[j + 0] == pq[0]);
            assert(ts[j] == TokV::LParen);
            assert(ts[j + 1] == pq[1]);
            assert(pq[1] == kt);
            assert(ts[j + 1] == kt);
            assert(!(ts[j + 1] is LParen));
            assert forall|m: int| 0 <= m < cl implies ts[j + 2 + m] == cc[m] by {
                assert(ts[j + (2 + m)] == pq[2 + m]);
            }
            assert(ts.subrange(j + 2, j + 2 + cl) =~= cc);
            assert(ts[j + 2 + cl] == TokV::RParen) by {
                assert(ts[j + (2 + cl)] == pq[2 + cl]);
            }
            la_children(ts, j + 2, q0.children, 0);
            assert(sp_children(ts, j + 2) == (q0.children, cl as nat));
            assert(sp_content(ts, j + 1) == Some((q0.node, q0.children, (1 + cl) as nat)));
            assert(sp_skip(ts, j + 2 + cl, true) == Some(0nat));
            let k = j + 2 + cl + 1;
            assert forall|m: int| 0 <= m < t.len() implies ts[k + m] == t[m] by {
                assert(ts[j + (3 + cl + m)] == pq[3 + cl + m]);
            }
            assert(ts.subrange(k, k + t.len() as int) =~= t);
            la_tail(ts, k, q0);
            assert(QueryV {
                node: q0.node,
                children: q0.children,
                capture_name: q0.capture_name,
                is_optional: q0.is_optional,
                is_star: q0.is_star,
                is_plus: q0.is_plus,
            } == q0);
            assert(seq![q0] =~= c.queries);
            assert(SubQueryV { field: c.field, logic: Logical::Single, queries: seq![q0] } == c);
}

/// The pattern-list parser reads printed patterns back exactly, stopping at
/// the closing delimiter.
#[verifier::rlimit(100)]
proof fn la_queries(ts: Seq<TokV>, i: int, qs: Seq<QueryV>, n: int)
    requires
        0 <= i,
        0 <= n <= qs.len(),
        i + pr_queries(qs, n).len() < ts.len(),
        ts.subrange(i, i + pr_queries(qs, n).len() as int) == pr_queries(qs, n),
        ts[i + pr_queries(qs, n).len()] is RParen || ts[i + pr_queries(qs, n).len()] is RBracket,
        wfp_queries(qs, n),
    ensures
        sp_queries(ts, i) == (qs.subrange(n, qs.len() as int), pr_queries(qs, n).len() as nat),
    decreases qs, 3int, qs.len() - n,
{
    let p = pr_queries(qs, n);
    assert forall|m: int| 0 <= m < p.len() implies ts[i + m] == p[m] by {
        assert(ts.subrange(i, i + p.len() as int)[m] == p[m]);
    }
    if n >= qs.len() {
        assert(p.len() == 0);
        assert(!(ts[i] is LParen));
        assert(sp_query(ts, i) is None);
        assert(qs.subrange(n, qs.len() as int) =~= Seq::<QueryV>::empty());
    } else {
        let a = pr_query(qs[n]);
        let b = pr_queries(qs, n + 1);
        assert(p == a + b);
        let al = a.len() as int;
        assert(ts.subrange(i, i + al) =~= a) by {
            assert forall|m: int| 0 <= m < al implies ts.subrange(i, i + al)[m] == a[m] by {
                assert(ts[i + m] == p[m]);
            }
        }
        assert(ts.subrange(i + al, i + al + b.len() as int) =~= b) by {
            assert forall|m: int| 0 <= m < b.len() implies ts.subrange(
                i + al,
                i + al + b.len() as int,
            )[m] == b[m] by {
                assert(ts[i + (al + m)] == p[al + m]);
            }
        }
        if n + 1 < qs.len() {
            assert(ts[i + al] == b[0]);
            assert(b[0] == pr_query(qs[n + 1])[0]);
            assert(pr_query(qs[n + 1])[0] is LParen);
        } else {
            assert(b.len() == 0);
            assert(ts[i + al] is RParen || ts[i + al] is RBracket) by {
                assert(i + al == i + p.len());
            }
        }
        la_query(ts, i, qs[n]);
        la_queries(ts, i + al, qs, n + 1);
        assert(sp_queries(ts, i + al) == (qs.subrange(n + 1, qs.len() as int), b.len() as nat));
        assert(seq![qs[n]] + qs.subrange(n + 1, qs.len() as int) =~= qs.subrange(
            n,
            qs.len() as int,
        ));
    }
}

/// Every token the lexer produces is well formed.
proof fn lemma_lex_wf(s: Seq<u8>, i: int)
    requires
        0 <= i,
    ensures
        match spec_lex(s, i) {
            Some(ts) => toks_wf(ts),
            None => true,
        },
    decreases s.len() - i,
{
    if i < s.len() {
        let b = s[i];
        lemma_lex_wf(s, i + 1);
        if is_ws(b) {
        } else if b == 40 || b == 41 || b == 91 || b == 93 || b == 58 || b == 64 || b == 43 || b
            == 42 || b == 63 {
            match spec_lex(s, i + 1) {
                None => {},
                Some(rest) => {
                    assert forall|k: int|
                        0 <= k < (spec_lex(s, i).unwrap()).len() implies tok_wf(
                        #[trigger] (spec_lex(s, i).unwrap())[k],
                    ) by {
                        if k > 0 {
                            assert(tok_wf(rest[k - 1]));
                        }
                    }
                },
            }
        } else if is_digit(b) {
            let rl = digit_run_len(s, i + 1);
            let n = 1 + rl;
            let v = digits_val(s, i, n as int);
            if v <= usize::MAX as int {
                crate::lexer::lemma_digit_run_le(s, i + 1);
                crate::lexer::lemma_digit_run_digits(s, i + 1);
                assert forall|k: int| i <= k < i + n implies 0 <= #[trigger] s[k] - 48 by {
                    if k > i {
                        assert(is_digit(s[k]));
                    }
                }
                crate::lexer::lemma_digits_val_mono(s, i, 0, n as int);
                assert(v >= 0);
                lemma_lex_wf(s, i + 1 + rl);
                match spec_lex(s, i + 1 + rl) {
                    None => {},
                    Some(rest) => {
                        assert(tok_wf(TokV::Int(v)));
                        assert forall|k: int|
                            0 <= k < (spec_lex(s, i).unwrap()).len() implies tok_wf(
                            #[trigger] (spec_lex(s, i).unwrap())[k],
                        ) by {
                            if k > 0 {
                                assert(tok_wf(rest[k - 1]));
                            }
                        }
                    },
                }
            }
        } else if is_ident_start(b) {
            let rl = ident_run_len(s, i + 1);
            let n = 1 + rl;
            crate::lexer::lemma_ident_run_le(s, i + 1);
            crate::lexer::lemma_ident_run_chars(s, i + 1);
            let w = s.subrange(i, i + n as int);
            let t = if b == 95 && rl == 0 {
                TokV::Underscore
            } else {
                TokV::Ident(w)
            };
            assert(tok_wf(t)) by {
                if !(b == 95 && rl == 0) {
                    assert(w[0] == s[i]);
                    assert forall|k: int| 0 <= k < w.len() implies is_ident_char(
                        #[trigger] w[k],
                    ) by {
                        assert(w[k] == s[i + k]);
                        if k > 0 {
                            assert(is_ident_char(s[i + k]));
                        }
                    }
                    if w.len() == 1 && w[0] == 95 {
                        assert(b == 95 && rl == 0);
                    }
                }
            }
            lemma_lex_wf(s, i + 1 + rl);
            match spec_lex(s, i + 1 + rl) {
                None => {},
                Some(rest) => {
                    assert forall|k: int|
                        0 <= k < (spec_lex(s, i).unwrap()).len() implies tok_wf(
                        #[trigger] (spec_lex(s, i).unwrap())[k],
                    ) by {
                        if k > 0 {
                            assert(tok_wf(rest[k - 1]));
                        }
                    }
                },
            }
        }
    } else {
        assert(toks_wf(Seq::<TokV>::empty()));
    }
}

/// The capture name the suffix parser reads is a well-formed identifier.
proof fn wf_tail(ts: Seq<TokV>, i: int)
    requires
        toks_wf(ts),
    ensures
        match sp_tail(ts, i) {
            Some((r, c)) => match r.3 {
                Some(nm) => valid_ident(nm),
                None => true,
            },
            None => true,
        },
{
}

/// What the parser builds is well formed, given well-formed tokens.
proof fn wf_query(ts: Seq<TokV>, i: int)
    requires
        toks_wf(ts),
    ensures
        match sp_query(ts, i) {
            Some((q, e)) => wfp_query(q),
            None => true,
        },
    decreases ts.len() - i, 0int,
{
    if 0 <= i < ts.len() && ts[i] is LParen {
        wf_content(ts, i + 1);
        match sp_content(ts, i + 1) {
            None => {},
            Some((kind, subs, cc)) => {
                let j = i + 1 + cc;
                if j <= ts.len() {
                    match sp_skip(ts, j, true) {
                        None => {},
                        Some(sk) => {
                            let k = j + sk + 1;
                            if k <= ts.len() {
                                wf_tail(ts, k);
                            }
                        },
                    }
                }
            },
        }
    }
}

/// Kind and children of a parsed group content are well formed.
proof fn wf_content(ts: Seq<TokV>, i: int)
    requires
        toks_wf(ts),
    ensures
        match sp_content(ts, i) {
            Some((kind, subs, cc)) => (match kind {
                Some(nm) => valid_ident(nm),
                None => true,
            }) && wfp_children(subs, 0),
            None => true,
        },
    decreases ts.len() - i, 0int,
{
    if 0 <= i < ts.len() {
        match ts[i] {
            TokV::Underscore => {
                wf_children(ts, i + 1);
            },
            TokV::Ident(nm) => {
                assert(tok_wf(ts[i]));
                wf_children(ts, i + 1);
            },
            _ => {},
        }
    }
}

/// All parsed child constraints are well formed.
proof fn wf_children(ts: Seq<TokV>, i: int)
    requires
        toks_wf(ts),
    ensures
        wfp_children(sp_children(ts, i).0, 0),
    decreases ts.len() - i, 1int,
{
    match sp_child(ts, i) {
        None => {
            assert(wfp_children(Seq::<SubQueryV>::empty(), 0));
        },
        Some((c, ex)) => {
            wf_child(ts, i);
            if i + 1 + ex > ts.len() {
                assert(wfp_children(seq![c], 0)) by {
                    assert(seq![c][0] == c);
                    assert(wfp_children(seq![c], 1));
                }
            } else {
                wf_children(ts, i + 1 + ex);
                let (rest, rc) = sp_children(ts, i + 1 + ex);
                lemma_wfp_children_cons(c, rest);
            }
        },
    }
}

/// Prepending a well-formed constraint keeps the list well formed.
proof fn lemma_wfp_children_cons(c: SubQueryV, rest: Seq<SubQueryV>)
    requires
        wfp_child(c),
        wfp_children(rest, 0),
    ensures
        wfp_children(seq![c] + rest, 0),
{
    lemma_wfp_children_shift_from(seq![c] + rest, rest, 0);
    assert((seq![c] + rest)[0] == c);
}

proof fn lemma_wfp_children_shift_from(all: Seq<SubQueryV>, rest: Seq<SubQueryV>, n: int)
    requires
        0 <= n <= rest.len(),
        all.len() == rest.len() + 1,
        forall|k: int| 0 <= k < rest.len() ==> all[k + 1] == #[trigger] rest[k],
        wfp_children(rest, n),
    ensures
        wfp_children(all, n + 1),
    decreases rest.len() - n,
{
    if n < rest.len() {
        assert(all[n + 1] == rest[n]);
        lemma_wfp_children_shift_from(all, rest, n + 1);
    }
}

/// A parsed child constraint is well formed.
proof fn wf_child(ts: Seq<TokV>, i: int)
    requires
        toks_wf(ts),
    ensures
        match sp_child(ts, i) {
            Some((c, ex)) => wfp_child(c),
            None => true,
        },
    decreases ts.len() - i, 0int,
{
    if 0 <= i < ts.len() {
        match sp_field(ts, i) {
            None => {},
            Some((f, flen)) => {
                assert(match f {
                    Some(FieldV::Named(nm)) => valid_ident(nm),
                    Some(FieldV::Index(v)) => 0 <= v <= usize::MAX as int,
                    None => true,
                }) by {
                    if flen == 2 {
                        assert(tok_wf(ts[i]));
                    }
                }
                let j = i + flen;
                if j < ts.len() {
                    if ts[j] is LBracket {
                        wf_queries(ts, j + 1);
                    } else if ts[j] is LParen {
                        if j + 1 < ts.len() && ts[j + 1] is LParen {
                            wf_queries(ts, j + 2);
                        } else {
                            wf_content(ts, j + 1);
                            match sp_content(ts, j + 1) {
                                None => {},
                                Some((kind, subs, cc)) => {
                                    let m = j + 1 + cc;
                                    if m <= ts.len() {
                                        match sp_skip(ts, m, true) {
                                            None => {},
                                            Some(sk) => {
                                                let k = m + sk + 1;
                                                if k <= ts.len() {
                                                    wf_tail(ts, k);
                                                    match sp_tail(ts, k) {
                                                        None => {},
                                                        Some((r, tc)) => {
                                                            let q0 = QueryV {
                                                                node: kind,
                                                                children: subs,
                                                                capture_name: r.3,
                                                                is_optional: r.2,
                                                                is_star: r.1,
                                                                is_plus: r.0,
                                                            };
                                                            assert(wfp_query(q0));
                                                            assert(wfp_queries(seq![q0], 0)) by {
                                                                assert(seq![q0][0] == q0);
                                                                assert(wfp_queries(seq![q0], 1));
                                                            }
                                                        },
                                                    }
                                                }
                                            },
                                        }
                                    }
                                },
                            }
                        }
                    }
                }
            },
        }
    }
}

/// All parsed patterns in a list are well formed.
proof fn wf_queries(ts: Seq<TokV>, i: int)
    requires
        toks_wf(ts),
    ensures
        wfp_queries(sp_queries(ts, i).0, 0),
    decreases ts.len() - i, 1int,
{
    match sp_query(ts, i) {
        None => {
            assert(wfp_queries(Seq::<QueryV>::empty(), 0));
        },
        Some((q, ex)) => {
            wf_query(ts, i);
            if i + 1 + ex > ts.len() {
                assert(wfp_queries(seq![q], 0)) by {
                    assert(seq![q][0] == q);
                    assert(wfp_queries(seq![q], 1));
                }
            } else {
                wf_queries(ts, i + 1 + ex);
                let (rest, rc) = sp_queries(ts, i + 1 + ex);
                lemma_wfp_queries_cons(q, rest);
            }
        },
    }
}

/// Prepending a well-formed pattern keeps the list well formed.
proof fn lemma_wfp_queries_cons(q: QueryV, rest: Seq<QueryV>)
    requires
        wfp_query(q),
        wfp_queries(rest, 0),
    ensures
        wfp_queries(seq![q] + rest, 0),
{
    lemma_wfp_queries_shift_from(seq![q] + rest, rest, 0);
    assert((seq![q] + rest)[0] == q);
}

proof fn lemma_wfp_queries_shift_from(all: Seq<QueryV>, rest: Seq<QueryV>, n: int)
    requires
        0 <= n <= rest.len(),
        all.len() == rest.len() + 1,
        forall|k: int| 0 <= k < rest.len() ==> all[k + 1] == #[trigger] rest[k],
        wfp_queries(rest, n),
    ensures
        wfp_queries(all, n + 1),
    decreases rest.len() - n,
{
    if n < rest.len() {
        assert(all[n + 1] == rest[n]);
        lemma_wfp_queries_shift_from(all, rest, n + 1);
    }
}

/// What `Query::parse` accepts is well formed.
pub proof fn lemma_parse_wf(s: Seq<u8>)
    ensures
        sp_parse(s) matches Some(q) ==> wfp_query(q),
{
    if sp_parse(s) is Some {
        let ts = spec_lex(s, 0).unwrap();
        lemma_lex_wf(s, 0);
        wf_query(ts, 0);
    }
}

/// Printing a well-formed pattern and parsing it back gives the pattern.
pub proof fn lemma_print_parse(q: QueryV)
    requires
        wfp_query(q),
    ensures
        sp_parse(print_of(q)) == Some(q),
{
    let ts = pr_query(q);
    lemma_pr_query_wf(q);
    let s = crate::printer::render_from(ts, 0);
    assert(s.subrange(0, s.len() as int) =~= s);
    lemma_lex_render(s, 0, ts, 0);
    assert(ts.subrange(0, ts.len() as int) =~= ts);
    la_query(ts, 0, q);
    assert(pr_query(q).len() >= 1);
}

/// Parsing is idempotent on its own pretty-printed output: whenever `s`
/// parses to a pattern, printing that pattern and parsing the result gives
/// the same pattern back, so `parse(print(parse(s))) == parse(s)`.
pub proof fn lemma_parse_print_parse(s: Seq<u8>)
    ensures
        sp_parse(s) matches Some(q) ==> sp_parse(print_of(q)) == Some(q),
{
    if sp_parse(s) is Some {
        let q = match sp_parse(s) {
            Some(q) => q,
            None => arbitrary(),
        };
        lemma_parse_wf(s);
        lemma_print_parse(q);
    }
}

} // verus!
