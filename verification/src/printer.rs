//! The pretty-printer: a `Query` tree back to pattern text, one canonical
//! token spelling, tokens separated by single spaces.

use vstd::prelude::*;

use crate::ast::FieldV;
use crate::ast::Field;
use crate::ast::Logical;
use crate::ast::Query;
use crate::ast::QueryV;
use crate::ast::SubQuery;
use crate::ast::SubQueryV;
use crate::ast::lemma_view_queries;
use crate::ast::lemma_view_subqueries;
use crate::lexer::Tok;
use crate::lexer::TokV;
use crate::lexer::toks_view;
use crate::parser::copy_bytes;

verus! {

/// Tokens of the field selector prefix.
pub open spec fn pr_field(f: Option<FieldV>) -> Seq<TokV> {
    match f {
        None => Seq::empty(),
        Some(FieldV::Named(nm)) => seq![TokV::Ident(nm), TokV::Colon],
        Some(FieldV::Index(ix)) => seq![TokV::Int(ix), TokV::Colon],
    }
}

/// Tokens of the quantifier/capture suffix.
pub open spec fn pr_tail(q: QueryV) -> Seq<TokV> {
    (if q.is_plus {
        seq![TokV::Plus]
    } else {
        Seq::empty()
    }) + (if q.is_star {
        seq![TokV::Star]
    } else {
        Seq::empty()
    }) + (if q.is_optional {
        seq![TokV::Question]
    } else {
        Seq::empty()
    }) + (match q.capture_name {
        None => Seq::empty(),
        Some(nm) => seq![TokV::At, TokV::Ident(nm)],
    })
}

/// Tokens of one pattern group with its suffix.
pub open spec fn pr_query(q: QueryV) -> Seq<TokV>
    decreases q, 2int, 0int,
{
    seq![TokV::LParen] + (match q.node {
        None => seq![TokV::Underscore],
        Some(k) => seq![TokV::Ident(k)],
    }) + pr_children(q.children, 0) + seq![TokV::RParen] + pr_tail(q)
}

/// Tokens of the child constraints from index `i` on.
pub open spec fn pr_children(cs: Seq<SubQueryV>, i: int) -> Seq<TokV>
    decreases cs, 1int, cs.len() - i,
{
    if i < 0 || i >= cs.len() {
        Seq::empty()
    } else {
        pr_child(cs[i]) + pr_children(cs, i + 1)
    }
}

/// Tokens of one child constraint.
pub open spec fn pr_child(c: SubQueryV) -> Seq<TokV>
    decreases c, 4int, 0int,
{
    pr_field(c.field) + (match c.logic {
        Logical::Alternative => seq![TokV::LBracket] + pr_queries(c.queries, 0)
            + seq![TokV::RBracket],
        Logical::Sequence => seq![TokV::LParen, TokV::LParen] + pr_queries(c.queries, 0)
            + seq![TokV::RParen, TokV::RParen],
        Logical::Single => if c.queries.len() > 0 {
            pr_query(c.queries[0])
        } else {
            seq![TokV::LParen, TokV::Underscore, TokV::RParen]
        },
    })
}

/// Tokens of the patterns from index `i` on.
pub open spec fn pr_queries(qs: Seq<QueryV>, i: int) -> Seq<TokV>
    decreases qs, 3int, qs.len() - i,
{
    if i < 0 || i >= qs.len() {
        Seq::empty()
    } else {
        pr_query(qs[i]) + pr_queries(qs, i + 1)
    }
}

/// Decimal digits of `n`, most significant first.
pub open spec fn dec_digits(n: int) -> Seq<u8>
    decreases n,
{
    if n < 10 {
        seq![(48 + n) as u8]
    } else {
        dec_digits(n / 10) + seq![(48 + n % 10) as u8]
    }
}

/// The byte spelling of one token.
pub open spec fn render_tok(t: TokV) -> Seq<u8> {
    match t {
        TokV::LParen => seq![40u8],
        TokV::RParen => seq![41u8],
        TokV::LBracket => seq![91u8],
        TokV::RBracket => seq![93u8],
        TokV::Colon => seq![58u8],
        TokV::At => seq![64u8],
        TokV::Plus => seq![43u8],
        TokV::Star => seq![42u8],
        TokV::Question => seq![63u8],
        TokV::Underscore => seq![95u8],
        TokV::Ident(w) => w,
        TokV::Int(v) => dec_digits(v),
    }
}

/// The byte spelling of the tokens from index `i` on, each followed by one
/// space.
pub open spec fn render_from(ts: Seq<TokV>, i: int) -> Seq<u8>
    decreases ts.len() - i,
{
    if i < 0 || i >= ts.len() {
        Seq::empty()
    } else {
        render_tok(ts[i]) + seq![32u8] + render_from(ts, i + 1)
    }
}

/// What `Query::print` produces: the canonical spelling of a pattern.
pub open spec fn print_of(q: QueryV) -> Seq<u8> {
    render_from(pr_query(q), 0)
}

/// Mirrors `pr_field` and `pr_tail` pushes: append one token.
fn push_tok(out: &mut Vec<Tok>, t: Tok)
    ensures
        toks_view(final(out)@) == toks_view(old(out)@) + seq![t@],
{
    let ghost tv = t@;
    out.push(t);
    proof {
        assert(toks_view(out@) =~= toks_view(old(out)@) + seq![tv]);
    }
}

/// Mirrors `pr_query`.
fn print_query_toks(q: &Query, out: &mut Vec<Tok>)
    ensures
        toks_view(final(out)@) == toks_view(old(out)@) + pr_query(q@),
    decreases q, 2int, 0int,
{
    push_tok(out, Tok::LParen);
    match &q.node {
        None => push_tok(out, Tok::Underscore),
        Some(k) => push_tok(out, Tok::Ident(copy_bytes(k))),
    };
    print_children_toks(q, 0, out);
    push_tok(out, Tok::RParen);
    print_tail_toks(q, out);
    proof {
        assert(toks_view(out@) =~= toks_view(old(out)@) + pr_query(q@));
    }
}

/// Mirrors `pr_tail`.
fn print_tail_toks(q: &Query, out: &mut Vec<Tok>)
    ensures
        toks_view(final(out)@) == toks_view(old(out)@) + pr_tail(q@),
{
    if q.is_plus {
        push_tok(out, Tok::Plus);
    }
    if q.is_star {
        push_tok(out, Tok::Star);
    }
    if q.is_optional {
        push_tok(out, Tok::Question);
    }
    match &q.capture_name {
        None => (),
        Some(nm) => {
            push_tok(out, Tok::At);
            push_tok(out, Tok::Ident(copy_bytes(nm)));
        },
    };
    proof {
        assert(toks_view(out@) =~= toks_view(old(out)@) + pr_tail(q@));
    }
}

/// Mirrors `pr_children`.
fn print_children_toks(q: &Query, i: usize, out: &mut Vec<Tok>)
    requires
        i <= q.children@.len(),
    ensures
        toks_view(final(out)@) == toks_view(old(out)@) + pr_children(q@.children, i as int),
    decreases q, 1int, q.children@.len() - i,
{
    proof {
        lemma_view_subqueries(q.children, 0);
    }
    if i >= q.children.len() {
        proof {
            assert(toks_view(out@) =~= toks_view(out@) + Seq::<TokV>::empty());
        }
        return ;
    }
    proof {
        vstd::std_specs::vec::axiom_vec_index_decreases(q.children, i as int);
    }
    print_child_toks(&q.children[i], out);
    print_children_toks(q, i + 1, out);
    proof {
        assert(toks_view(out@) =~= toks_view(old(out)@) + (pr_child(q@.children[i as int])
            + pr_children(q@.children, i + 1 as int)));
    }
}

/// Mirrors `pr_child`.
fn print_child_toks(c: &SubQuery, out: &mut Vec<Tok>)
    ensures
        toks_view(final(out)@) == toks_view(old(out)@) + pr_child(c@),
    decreases c, 4int, 0int,
{
    proof {
        lemma_view_queries(c.queries, 0);
    }
    match &c.field {
        None => (),
        Some(Field::Named(nm)) => {
            push_tok(out, Tok::Ident(copy_bytes(nm)));
            push_tok(out, Tok::Colon);
        },
        Some(Field::Index(ix)) => {
            push_tok(out, Tok::Int(*ix));
            push_tok(out, Tok::Colon);
        },
    };
    match c.logic {
        Logical::Alternative => {
            push_tok(out, Tok::LBracket);
            print_queries_toks(c, 0, out);
            push_tok(out, Tok::RBracket);
        },
        Logical::Sequence => {
            push_tok(out, Tok::LParen);
            push_tok(out, Tok::LParen);
            print_queries_toks(c, 0, out);
            push_tok(out, Tok::RParen);
            push_tok(out, Tok::RParen);
        },
        Logical::Single => {
            if c.queries.len() > 0 {
                proof {
                    vstd::std_specs::vec::axiom_vec_index_decreases(c.queries, 0);
                }
                print_query_toks(&c.queries[0], out);
            } else {
                push_tok(out, Tok::LParen);
                push_tok(out, Tok::Underscore);
                push_tok(out, Tok::RParen);
            }
        },
    };
    proof {
        assert(toks_view(out@) =~= toks_view(old(out)@) + pr_child(c@));
    }
}

/// Mirrors `pr_queries`.
fn print_queries_toks(c: &SubQuery, i: usize, out: &mut Vec<Tok>)
    requires
        i <= c.queries@.len(),
    ensures
        toks_view(final(out)@) == toks_view(old(out)@) + pr_queries(c@.queries, i as int),
    decreases c, 3int, c.queries@.len() - i,
{
    proof {
        lemma_view_queries(c.queries, 0);
    }
    if i >= c.queries.len() {
        proof {
            assert(toks_view(out@) =~= toks_view(out@) + Seq::<TokV>::empty());
        }
        return ;
    }
    proof {
        vstd::std_specs::vec::axiom_vec_index_decreases(c.queries, i as int);
    }
    print_query_toks(&c.queries[i], out);
    print_queries_toks(c, i + 1, out);
    proof {
        assert(toks_view(out@) =~= toks_view(old(out)@) + (pr_query(c@.queries[i as int])
            + pr_queries(c@.queries, i + 1 as int)));
    }
}

/// Append the decimal digits of `n`.
fn push_dec(n: usize, out: &mut Vec<u8>)
    ensures
        final(out)@ == old(out)@ + dec_digits(n as int),
    decreases n,
{
    if n < 10 {
        let ghost before = out@;
        out.push(48 + (n as u8));
        proof {
            assert(out@ =~= before + dec_digits(n as int));
        }
    } else {
        push_dec(n / 10, out);
        let ghost mid = out@;
        out.push(48 + ((n % 10) as u8));
        proof {
            assert(out@ =~= mid + seq![(48 + (n as int) % 10) as u8]);
            assert(out@ =~= old(out)@ + (dec_digits(n as int / 10) + seq![
                (48 + (n as int) % 10) as u8,
            ]));
        }
    }
}

/// Append the byte spelling of one token and a space.
fn push_tok_bytes(t: &Tok, out: &mut Vec<u8>)
    ensures
        final(out)@ == old(out)@ + render_tok(t@) + seq![32u8],
{
    let ghost before = out@;
    match t {
        Tok::LParen => out.push(40),
        Tok::RParen => out.push(41),
        Tok::LBracket => out.push(91),
        Tok::RBracket => out.push(93),
        Tok::Colon => out.push(58),
        Tok::At => out.push(64),
        Tok::Plus => out.push(43),
        Tok::Star => out.push(42),
        Tok::Question => out.push(63),
        Tok::Underscore => out.push(95),
        Tok::Ident(w) => {
            let mut k: usize = 0;
            while k < w.len()
                invariant
                    0 <= k <= w@.len(),
                    out@ == before + w@.subrange(0, k as int),
                decreases w@.len() - k,
            {
                out.push(w[k]);
                proof {
                    assert(out@ =~= before + w@.subrange(0, k + 1 as int));
                }
                k = k + 1;
            }
            proof {
                assert(w@.subrange(0, w@.len() as int) =~= w@);
            }
        },
        Tok::Int(v) => push_dec(*v, out),
    };
    let ghost mid = out@;
    out.push(32);
    proof {
        assert(out@ =~= mid + seq![32u8]);
        assert(out@ =~= before + render_tok(t@) + seq![32u8]);
    }
}

/// Render a token sequence to bytes, from index `i` on.
fn render_toks(ts: &Vec<Tok>, i: usize, out: &mut Vec<u8>)
    requires
        i <= ts@.len(),
    ensures
        final(out)@ == old(out)@ + render_from(toks_view(ts@), i as int),
    decreases ts@.len() - i,
{
    if i >= ts.len() {
        proof {
            assert(out@ =~= out@ + Seq::<u8>::empty());
        }
        return ;
    }
    push_tok_bytes(&ts[i], out);
    render_toks(ts, i + 1, out);
    proof {
        assert(out@ =~= old(out)@ + (render_tok(toks_view(ts@)[i as int]) + seq![32u8]
            + render_from(toks_view(ts@), i + 1 as int)));
    }
}

impl Query {
    /// Pretty-print the pattern in its canonical spelling.
    pub fn print(&self) -> (r: Vec<u8>)
        ensures
            r@ == print_of(self@),
    {
        let mut toks: Vec<Tok> = Vec::new();
        let ghost e0 = toks@;
        print_query_toks(self, &mut toks);
        proof {
            assert(toks_view(e0) =~= Seq::<TokV>::empty());
            assert(toks_view(toks@) =~= pr_query(self@));
        }
        let mut out: Vec<u8> = Vec::new();
        let ghost b0 = out@;
        render_toks(&toks, 0, &mut out);
        proof {
            assert(out@ =~= render_from(toks_view(toks@), 0));
        }
        out
    }
}

} // verus!
