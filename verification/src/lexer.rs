//! The token stream abstraction under the pattern grammar: pattern text is
//! a byte sequence, split into delimiter and punctuation tokens, identifiers,
//! the wildcard `_`, and non-negative integer literals. An identifier is
//! ASCII: a letter or underscore, then letters, digits and underscores.

use vstd::prelude::*;

verus! {

/// One token of pattern text.
pub enum Tok {
    LParen,
    RParen,
    LBracket,
    RBracket,
    Colon,
    At,
    Plus,
    Star,
    Question,
    Underscore,
    Ident(Vec<u8>),
    Int(usize),
}

/// Ghost mirror of `Tok`.
pub enum TokV {
    LParen,
    RParen,
    LBracket,
    RBracket,
    Colon,
    At,
    Plus,
    Star,
    Question,
    Underscore,
    Ident(Seq<u8>),
    Int(int),
}

impl View for Tok {
    type V = TokV;

    open spec fn view(&self) -> TokV {
        match self {
            Tok::LParen => TokV::LParen,
            Tok::RParen => TokV::RParen,
            Tok::LBracket => TokV::LBracket,
            Tok::RBracket => TokV::RBracket,
            Tok::Colon => TokV::Colon,
            Tok::At => TokV::At,
            Tok::Plus => TokV::Plus,
            Tok::Star => TokV::Star,
            Tok::Question => TokV::Question,
            Tok::Underscore => TokV::Underscore,
            Tok::Ident(w) => TokV::Ident(w@),
            Tok::Int(v) => TokV::Int(*v as int),
        }
    }
}

pub open spec fn toks_view(ts: Seq<Tok>) -> Seq<TokV> {
    Seq::new(ts.len(), |k: int| ts[k]@)
}

pub open spec fn is_ws(b: u8) -> bool {
    b == 32 || b == 9 || b == 10 || b == 13
}

pub open spec fn is_digit(b: u8) -> bool {
    48 <= b <= 57
}

pub open spec fn is_ident_start(b: u8) -> bool {
    (97 <= b <= 122) || (65 <= b <= 90) || b == 95
}

pub open spec fn is_ident_char(b: u8) -> bool {
    is_ident_start(b) || is_digit(b)
}

/// Length of the run of identifier characters starting at `i`.
pub open spec fn ident_run_len(s: Seq<u8>, i: int) -> nat
    decreases s.len() - i,
{
    if i < 0 || i >= s.len() || !is_ident_char(s[i]) {
        0
    } else {
        1 + ident_run_len(s, i + 1)
    }
}

/// Length of the run of decimal digits starting at `i`.
pub open spec fn digit_run_len(s: Seq<u8>, i: int) -> nat
    decreases s.len() - i,
{
    if i < 0 || i >= s.len() || !is_digit(s[i]) {
        0
    } else {
        1 + digit_run_len(s, i + 1)
    }
}

/// Value of the `n` decimal digits of `s` starting at `i`.
pub open spec fn digits_val(s: Seq<u8>, i: int, n: int) -> int
    decreases n,
{
    if n <= 0 {
        0
    } else {
        digits_val(s, i, n - 1) * 10 + (s[i + n - 1] - 48)
    }
}

/// A run of identifier characters stays inside the sequence.
pub proof fn lemma_ident_run_le(s: Seq<u8>, i: int)
    requires
        0 <= i <= s.len(),
    ensures
        i + ident_run_len(s, i) <= s.len(),
    decreases s.len() - i,
{
    if i < s.len() && is_ident_char(s[i]) {
        lemma_ident_run_le(s, i + 1);
    }
}

/// A run of digits stays inside the sequence.
pub proof fn lemma_digit_run_le(s: Seq<u8>, i: int)
    requires
        0 <= i <= s.len(),
    ensures
        i + digit_run_len(s, i) <= s.len(),
    decreases s.len() - i,
{
    if i < s.len() && is_digit(s[i]) {
        lemma_digit_run_le(s, i + 1);
    }
}

/// The tokens of `s` from position `i` on; `None` on a byte no token can
/// start with, or an integer literal too large for `usize`.
pub open spec fn spec_lex(s: Seq<u8>, i: int) -> Option<Seq<TokV>>
    decreases s.len() - i,
        via spec_lex_decreases
{
    if i < 0 || i >= s.len() {
        Some(Seq::empty())
    } else {
        let b = s[i];
        if is_ws(b) {
            spec_lex(s, i + 1)
        } else if b == 40 || b == 41 || b == 91 || b == 93 || b == 58 || b == 64 || b == 43 || b
            == 42 || b == 63 {
            let t = if b == 40 {
                TokV::LParen
            } else if b == 41 {
                TokV::RParen
            } else if b == 91 {
                TokV::LBracket
            } else if b == 93 {
                TokV::RBracket
            } else if b == 58 {
                TokV::Colon
            } else if b == 64 {
                TokV::At
            } else if b == 43 {
                TokV::Plus
            } else if b == 42 {
                TokV::Star
            } else {
                TokV::Question
            };
            match spec_lex(s, i + 1) {
                None => None,
                Some(rest) => Some(seq![t] + rest),
            }
        } else if is_digit(b) {
            let n = 1 + digit_run_len(s, i + 1);
            let v = digits_val(s, i, n as int);
            if v > usize::MAX as int {
                None
            } else {
                match spec_lex(s, i + 1 + digit_run_len(s, i + 1)) {
                    None => None,
                    Some(rest) => Some(seq![TokV::Int(v)] + rest),
                }
            }
        } else if is_ident_start(b) {
            let n = 1 + ident_run_len(s, i + 1);
            let t = if b == 95 && ident_run_len(s, i + 1) == 0 {
                TokV::Underscore
            } else {
                TokV::Ident(s.subrange(i, i + n))
            };
            match spec_lex(s, i + 1 + ident_run_len(s, i + 1)) {
                None => None,
                Some(rest) => Some(seq![t] + rest),
            }
        } else {
            None
        }
    }
}

#[via_fn]
proof fn spec_lex_decreases(s: Seq<u8>, i: int) {
    if 0 <= i < s.len() {
        lemma_ident_run_le(s, i + 1);
        lemma_digit_run_le(s, i + 1);
    }
}

fn is_ws_x(b: u8) -> (r: bool)
    ensures
        r == is_ws(b),
{
    b == 32 || b == 9 || b == 10 || b == 13
}

fn is_digit_x(b: u8) -> (r: bool)
    ensures
        r == is_digit(b),
{
    48 <= b && b <= 57
}

fn is_ident_start_x(b: u8) -> (r: bool)
    ensures
        r == is_ident_start(b),
{
    (97 <= b && b <= 122) || (65 <= b && b <= 90) || b == 95
}

fn is_ident_char_x(b: u8) -> (r: bool)
    ensures
        r == is_ident_char(b),
{
    is_ident_start_x(b) || is_digit_x(b)
}

/// Scan the identifier-character run starting at `i`.
fn ident_run(s: &[u8], i: usize) -> (n: usize)
    requires
        i <= s@.len(),
    ensures
        n == ident_run_len(s@, i as int),
        i + n <= s@.len(),
    decreases s@.len() - i,
{
    if i < s.len() && is_ident_char_x(s[i]) {
        1 + ident_run(s, i + 1)
    } else {
        0
    }
}

/// Scan the digit run starting at `i`.
fn digit_run(s: &[u8], i: usize) -> (n: usize)
    requires
        i <= s@.len(),
    ensures
        n == digit_run_len(s@, i as int),
        i + n <= s@.len(),
    decreases s@.len() - i,
{
    if i < s.len() && is_digit_x(s[i]) {
        1 + digit_run(s, i + 1)
    } else {
        0
    }
}

/// Every position inside an identifier run holds an identifier character.
pub proof fn lemma_ident_run_chars(s: Seq<u8>, i: int)
    ensures
        forall|k: int| i <= k < i + ident_run_len(s, i) ==> is_ident_char(#[trigger] s[k]),
    decreases s.len() - i,
{
    if 0 <= i < s.len() && is_ident_char(s[i]) {
        lemma_ident_run_chars(s, i + 1);
    }
}

/// Every position inside a digit run holds a digit.
pub proof fn lemma_digit_run_digits(s: Seq<u8>, i: int)
    ensures
        forall|k: int| i <= k < i + digit_run_len(s, i) ==> is_digit(#[trigger] s[k]),
    decreases s.len() - i,
{
    if 0 <= i < s.len() && is_digit(s[i]) {
        lemma_digit_run_digits(s, i + 1);
    }
}

/// Digit values are non-negative and grow with the digit count.
pub proof fn lemma_digits_val_mono(s: Seq<u8>, i: int, m: int, n: int)
    requires
        0 <= m <= n,
        forall|k: int| i <= k < i + n ==> 0 <= #[trigger] s[k] - 48,
    ensures
        0 <= digits_val(s, i, m) <= digits_val(s, i, n),
    decreases n,
{
    if n > 0 {
        if m == n {
            lemma_digits_val_mono(s, i, m - 1, n - 1);
        } else {
            lemma_digits_val_mono(s, i, m, n - 1);
        }
    }
}

/// Value of the digit run `s[i .. i + n]`, or `None` when it exceeds
/// `usize::MAX`.
fn digits_to_usize(s: &[u8], i: usize, n: usize) -> (r: Option<usize>)
    requires
        i + n <= s@.len(),
        forall|k: int| i <= k < i + n ==> is_digit(#[trigger] s@[k]),
    ensures
        match r {
            Some(v) => v == digits_val(s@, i as int, n as int) && v <= usize::MAX,
            None => digits_val(s@, i as int, n as int) > usize::MAX,
        },
{
    let slen = s.len();
    let mut acc: usize = 0;
    let mut k: usize = 0;
    while k < n
        invariant
            0 <= k <= n,
            s@.len() == slen,
            i + n <= s@.len(),
            forall|m: int| i <= m < i + n ==> is_digit(#[trigger] s@[m]),
            acc == digits_val(s@, i as int, k as int),
        decreases n - k,
    {
        let d = s[i + k] - 48;
        proof {
            lemma_digits_val_mono(s@, i as int, k as int, n as int);
        }
        if acc > (usize::MAX - d as usize) / 10 {
            proof {
                lemma_digits_val_mono(s@, i as int, k + 1, n as int);
            }
            return None;
        }
        acc = acc * 10 + d as usize;
        k = k + 1;
    }
    Some(acc)
}

/// Tokenize `s` from position `i` on, appending to `acc`; `false` on a byte
/// no token can start with, or an integer literal too large for `usize`.
pub fn lex_from(s: &[u8], i: usize, acc: &mut Vec<Tok>) -> (ok: bool)
    requires
        i <= s@.len(),
    ensures
        match spec_lex(s@, i as int) {
            Some(r) => ok && toks_view(final(acc)@) == toks_view(old(acc)@) + r,
            None => !ok,
        },
    decreases s@.len() - i,
{
    if i >= s.len() {
        assert(toks_view(acc@) =~= toks_view(acc@) + Seq::<TokV>::empty());
        return true;
    }
    let b = s[i];
    if is_ws_x(b) {
        lex_from(s, i + 1, acc)
    } else if b == 40 || b == 41 || b == 91 || b == 93 || b == 58 || b == 64 || b == 43 || b == 42
        || b == 63 {
        let t = if b == 40 {
            Tok::LParen
        } else if b == 41 {
            Tok::RParen
        } else if b == 91 {
            Tok::LBracket
        } else if b == 93 {
            Tok::RBracket
        } else if b == 58 {
            Tok::Colon
        } else if b == 64 {
            Tok::At
        } else if b == 43 {
            Tok::Plus
        } else if b == 42 {
            Tok::Star
        } else {
            Tok::Question
        };
        let ghost tv = t@;
        acc.push(t);
        let ghost mid = acc@;
        let ok = lex_from(s, i + 1, acc);
        proof {
            if ok {
                let r = spec_lex(s@, i as int + 1).unwrap();
                assert(toks_view(mid) =~= toks_view(old(acc)@) + seq![tv]);
                assert(toks_view(acc@) =~= toks_view(old(acc)@) + (seq![tv] + r));
            }
        }
        ok
    } else if is_digit_x(b) {
        let dn = digit_run(s, i + 1);
        proof {
            lemma_digit_run_digits(s@, i + 1);
        }
        match digits_to_usize(s, i, 1 + dn) {
            None => false,
            Some(v) => {
                let ghost tv = TokV::Int(v as int);
                acc.push(Tok::Int(v));
                let ghost mid = acc@;
                let ok = lex_from(s, i + 1 + dn, acc);
                proof {
                    if ok {
                        let r = spec_lex(s@, i + 1 + dn as int).unwrap();
                        assert(toks_view(mid) =~= toks_view(old(acc)@) + seq![tv]);
                        assert(toks_view(acc@) =~= toks_view(old(acc)@) + (seq![tv] + r));
                    }
                }
                ok
            },
        }
    } else if is_ident_start_x(b) {
        let rn = ident_run(s, i + 1);
        let t = if b == 95 && rn == 0 {
            Tok::Underscore
        } else {
            let slen = s.len();
            let mut w: Vec<u8> = Vec::new();
            let mut k: usize = 0;
            while k < 1 + rn
                invariant
                    0 <= k <= 1 + rn,
                    s@.len() == slen,
                    i + 1 + rn <= s@.len(),
                    w@ == s@.subrange(i as int, i + k as int),
                decreases 1 + rn - k,
            {
                w.push(s[i + k]);
                proof {
                    assert(w@ =~= s@.subrange(i as int, i + k + 1 as int));
                }
                k = k + 1;
            }
            Tok::Ident(w)
        };
        let ghost tv = t@;
        acc.push(t);
        let ghost mid = acc@;
        let ok = lex_from(s, i + 1 + rn, acc);
        proof {
            if ok {
                let r = spec_lex(s@, i + 1 + rn as int).unwrap();
                assert(toks_view(mid) =~= toks_view(old(acc)@) + seq![tv]);
                assert(toks_view(acc@) =~= toks_view(old(acc)@) + (seq![tv] + r));
            }
        }
        ok
    } else {
        false
    }
}

} // verus!
