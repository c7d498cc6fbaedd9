//! The grammar of the numeric answers fill-in-blank grading evaluates:
//! `+ - * / ^`, parentheses, unary minus, decimal numbers and the names `pi`,
//! `e` and `sqrt(..)`. Trivial formatting (surrounding whitespace, a leading
//! `x=`, `$`, thousands commas, inner whitespace) is dropped first. Parsing
//! yields the expression tree; its value is floating-point arithmetic and is
//! computed by the caller.
//!
//! expr := term (('+' | '-') term)*
//! term := factor (('*' | '/') factor)*
//! factor := unary ('^' factor)?      (right-associative)
//! unary := '-' unary | atom
//! atom := number | 'pi' | 'e' | '(' expr ')' | 'sqrt' '(' expr ')'

use vstd::prelude::*;

use crate::quiz_schema::{strip_prefix_all, strip_prefix_vec};
use crate::text::{chars_of, is_whitespace, is_ws, slice_copy, starts_with, string_of, trim, trim_chars, trim_end, trim_start};

verus! {

// ---- Cleaning ----

/// The characters kept for parsing: not `$`, `,` or whitespace.
pub open spec fn kept_math_chars(s: Seq<char>) -> Seq<char>
    decreases s.len(),
{
    if s.len() == 0 {
        Seq::empty()
    } else {
        let r = kept_math_chars(s.drop_last());
        let c = s.last();
        if c == '$' || c == ',' || is_ws(c) {
            r
        } else {
            r.push(c)
        }
    }
}

/// The answer with its trivial formatting dropped: trimmed, leading `x=`
/// (then `x =`) copies removed, and `$`, `,` and whitespace dropped.
pub open spec fn cleaned(s: Seq<char>) -> Seq<char> {
    kept_math_chars(strip_prefix_all(strip_prefix_all(trim(s), "x="@), "x ="@))
}

fn clean(s: &str) -> (r: Vec<char>)
    ensures
        r@ == cleaned(s@),
{
    proof {
        reveal_strlit("x=");
        reveal_strlit("x =");
    }
    let cs = chars_of(s);
    let t = trim_chars(&cs);
    let p1 = chars_of("x=");
    let p2 = chars_of("x =");
    let u = strip_prefix_vec(t, &p1);
    let w = strip_prefix_vec(u, &p2);
    let mut out: Vec<char> = Vec::new();
    let mut i: usize = 0;
    while i < w.len()
        invariant
            i <= w@.len(),
            out@ == kept_math_chars(w@.take(i as int)),
        decreases w.len() - i,
    {
        let c = w[i];
        assert(w@.take(i + 1).drop_last() =~= w@.take(i as int));
        if !(c == '$' || c == ',' || is_whitespace(c)) {
            out.push(c);
        }
        i = i + 1;
    }
    assert(w@.take(w@.len() as int) =~= w@);
    out
}

// ---- Tokens ----

/// One token of an answer.
#[derive(Debug, Clone, PartialEq)]
pub enum MathToken {
    Num(String),
    Plus,
    Minus,
    Star,
    Slash,
    Caret,
    LParen,
    RParen,
    Pi,
    E,
    Sqrt,
}

pub enum TokenView {
    Num(Seq<char>),
    Plus,
    Minus,
    Star,
    Slash,
    Caret,
    LParen,
    RParen,
    Pi,
    E,
    Sqrt,
}

impl View for MathToken {
    type V = TokenView;

    open spec fn view(&self) -> TokenView {
        match self {
            MathToken::Num(s) => TokenView::Num(s@),
            MathToken::Plus => TokenView::Plus,
            MathToken::Minus => TokenView::Minus,
            MathToken::Star => TokenView::Star,
            MathToken::Slash => TokenView::Slash,
            MathToken::Caret => TokenView::Caret,
            MathToken::LParen => TokenView::LParen,
            MathToken::RParen => TokenView::RParen,
            MathToken::Pi => TokenView::Pi,
            MathToken::E => TokenView::E,
            MathToken::Sqrt => TokenView::Sqrt,
        }
    }
}

pub open spec fn tokens_view(v: Seq<MathToken>) -> Seq<TokenView> {
    Seq::new(v.len(), |i: int| v[i]@)
}

pub open spec fn is_num_char(c: char) -> bool {
    ('0' <= c && c <= '9') || c == '.'
}

pub open spec fn is_ascii_alpha(c: char) -> bool {
    ('a' <= c && c <= 'z') || ('A' <= c && c <= 'Z')
}

pub open spec fn in_run(c: char, numeric: bool) -> bool {
    if numeric {
        is_num_char(c)
    } else {
        is_ascii_alpha(c)
    }
}

/// Where the run of number (or letter) characters starting at `i` ends.
pub open spec fn run_end(cs: Seq<char>, i: int, numeric: bool) -> int
    decreases cs.len() - i,
{
    if 0 <= i < cs.len() && in_run(cs[i], numeric) {
        run_end(cs, i + 1, numeric)
    } else {
        i
    }
}

pub proof fn lemma_run_end(cs: Seq<char>, i: int, numeric: bool)
    requires
        0 <= i <= cs.len(),
    ensures
        i <= run_end(cs, i, numeric) <= cs.len(),
        i < cs.len() && in_run(cs[i], numeric) ==> i < run_end(cs, i, numeric),
        forall|k: int| i <= k < run_end(cs, i, numeric) ==> in_run(#[trigger] cs[k], numeric),
        run_end(cs, i, numeric) < cs.len() ==> !in_run(cs[run_end(cs, i, numeric)], numeric),
    decreases cs.len() - i,
{
    if i < cs.len() && in_run(cs[i], numeric) {
        lemma_run_end(cs, i + 1, numeric);
    }
}

/// How many `.` a text holds.
pub open spec fn dot_count(s: Seq<char>) -> nat
    decreases s.len(),
{
    if s.len() == 0 {
        0
    } else {
        dot_count(s.drop_last()) + if s.last() == '.' { 1nat } else { 0nat }
    }
}

/// A run of digits and dots is a number when it has at most one dot and at
/// least one digit (what `f64`'s `FromStr` accepts of such a run).
pub open spec fn valid_number(s: Seq<char>) -> bool {
    dot_count(s) <= 1 && dot_count(s) < s.len()
}

pub open spec fn prepend(t: TokenView, rest: Option<Seq<TokenView>>) -> Option<Seq<TokenView>> {
    match rest {
        Some(s) => Some(seq![t] + s),
        None => None,
    }
}

/// The tokens of `cs` from `i` on; None at the first character that starts
/// no token (an unknown name, a stray symbol, a malformed number).
pub open spec fn tokens_from(cs: Seq<char>, i: int) -> Option<Seq<TokenView>>
    decreases cs.len() - i,
{
    if i < 0 {
        None
    } else if i >= cs.len() {
        Some(Seq::empty())
    } else {
        let c = cs[i];
        if c == '+' {
            prepend(TokenView::Plus, tokens_from(cs, i + 1))
        } else if c == '-' {
            prepend(TokenView::Minus, tokens_from(cs, i + 1))
        } else if c == '*' {
            prepend(TokenView::Star, tokens_from(cs, i + 1))
        } else if c == '/' {
            prepend(TokenView::Slash, tokens_from(cs, i + 1))
        } else if c == '^' {
            prepend(TokenView::Caret, tokens_from(cs, i + 1))
        } else if c == '(' {
            prepend(TokenView::LParen, tokens_from(cs, i + 1))
        } else if c == ')' {
            prepend(TokenView::RParen, tokens_from(cs, i + 1))
        } else if is_num_char(c) {
            proof {
                lemma_run_end(cs, i, true);
            }
            let j = run_end(cs, i, true);
            let s = cs.subrange(i, j);
            if valid_number(s) {
                prepend(TokenView::Num(s), tokens_from(cs, j))
            } else {
                None
            }
        } else if is_ascii_alpha(c) {
            proof {
                lemma_run_end(cs, i, false);
            }
            let j = run_end(cs, i, false);
            let w = cs.subrange(i, j);
            if w == "pi"@ {
                prepend(TokenView::Pi, tokens_from(cs, j))
            } else if w == "e"@ {
                prepend(TokenView::E, tokens_from(cs, j))
            } else if w == "sqrt"@ {
                prepend(TokenView::Sqrt, tokens_from(cs, j))
            } else {
                None
            }
        } else {
            None
        }
    }
}

fn in_run_exec(c: char, numeric: bool) -> (b: bool)
    ensures
        b == in_run(c, numeric),
{
    if numeric {
        ('0' <= c && c <= '9') || c == '.'
    } else {
        ('a' <= c && c <= 'z') || ('A' <= c && c <= 'Z')
    }
}

fn run_end_exec(cs: &Vec<char>, i: usize, numeric: bool) -> (j: usize)
    requires
        i <= cs@.len(),
    ensures
        j == run_end(cs@, i as int, numeric),
{
    let mut j = i;
    while j < cs.len() && in_run_exec(cs[j], numeric)
        invariant
            i <= j <= cs@.len(),
            run_end(cs@, i as int, numeric) == run_end(cs@, j as int, numeric),
        decreases cs.len() - j,
    {
        j = j + 1;
    }
    j
}

fn count_dots(s: &Vec<char>) -> (n: usize)
    ensures
        n == dot_count(s@),
        n <= s@.len(),
{
    let mut n: usize = 0;
    let mut i: usize = 0;
    while i < s.len()
        invariant
            i <= s@.len(),
            n == dot_count(s@.take(i as int)),
            n <= i,
        decreases s.len() - i,
    {
        assert(s@.take(i + 1).drop_last() =~= s@.take(i as int));
        if s[i] == '.' {
            n = n + 1;
        }
        i = i + 1;
    }
    assert(s@.take(s@.len() as int) =~= s@);
    n
}

fn tokenize(cs: &Vec<char>) -> (r: Option<Vec<MathToken>>)
    ensures
        match r {
            Some(t) => tokens_from(cs@, 0) == Some(tokens_view(t@)),
            None => tokens_from(cs@, 0) is None,
        },
{
    let mut toks: Vec<MathToken> = Vec::new();
    let mut i: usize = 0;
    while i < cs.len()
        invariant
            i <= cs@.len(),
            tokens_from(cs@, 0) == match tokens_from(cs@, i as int) {
                Some(rest) => Some(tokens_view(toks@) + rest),
                None => None::<Seq<TokenView>>,
            },
        decreases cs.len() - i,
    {
        let c = cs[i];
        let ghost t0 = toks@;
        let tok: MathToken;
        let next: usize;
        if c == '+' || c == '-' || c == '*' || c == '/' || c == '^' || c == '(' || c == ')' {
            tok = if c == '+' {
                MathToken::Plus
            } else if c == '-' {
                MathToken::Minus
            } else if c == '*' {
                MathToken::Star
            } else if c == '/' {
                MathToken::Slash
            } else if c == '^' {
                MathToken::Caret
            } else if c == '(' {
                MathToken::LParen
            } else {
                MathToken::RParen
            };
            next = i + 1;
        } else if ('0' <= c && c <= '9') || c == '.' {
            let j = run_end_exec(cs, i, true);
            proof {
                lemma_run_end(cs@, i as int, true);
            }
            let s = slice_copy(cs, i, j);
            let dots = count_dots(&s);
            if !(dots <= 1 && dots < s.len()) {
                return None;
            }
            tok = MathToken::Num(string_of(s.as_slice()));
            next = j;
        } else if ('a' <= c && c <= 'z') || ('A' <= c && c <= 'Z') {
            let j = run_end_exec(cs, i, false);
            proof {
                lemma_run_end(cs@, i as int, false);
            }
            let w = slice_copy(cs, i, j);
            proof {
                reveal_strlit("pi");
                reveal_strlit("e");
                reveal_strlit("sqrt");
            }
            if w.len() == 2 && w[0] == 'p' && w[1] == 'i' {
                assert(w@ =~= "pi"@);
                tok = MathToken::Pi;
            } else if w.len() == 1 && w[0] == 'e' {
                assert(w@ =~= "e"@);
                tok = MathToken::E;
            } else if w.len() == 4 && w[0] == 's' && w[1] == 'q' && w[2] == 'r' && w[3] == 't' {
                assert(w@ =~= "sqrt"@);
                tok = MathToken::Sqrt;
            } else {
                proof {
                    if w@ == "pi"@ {
                        assert(w@[0] == 'p' && w@[1] == 'i');
                    }
                    if w@ == "e"@ {
                        assert(w@[0] == 'e');
                    }
                    if w@ == "sqrt"@ {
                        assert(w@[0] == 's' && w@[1] == 'q' && w@[2] == 'r' && w@[3] == 't');
                    }
                }
                return None;
            }
            next = j;
        } else {
            return None;
        }
        toks.push(tok);
        proof {
            assert(tokens_view(toks@) =~= tokens_view(t0) + seq![toks@[toks@.len() - 1]@]);
            match tokens_from(cs@, next as int) {
                Some(rest) => {
                    assert(tokens_view(toks@) + rest =~= tokens_view(t0) + (seq![toks@[toks@.len()
                        - 1]@] + rest));
                },
                None => {},
            }
        }
        i = next;
    }
    assert(tokens_view(toks@) + Seq::<TokenView>::empty() =~= tokens_view(toks@));
    Some(toks)
}

// ---- Expression trees ----

/// A parsed answer.
#[derive(Debug, PartialEq)]
pub enum MathExpr {
    /// A decimal number, as written.
    Num(String),
    Pi,
    E,
    Neg(Box<MathExpr>),
    Add(Box<MathExpr>, Box<MathExpr>),
    Sub(Box<MathExpr>, Box<MathExpr>),
    Mul(Box<MathExpr>, Box<MathExpr>),
    Div(Box<MathExpr>, Box<MathExpr>),
    Pow(Box<MathExpr>, Box<MathExpr>),
    Sqrt(Box<MathExpr>),
}

pub enum ExprView {
    Num(Seq<char>),
    Pi,
    E,
    Neg(Box<ExprView>),
    Add(Box<ExprView>, Box<ExprView>),
    Sub(Box<ExprView>, Box<ExprView>),
    Mul(Box<ExprView>, Box<ExprView>),
    Div(Box<ExprView>, Box<ExprView>),
    Pow(Box<ExprView>, Box<ExprView>),
    Sqrt(Box<ExprView>),
}

pub open spec fn expr_view(e: MathExpr) -> ExprView
    decreases e,
{
    match e {
        MathExpr::Num(s) => ExprView::Num(s@),
        MathExpr::Pi => ExprView::Pi,
        MathExpr::E => ExprView::E,
        MathExpr::Neg(a) => ExprView::Neg(Box::new(expr_view(*a))),
        MathExpr::Add(a, b) => ExprView::Add(Box::new(expr_view(*a)), Box::new(expr_view(*b))),
        MathExpr::Sub(a, b) => ExprView::Sub(Box::new(expr_view(*a)), Box::new(expr_view(*b))),
        MathExpr::Mul(a, b) => ExprView::Mul(Box::new(expr_view(*a)), Box::new(expr_view(*b))),
        MathExpr::Div(a, b) => ExprView::Div(Box::new(expr_view(*a)), Box::new(expr_view(*b))),
        MathExpr::Pow(a, b) => ExprView::Pow(Box::new(expr_view(*a)), Box::new(expr_view(*b))),
        MathExpr::Sqrt(a) => ExprView::Sqrt(Box::new(expr_view(*a))),
    }
}

impl View for MathExpr {
    type V = ExprView;

    open spec fn view(&self) -> ExprView {
        expr_view(*self)
    }
}

// ---- The grammar over tokens ----

/// Tokens left from `pos` (0 past the end).
pub open spec fn rem(t: Seq<TokenView>, pos: int) -> int {
    if pos >= t.len() {
        0
    } else {
        t.len() - pos
    }
}

/// The later of two positions. Parses only move forward (see
/// `lemma_expr_advances`), so where the grammar takes `at_least(p, pos)` of a
/// sub-parse's end `p` it is `p` itself.
pub open spec fn at_least(p: int, q: int) -> int {
    if p < q {
        q
    } else {
        p
    }
}

/// A parenthesized expression whose inside starts at `start` (under
/// `sqrt` when `root`): the tree and where the closing parenthesis ends.
pub open spec fn group(t: Seq<TokenView>, start: int, root: bool) -> Option<(ExprView, int)>
    decreases rem(t, start), 7int,
{
    match expr(t, start) {
        Some((v, p)) => if 0 <= p < t.len() && t[p] is RParen {
            Some((if root { ExprView::Sqrt(Box::new(v)) } else { v }, p + 1))
        } else {
            None
        },
        None => None,
    }
}

/// An atom at `pos`: the tree and where it ends.
pub open spec fn atom(t: Seq<TokenView>, pos: int) -> Option<(ExprView, int)>
    decreases rem(t, pos), 0int,
{
    if pos < 0 || pos >= t.len() {
        None
    } else {
        match t[pos] {
            TokenView::Num(s) => Some((ExprView::Num(s), pos + 1)),
            TokenView::Pi => Some((ExprView::Pi, pos + 1)),
            TokenView::E => Some((ExprView::E, pos + 1)),
            TokenView::LParen => group(t, pos + 1, false),
            TokenView::Sqrt => if pos + 1 < t.len() && t[pos + 1] is LParen {
                group(t, pos + 2, true)
            } else {
                None
            },
            _ => None,
        }
    }
}

/// A unary at `pos`: leading minus signs, then an atom.
pub open spec fn unary(t: Seq<TokenView>, pos: int) -> Option<(ExprView, int)>
    decreases rem(t, pos), 1int,
{
    if 0 <= pos < t.len() && t[pos] is Minus {
        match unary(t, pos + 1) {
            Some((v, p)) => Some((ExprView::Neg(Box::new(v)), p)),
            None => None,
        }
    } else {
        atom(t, pos)
    }
}

/// A factor at `pos`: a unary, raised (right-associatively) to a factor.
pub open spec fn factor(t: Seq<TokenView>, pos: int) -> Option<(ExprView, int)>
    decreases rem(t, pos), 2int,
{
    match unary(t, pos) {
        None => None,
        Some((b, p)) => {
            let p = at_least(p, pos);
            if 0 <= p < t.len() && t[p] is Caret {
                match factor(t, p + 1) {
                    Some((x, q)) => Some((ExprView::Pow(Box::new(b), Box::new(x)), q)),
                    None => None,
                }
            } else {
                Some((b, p))
            }
        },
    }
}

/// The `* factor` / `/ factor` continuation of a term whose left part is
/// `acc` and which has reached `pos`.
pub open spec fn term_tail(t: Seq<TokenView>, acc: ExprView, pos: int) -> Option<(ExprView, int)>
    decreases rem(t, pos), 3int,
{
    if 0 <= pos < t.len() && (t[pos] is Star || t[pos] is Slash) {
        match factor(t, pos + 1) {
            Some((x, q)) => {
                let next = if t[pos] is Star {
                    ExprView::Mul(Box::new(acc), Box::new(x))
                } else {
                    ExprView::Div(Box::new(acc), Box::new(x))
                };
                term_tail(t, next, at_least(q, pos + 1))
            },
            None => None,
        }
    } else {
        Some((acc, pos))
    }
}

/// A term at `pos`.
pub open spec fn term(t: Seq<TokenView>, pos: int) -> Option<(ExprView, int)>
    decreases rem(t, pos), 4int,
{
    match factor(t, pos) {
        Some((a, p)) => term_tail(t, a, at_least(p, pos)),
        None => None,
    }
}

/// The `+ term` / `- term` continuation of an expression.
pub open spec fn expr_tail(t: Seq<TokenView>, acc: ExprView, pos: int) -> Option<(ExprView, int)>
    decreases rem(t, pos), 5int,
{
    if 0 <= pos < t.len() && (t[pos] is Plus || t[pos] is Minus) {
        match term(t, pos + 1) {
            Some((x, q)) => {
                let next = if t[pos] is Plus {
                    ExprView::Add(Box::new(acc), Box::new(x))
                } else {
                    ExprView::Sub(Box::new(acc), Box::new(x))
                };
                expr_tail(t, next, at_least(q, pos + 1))
            },
            None => None,
        }
    } else {
        Some((acc, pos))
    }
}

/// An expression at `pos`.
pub open spec fn expr(t: Seq<TokenView>, pos: int) -> Option<(ExprView, int)>
    decreases rem(t, pos), 6int,
{
    match term(t, pos) {
        Some((a, p)) => expr_tail(t, a, at_least(p, pos)),
        None => None,
    }
}

/// The tree of an answer, when the whole cleaned answer is one expression.
pub open spec fn math_parse(s: Seq<char>) -> Option<ExprView> {
    let c = cleaned(s);
    if c.len() == 0 {
        None
    } else {
        match tokens_from(c, 0) {
            None => None,
            Some(t) => match expr(t, 0) {
                Some((e, p)) => if p == t.len() {
                    Some(e)
                } else {
                    None
                },
                None => None,
            },
        }
    }
}

pub open spec fn advances(r: Option<(ExprView, int)>, pos: int, len: int) -> bool {
    r matches Some((_, p)) ==> pos < p <= len
}

pub open spec fn reaches(r: Option<(ExprView, int)>, pos: int, len: int) -> bool {
    r matches Some((_, p)) ==> pos <= p <= len
}

/// Every successful parse consumes at least one token and stays within the
/// tokens, so taking `at_least` of two positions never changes one.
pub proof fn lemma_group_advances(t: Seq<TokenView>, start: int, root: bool)
    requires
        0 <= start,
    ensures
        advances(group(t, start, root), start, t.len() as int),
    decreases rem(t, start), 7int,
{
    lemma_expr_advances(t, start);
}

pub proof fn lemma_atom_advances(t: Seq<TokenView>, pos: int)
    requires
        0 <= pos,
    ensures
        advances(atom(t, pos), pos, t.len() as int),
    decreases rem(t, pos), 0int,
{
    if pos < t.len() {
        match t[pos] {
            TokenView::LParen => lemma_group_advances(t, pos + 1, false),
            TokenView::Sqrt => if pos + 1 < t.len() && t[pos + 1] is LParen {
                lemma_group_advances(t, pos + 2, true);
            },
            _ => {},
        }
    }
}

pub proof fn lemma_unary_advances(t: Seq<TokenView>, pos: int)
    requires
        0 <= pos,
    ensures
        advances(unary(t, pos), pos, t.len() as int),
    decreases rem(t, pos), 1int,
{
    if 0 <= pos < t.len() && t[pos] is Minus {
        lemma_unary_advances(t, pos + 1);
    } else {
        lemma_atom_advances(t, pos);
    }
}

pub proof fn lemma_factor_advances(t: Seq<TokenView>, pos: int)
    requires
        0 <= pos,
    ensures
        advances(factor(t, pos), pos, t.len() as int),
    decreases rem(t, pos), 2int,
{
    lemma_unary_advances(t, pos);
    match unary(t, pos) {
        Some((b, p)) => {
            let p = at_least(p, pos);
            if 0 <= p < t.len() && t[p] is Caret {
                lemma_factor_advances(t, p + 1);
            }
        },
        None => {},
    }
}

pub proof fn lemma_term_tail_reaches(t: Seq<TokenView>, acc: ExprView, pos: int)
    requires
        0 <= pos <= t.len(),
    ensures
        reaches(term_tail(t, acc, pos), pos, t.len() as int),
    decreases rem(t, pos), 3int,
{
    if 0 <= pos < t.len() && (t[pos] is Star || t[pos] is Slash) {
        lemma_factor_advances(t, pos + 1);
        match factor(t, pos + 1) {
            Some((x, q)) => {
                let next = if t[pos] is Star {
                    ExprView::Mul(Box::new(acc), Box::new(x))
                } else {
                    ExprView::Div(Box::new(acc), Box::new(x))
                };
                lemma_term_tail_reaches(t, next, at_least(q, pos + 1));
            },
            None => {},
        }
    }
}

pub proof fn lemma_term_advances(t: Seq<TokenView>, pos: int)
    requires
        0 <= pos,
    ensures
        advances(term(t, pos), pos, t.len() as int),
    decreases rem(t, pos), 4int,
{
    lemma_factor_advances(t, pos);
    match factor(t, pos) {
        Some((a, p)) => lemma_term_tail_reaches(t, a, at_least(p, pos)),
        None => {},
    }
}

pub proof fn lemma_expr_tail_reaches(t: Seq<TokenView>, acc: ExprView, pos: int)
    requires
        0 <= pos <= t.len(),
    ensures
        reaches(expr_tail(t, acc, pos), pos, t.len() as int),
    decreases rem(t, pos), 5int,
{
    if 0 <= pos < t.len() && (t[pos] is Plus || t[pos] is Minus) {
        lemma_term_advances(t, pos + 1);
        match term(t, pos + 1) {
            Some((x, q)) => {
                let next = if t[pos] is Plus {
                    ExprView::Add(Box::new(acc), Box::new(x))
                } else {
                    ExprView::Sub(Box::new(acc), Box::new(x))
                };
                lemma_expr_tail_reaches(t, next, at_least(q, pos + 1));
            },
            None => {},
        }
    }
}

pub proof fn lemma_expr_advances(t: Seq<TokenView>, pos: int)
    requires
        0 <= pos,
    ensures
        advances(expr(t, pos), pos, t.len() as int),
    decreases rem(t, pos), 6int,
{
    lemma_term_advances(t, pos);
    match term(t, pos) {
        Some((a, p)) => lemma_expr_tail_reaches(t, a, at_least(p, pos)),
        None => {},
    }
}

pub open spec fn parsed_view(r: Option<(MathExpr, usize)>) -> Option<(ExprView, int)> {
    match r {
        Some((e, p)) => Some((e@, p as int)),
        None => None,
    }
}

fn p_group(t: &Vec<MathToken>, start: usize, root: bool) -> (r: Option<(MathExpr, usize)>)
    ensures
        parsed_view(r) == group(tokens_view(t@), start as int, root),
    decreases rem(tokens_view(t@), start as int), 7int,
{
    match p_expr(t, start) {
        Some((v, p)) => {
            if p < t.len() && matches!(t[p], MathToken::RParen) {
                assert(tokens_view(t@)[p as int] == t@[p as int]@);
                if root {
                    Some((MathExpr::Sqrt(Box::new(v)), p + 1))
                } else {
                    Some((v, p + 1))
                }
            } else {
                proof {
                    if 0 <= p < t@.len() {
                        assert(tokens_view(t@)[p as int] == t@[p as int]@);
                    }
                }
                None
            }
        },
        None => None,
    }
}

#[verifier::rlimit(40)]
fn p_atom(t: &Vec<MathToken>, pos: usize) -> (r: Option<(MathExpr, usize)>)
    ensures
        parsed_view(r) == atom(tokens_view(t@), pos as int),
    decreases rem(tokens_view(t@), pos as int), 0int,
{
    if pos >= t.len() {
        return None;
    }
    assert(tokens_view(t@)[pos as int] == t@[pos as int]@);
    match &t[pos] {
        MathToken::Num(s) => Some((MathExpr::Num(crate::contract::copy_string(s)), pos + 1)),
        MathToken::Pi => Some((MathExpr::Pi, pos + 1)),
        MathToken::E => Some((MathExpr::E, pos + 1)),
        MathToken::LParen => p_group(t, pos + 1, false),
        MathToken::Sqrt => {
            if pos + 1 < t.len() && matches!(t[pos + 1], MathToken::LParen) {
                assert(tokens_view(t@)[pos + 1] == t@[pos + 1]@);
                p_group(t, pos + 2, true)
            } else {
                proof {
                    if pos + 1 < t@.len() {
                        assert(tokens_view(t@)[pos + 1] == t@[pos + 1]@);
                    }
                }
                None
            }
        },
        _ => None,
    }
}

fn p_unary(t: &Vec<MathToken>, pos: usize) -> (r: Option<(MathExpr, usize)>)
    ensures
        parsed_view(r) == unary(tokens_view(t@), pos as int),
    decreases rem(tokens_view(t@), pos as int), 1int,
{
    if pos < t.len() && matches!(t[pos], MathToken::Minus) {
        assert(tokens_view(t@)[pos as int] == t@[pos as int]@);
        match p_unary(t, pos + 1) {
            Some((v, p)) => Some((MathExpr::Neg(Box::new(v)), p)),
            None => None,
        }
    } else {
        proof {
            if pos < t@.len() {
                assert(tokens_view(t@)[pos as int] == t@[pos as int]@);
            }
        }
        p_atom(t, pos)
    }
}

fn p_factor(t: &Vec<MathToken>, pos: usize) -> (r: Option<(MathExpr, usize)>)
    ensures
        parsed_view(r) == factor(tokens_view(t@), pos as int),
    decreases rem(tokens_view(t@), pos as int), 2int,
{
    match p_unary(t, pos) {
        None => None,
        Some((b, p)) => {
            let p = if p < pos {
                pos
            } else {
                p
            };
            if p < t.len() && matches!(t[p], MathToken::Caret) {
                assert(tokens_view(t@)[p as int] == t@[p as int]@);
                match p_factor(t, p + 1) {
                    Some((x, q)) => Some((MathExpr::Pow(Box::new(b), Box::new(x)), q)),
                    None => None,
                }
            } else {
                proof {
                    if p < t@.len() {
                        assert(tokens_view(t@)[p as int] == t@[p as int]@);
                    }
                }
                Some((b, p))
            }
        },
    }
}

fn p_term_tail(t: &Vec<MathToken>, acc: MathExpr, pos: usize) -> (r: Option<(MathExpr, usize)>)
    ensures
        parsed_view(r) == term_tail(tokens_view(t@), acc@, pos as int),
    decreases rem(tokens_view(t@), pos as int), 3int,
{
    if pos < t.len() && (matches!(t[pos], MathToken::Star) || matches!(t[pos], MathToken::Slash)) {
        assert(tokens_view(t@)[pos as int] == t@[pos as int]@);
        let star = matches!(t[pos], MathToken::Star);
        match p_factor(t, pos + 1) {
            Some((x, q)) => {
                let next = if star {
                    MathExpr::Mul(Box::new(acc), Box::new(x))
                } else {
                    MathExpr::Div(Box::new(acc), Box::new(x))
                };
                let np = if q < pos + 1 {
                    pos + 1
                } else {
                    q
                };
                p_term_tail(t, next, np)
            },
            None => None,
        }
    } else {
        proof {
            if pos < t@.len() {
                assert(tokens_view(t@)[pos as int] == t@[pos as int]@);
            }
        }
        Some((acc, pos))
    }
}

fn p_term(t: &Vec<MathToken>, pos: usize) -> (r: Option<(MathExpr, usize)>)
    ensures
        parsed_view(r) == term(tokens_view(t@), pos as int),
    decreases rem(tokens_view(t@), pos as int), 4int,
{
    match p_factor(t, pos) {
        Some((a, p)) => {
            let np = if p < pos {
                pos
            } else {
                p
            };
            p_term_tail(t, a, np)
        },
        None => None,
    }
}

fn p_expr_tail(t: &Vec<MathToken>, acc: MathExpr, pos: usize) -> (r: Option<(MathExpr, usize)>)
    ensures
        parsed_view(r) == expr_tail(tokens_view(t@), acc@, pos as int),
    decreases rem(tokens_view(t@), pos as int), 5int,
{
    if pos < t.len() && (matches!(t[pos], MathToken::Plus) || matches!(t[pos], MathToken::Minus)) {
        assert(tokens_view(t@)[pos as int] == t@[pos as int]@);
        let plus = matches!(t[pos], MathToken::Plus);
        match p_term(t, pos + 1) {
            Some((x, q)) => {
                let next = if plus {
                    MathExpr::Add(Box::new(acc), Box::new(x))
                } else {
                    MathExpr::Sub(Box::new(acc), Box::new(x))
                };
                let np = if q < pos + 1 {
                    pos + 1
                } else {
                    q
                };
                p_expr_tail(t, next, np)
            },
            None => None,
        }
    } else {
        proof {
            if pos < t@.len() {
                assert(tokens_view(t@)[pos as int] == t@[pos as int]@);
            }
        }
        Some((acc, pos))
    }
}

fn p_expr(t: &Vec<MathToken>, pos: usize) -> (r: Option<(MathExpr, usize)>)
    ensures
        parsed_view(r) == expr(tokens_view(t@), pos as int),
    decreases rem(tokens_view(t@), pos as int), 6int,
{
    match p_term(t, pos) {
        Some((a, p)) => {
            let np = if p < pos {
                pos
            } else {
                p
            };
            p_expr_tail(t, a, np)
        },
        None => None,
    }
}

/// Parse an answer as a numeric expression: None when, once cleaned, it is
/// empty, holds something that is no token, or is not one whole expression.
pub fn parse_math(s: &str) -> (r: Option<MathExpr>)
    ensures
        match r {
            Some(e) => math_parse(s@) == Some(e@),
            None => math_parse(s@) is None,
        },
{
    let c = clean(s);
    if c.len() == 0 {
        return None;
    }
    let toks = match tokenize(&c) {
        Some(t) => t,
        None => return None,
    };
    match p_expr(&toks, 0) {
        Some((e, p)) => if p == toks.len() {
            Some(e)
        } else {
            None
        },
        None => None,
    }
}

// ---- What a quotient reads as ----

/// A non-empty run of decimal digits.
pub open spec fn is_digits(s: Seq<char>) -> bool {
    s.len() > 0 && forall|i: int| 0 <= i < s.len() ==> '0' <= #[trigger] s[i] <= '9'
}

proof fn lemma_kept_all(s: Seq<char>)
    requires
        forall|i: int| 0 <= i < s.len() ==> #[trigger] s[i] != '$' && s[i] != ',' && !is_ws(s[i]),
    ensures
        kept_math_chars(s) == s,
    decreases s.len(),
{
    if s.len() > 0 {
        lemma_kept_all(s.drop_last());
        assert(s.drop_last().push(s.last()) =~= s);
    } else {
        assert(kept_math_chars(s) =~= s);
    }
}

proof fn lemma_digits_no_dot(s: Seq<char>)
    requires
        forall|i: int| 0 <= i < s.len() ==> '0' <= #[trigger] s[i] <= '9',
    ensures
        dot_count(s) == 0,
    decreases s.len(),
{
    if s.len() > 0 {
        lemma_digits_no_dot(s.drop_last());
        assert(s.last() == s[s.len() - 1]);
    }
}

proof fn lemma_run_to(cs: Seq<char>, i: int, m: int)
    requires
        0 <= i <= m <= cs.len(),
        forall|k: int| i <= k < m ==> '0' <= #[trigger] cs[k] <= '9',
        m < cs.len() ==> !is_num_char(cs[m]),
    ensures
        run_end(cs, i, true) == m,
    decreases m - i,
{
    if i < m {
        lemma_run_to(cs, i + 1, m);
    }
}

/// The division of two written numbers reads with the dividend on the left:
/// for any digit strings `a` and `b`, the answer `a/b` parses to
/// `Div(Num(a), Num(b))` (so `1/2` is one half, never two).
pub proof fn lemma_quotient_reads_left_to_right(a: Seq<char>, b: Seq<char>)
    requires
        is_digits(a),
        is_digits(b),
    ensures
        math_parse(a + "/"@ + b) == Some(ExprView::Div(Box::new(ExprView::Num(a)), Box::new(ExprView::Num(b)))),
{
    reveal_strlit("/");
    reveal_strlit("x=");
    reveal_strlit("x =");
    let w = a + "/"@ + b;
    let la = a.len() as int;
    let n = w.len() as int;
    assert(n == la + 1 + b.len());
    assert forall|k: int| 0 <= k < la implies #[trigger] w[k] == a[k] by {}
    assert(w[la] == '/');
    assert forall|k: int| la < k < n implies #[trigger] w[k] == b[k - la - 1] by {}
    assert forall|k: int| 0 <= k < n implies #[trigger] w[k] != '$' && w[k] != ',' && !is_ws(w[k]) by {
        if k < la {
            assert('0' <= a[k] <= '9');
        } else if k > la {
            assert('0' <= b[k - la - 1] <= '9');
        }
    }
    // cleaning leaves the answer as it is
    assert(!is_ws(w[0]));
    assert(trim_start(w) == w);
    assert(!is_ws(w.last()));
    assert(trim_end(w) == w);
    assert(trim(w) == w);
    assert(!starts_with(w, "x="@)) by {
        if starts_with(w, "x="@) {
            assert(w.subrange(0, 2)[0] == w[0]);
        }
    }
    assert(strip_prefix_all(w, "x="@) == w);
    assert(!starts_with(w, "x ="@)) by {
        if starts_with(w, "x ="@) {
            assert(w.subrange(0, 3)[0] == w[0]);
        }
    }
    assert(strip_prefix_all(w, "x ="@) == w);
    lemma_kept_all(w);
    assert(cleaned(w) == w);
    // the tokens are the two numbers around a slash
    lemma_run_to(w, 0, la);
    lemma_run_to(w, la + 1, n);
    assert(w.subrange(0, la) =~= a);
    assert(w.subrange(la + 1, n) =~= b);
    lemma_digits_no_dot(a);
    lemma_digits_no_dot(b);
    assert(valid_number(a));
    assert(valid_number(b));
    assert(tokens_from(w, n) == Some(Seq::<TokenView>::empty()));
    assert(is_num_char(w[la + 1]));
    assert(tokens_from(w, la + 1) == Some(seq![TokenView::Num(b)]));
    assert(tokens_from(w, la) == prepend(TokenView::Slash, tokens_from(w, la + 1)));
    assert(seq![TokenView::Slash] + seq![TokenView::Num(b)] =~= seq![TokenView::Slash, TokenView::Num(b)]);
    assert(is_num_char(w[0]));
    assert(tokens_from(w, 0) == prepend(TokenView::Num(a), tokens_from(w, la)));
    let t = seq![TokenView::Num(a), TokenView::Slash, TokenView::Num(b)];
    assert(seq![TokenView::Num(a)] + seq![TokenView::Slash, TokenView::Num(b)] =~= t);
    assert(tokens_from(w, 0) == Some(t));
    // the grammar reads them as one quotient
    let na = ExprView::Num(a);
    let nb = ExprView::Num(b);
    let q = ExprView::Div(Box::new(na), Box::new(nb));
    assert(atom(t, 0) == Some((na, 1int)));
    assert(unary(t, 0) == Some((na, 1int)));
    assert(factor(t, 0) == Some((na, 1int)));
    assert(atom(t, 2) == Some((nb, 3int)));
    assert(unary(t, 2) == Some((nb, 3int)));
    assert(factor(t, 2) == Some((nb, 3int)));
    assert(term_tail(t, q, 3) == Some((q, 3int)));
    assert(term_tail(t, na, 1) == Some((q, 3int)));
    assert(term(t, 0) == Some((q, 3int)));
    assert(expr_tail(t, q, 3) == Some((q, 3int)));
    assert(expr(t, 0) == Some((q, 3int)));
}

/// The binary operator a character writes, and the tree it builds.
pub open spec fn op_token(op: char) -> TokenView {
    if op == '+' {
        TokenView::Plus
    } else if op == '-' {
        TokenView::Minus
    } else if op == '*' {
        TokenView::Star
    } else if op == '/' {
        TokenView::Slash
    } else {
        TokenView::Caret
    }
}

/// Every binary operation between two written numbers keeps its operands in
/// the order written: `a+b`, `a-b`, `a*b`, `a/b` and `a^b` read as the sum,
/// difference, product, quotient and power with `a` first and `b` second.
pub proof fn lemma_binary_operands_in_order(a: Seq<char>, op: char, b: Seq<char>)
    requires
        is_digits(a),
        is_digits(b),
        op == '+' || op == '-' || op == '*' || op == '/' || op == '^',
    ensures
        math_parse(a + seq![op] + b) == Some(
            {
                let x = Box::new(ExprView::Num(a));
                let y = Box::new(ExprView::Num(b));
                if op == '+' {
                    ExprView::Add(x, y)
                } else if op == '-' {
                    ExprView::Sub(x, y)
                } else if op == '*' {
                    ExprView::Mul(x, y)
                } else if op == '/' {
                    ExprView::Div(x, y)
                } else {
                    ExprView::Pow(x, y)
                }
            },
        ),
{
    reveal_strlit("x=");
    reveal_strlit("x =");
    let w = a + seq![op] + b;
    let la = a.len() as int;
    let n = w.len() as int;
    assert(n == la + 1 + b.len());
    assert forall|k: int| 0 <= k < la implies #[trigger] w[k] == a[k] by {}
    assert(w[la] == op);
    assert forall|k: int| la < k < n implies #[trigger] w[k] == b[k - la - 1] by {}
    assert forall|k: int| 0 <= k < n implies #[trigger] w[k] != '$' && w[k] != ',' && !is_ws(w[k]) by {
        if k < la {
            assert('0' <= a[k] <= '9');
        } else if k > la {
            assert('0' <= b[k - la - 1] <= '9');
        }
    }
    assert(!is_ws(w[0]));
    assert(trim_start(w) == w);
    assert(!is_ws(w.last()));
    assert(trim_end(w) == w);
    assert(trim(w) == w);
    assert(!starts_with(w, "x="@)) by {
        if starts_with(w, "x="@) {
            assert(w.subrange(0, 2)[0] == w[0]);
        }
    }
    assert(strip_prefix_all(w, "x="@) == w);
    assert(!starts_with(w, "x ="@)) by {
        if starts_with(w, "x ="@) {
            assert(w.subrange(0, 3)[0] == w[0]);
        }
    }
    assert(strip_prefix_all(w, "x ="@) == w);
    lemma_kept_all(w);
    assert(cleaned(w) == w);
    lemma_run_to(w, 0, la);
    lemma_run_to(w, la + 1, n);
    assert(w.subrange(0, la) =~= a);
    assert(w.subrange(la + 1, n) =~= b);
    lemma_digits_no_dot(a);
    lemma_digits_no_dot(b);
    assert(valid_number(a));
    assert(valid_number(b));
    assert(tokens_from(w, n) == Some(Seq::<TokenView>::empty()));
    assert(is_num_char(w[la + 1]));
    assert(tokens_from(w, la + 1) == Some(seq![TokenView::Num(b)]));
    let o = op_token(op);
    assert(tokens_from(w, la) == prepend(o, tokens_from(w, la + 1)));
    assert(seq![o] + seq![TokenView::Num(b)] =~= seq![o, TokenView::Num(b)]);
    assert(is_num_char(w[0]));
    assert(tokens_from(w, 0) == prepend(TokenView::Num(a), tokens_from(w, la)));
    let t = seq![TokenView::Num(a), o, TokenView::Num(b)];
    assert(seq![TokenView::Num(a)] + seq![o, TokenView::Num(b)] =~= t);
    assert(tokens_from(w, 0) == Some(t));
    let na = ExprView::Num(a);
    let nb = ExprView::Num(b);
    assert(atom(t, 0) == Some((na, 1int)));
    assert(unary(t, 0) == Some((na, 1int)));
    assert(atom(t, 2) == Some((nb, 3int)));
    assert(unary(t, 2) == Some((nb, 3int)));
    assert(factor(t, 2) == Some((nb, 3int)));
    if op == '^' {
        let v = ExprView::Pow(Box::new(na), Box::new(nb));
        assert(factor(t, 0) == Some((v, 3int)));
        assert(term_tail(t, v, 3) == Some((v, 3int)));
        assert(term(t, 0) == Some((v, 3int)));
        assert(expr_tail(t, v, 3) == Some((v, 3int)));
        assert(expr(t, 0) == Some((v, 3int)));
    } else if op == '*' || op == '/' {
        assert(factor(t, 0) == Some((na, 1int)));
        let v = if op == '*' {
            ExprView::Mul(Box::new(na), Box::new(nb))
        } else {
            ExprView::Div(Box::new(na), Box::new(nb))
        };
        assert(term_tail(t, v, 3) == Some((v, 3int)));
        assert(term_tail(t, na, 1) == Some((v, 3int)));
        assert(term(t, 0) == Some((v, 3int)));
        assert(expr_tail(t, v, 3) == Some((v, 3int)));
        assert(expr(t, 0) == Some((v, 3int)));
    } else {
        assert(factor(t, 0) == Some((na, 1int)));
        assert(term_tail(t, na, 1) == Some((na, 1int)));
        assert(term(t, 0) == Some((na, 1int)));
        assert(term_tail(t, nb, 3) == Some((nb, 3int)));
        assert(term(t, 2) == Some((nb, 3int)));
        let v = if op == '+' {
            ExprView::Add(Box::new(na), Box::new(nb))
        } else {
            ExprView::Sub(Box::new(na), Box::new(nb))
        };
        assert(expr_tail(t, v, 3) == Some((v, 3int)));
        assert(expr_tail(t, na, 1) == Some((v, 3int)));
        assert(expr(t, 0) == Some((v, 3int)));
    }
}

} // verus!
