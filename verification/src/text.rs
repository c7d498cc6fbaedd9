//! Character-level text helpers shared by the whole library.
//!
//! Strings are handled as sequences of `char`: a `&str` is turned into a
//! `Vec<char>` once, the logic works on indices, and the result is turned back
//! into a `String`. Every helper states its result over `Seq<char>`.

use vstd::prelude::*;

verus! {

/// The characters of `s`, in order (std `str::chars`).
#[verifier::external_body]
pub(crate) fn chars_of(s: &str) -> (v: Vec<char>)
    ensures
        v@ == s@,
{
    s.chars().collect()
}

/// A `String` holding exactly the characters of `v` (std `FromIterator<&char>`).
#[verifier::external_body]
pub(crate) fn string_of(v: &[char]) -> (s: String)
    ensures
        s@ == v@,
{
    v.iter().collect()
}

/// An owned copy of a string slice.
pub fn owned(s: &str) -> (r: String)
    ensures
        r@ == s@,
{
    s.to_owned()
}

/// The Unicode `White_Space` property, as std's `char::is_whitespace` documents it.
pub open spec fn is_ws(c: char) -> bool {
    let u = c as u32;
    ||| 9 <= u <= 13
    ||| u == 32
    ||| u == 0x85
    ||| u == 0xA0
    ||| u == 0x1680
    ||| 0x2000 <= u <= 0x200A
    ||| u == 0x2028
    ||| u == 0x2029
    ||| u == 0x202F
    ||| u == 0x205F
    ||| u == 0x3000
}

/// `char::is_whitespace`.
pub fn is_whitespace(c: char) -> (b: bool)
    ensures
        b == is_ws(c),
{
    let u = c as u32;
    (9 <= u && u <= 13) || u == 32 || u == 0x85 || u == 0xA0 || u == 0x1680 || (0x2000 <= u
        && u <= 0x200A) || u == 0x2028 || u == 0x2029 || u == 0x202F || u == 0x205F || u == 0x3000
}

/// Leading whitespace removed (`str::trim_start`).
pub open spec fn trim_start(s: Seq<char>) -> Seq<char>
    decreases s.len(),
{
    if s.len() > 0 && is_ws(s[0]) {
        trim_start(s.drop_first())
    } else {
        s
    }
}

/// Trailing whitespace removed (`str::trim_end`).
pub open spec fn trim_end(s: Seq<char>) -> Seq<char>
    decreases s.len(),
{
    if s.len() > 0 && is_ws(s.last()) {
        trim_end(s.drop_last())
    } else {
        s
    }
}

/// Whitespace removed at both ends (`str::trim`).
pub open spec fn trim(s: Seq<char>) -> Seq<char> {
    trim_end(trim_start(s))
}

/// The index of the first non-whitespace character of `v[from..]`, counted from 0.
pub fn skip_ws_front(v: &Vec<char>) -> (i: usize)
    ensures
        i <= v.len(),
        trim_start(v@) == v@.subrange(i as int, v.len() as int),
{
    let mut i: usize = 0;
    assert(v@.subrange(0, v.len() as int) =~= v@);
    while i < v.len() && is_whitespace(v[i])
        invariant
            i <= v.len(),
            trim_start(v@) == trim_start(v@.subrange(i as int, v.len() as int)),
        decreases v.len() - i,
    {
        assert(v@.subrange(i as int, v.len() as int).drop_first() =~= v@.subrange(
            i + 1,
            v.len() as int,
        ));
        i = i + 1;
    }
    i
}

/// `s.subrange(a, b)` with trailing whitespace removed is `s.subrange(a, e)`.
pub fn skip_ws_back(v: &Vec<char>, a: usize) -> (e: usize)
    requires
        a <= v.len(),
    ensures
        a <= e <= v.len(),
        trim_end(v@.subrange(a as int, v.len() as int)) == v@.subrange(a as int, e as int),
{
    let mut e: usize = v.len();
    while e > a && is_whitespace(v[e - 1])
        invariant
            a <= e <= v.len(),
            trim_end(v@.subrange(a as int, v.len() as int)) == trim_end(
                v@.subrange(a as int, e as int),
            ),
        decreases e,
    {
        assert(v@.subrange(a as int, e as int).drop_last() =~= v@.subrange(
            a as int,
            e - 1,
        ));
        e = e - 1;
    }
    e
}

/// A copy of `v[a..b]`.
pub fn slice_copy(v: &Vec<char>, a: usize, b: usize) -> (r: Vec<char>)
    requires
        a <= b <= v.len(),
    ensures
        r@ == v@.subrange(a as int, b as int),
{
    let mut r: Vec<char> = Vec::new();
    let mut i = a;
    while i < b
        invariant
            a <= i <= b <= v.len(),
            r@ == v@.subrange(a as int, i as int),
        decreases b - i,
    {
        r.push(v[i]);
        i = i + 1;
        assert(r@ =~= v@.subrange(a as int, i as int));
    }
    r
}

/// The characters of `v` with whitespace removed at both ends.
pub fn trim_chars(v: &Vec<char>) -> (r: Vec<char>)
    ensures
        r@ == trim(v@),
{
    let a = skip_ws_front(v);
    let e = skip_ws_back(v, a);
    slice_copy(v, a, e)
}

/// `str::trim`, as a new `String`.
pub fn trim_str(s: &str) -> (r: String)
    ensures
        r@ == trim(s@),
{
    let v = chars_of(s);
    let t = trim_chars(&v);
    string_of(t.as_slice())
}

/// Does `t` occur in `s` starting at index `i`?
pub open spec fn occurs_at(s: Seq<char>, t: Seq<char>, i: int) -> bool {
    0 <= i && i + t.len() <= s.len() && s.subrange(i, i + t.len()) == t
}

/// Does `t` occur anywhere in `s` (`str::contains`)?
pub open spec fn contains_seq(s: Seq<char>, t: Seq<char>) -> bool {
    exists|i: int| occurs_at(s, t, i)
}

/// Is `t` a prefix of `s` (`str::starts_with`)?
pub open spec fn starts_with(s: Seq<char>, t: Seq<char>) -> bool {
    occurs_at(s, t, 0)
}

/// Is `t` a suffix of `s` (`str::ends_with`)?
pub open spec fn ends_with(s: Seq<char>, t: Seq<char>) -> bool {
    occurs_at(s, t, s.len() - t.len())
}

/// Whether `t` occurs in `s` at `i`, decided by comparing characters.
pub fn matches_at(s: &Vec<char>, t: &Vec<char>, i: usize) -> (b: bool)
    ensures
        b == occurs_at(s@, t@, i as int),
{
    if i > s.len() || t.len() > s.len() - i {
        return false;
    }
    let mut k: usize = 0;
    while k < t.len()
        invariant
            i + t.len() <= s.len(),
            k <= t.len(),
            forall|j: int| 0 <= j < k ==> s@[i + j] == t@[j],
        decreases t.len() - k,
    {
        if s[i + k] != t[k] {
            assert(s@.subrange(i as int, i + t.len())[k as int] != t@[k as int]);
            return false;
        }
        k = k + 1;
    }
    assert(s@.subrange(i as int, i + t.len()) =~= t@);
    true
}

/// `str::contains` over character vectors.
pub fn contains_chars(s: &Vec<char>, t: &Vec<char>) -> (b: bool)
    ensures
        b == contains_seq(s@, t@),
{
    if t.len() > s.len() {
        return false;
    }
    let lim = s.len() - t.len();
    let mut i: usize = 0;
    loop
        invariant
            t.len() <= s.len(),
            lim == s.len() - t.len(),
            i <= lim,
            forall|j: int| 0 <= j < i ==> !occurs_at(s@, t@, j),
        ensures
            forall|j: int| 0 <= j <= lim ==> !occurs_at(s@, t@, j),
        decreases lim - i,
    {
        if matches_at(s, t, i) {
            return true;
        }
        if i == lim {
            break;
        }
        i = i + 1;
    }
    assert forall|j: int| !occurs_at(s@, t@, j) by {
        if 0 <= j && j + t@.len() <= s@.len() {
            assert(j <= lim);
        }
    }
    false
}

/// `str::contains` on string slices.
pub fn str_contains(s: &str, t: &str) -> (b: bool)
    ensures
        b == contains_seq(s@, t@),
{
    let sv = chars_of(s);
    let tv = chars_of(t);
    contains_chars(&sv, &tv)
}

/// `str::starts_with` on string slices.
pub fn str_starts_with(s: &str, t: &str) -> (b: bool)
    ensures
        b == starts_with(s@, t@),
{
    let sv = chars_of(s);
    let tv = chars_of(t);
    matches_at(&sv, &tv, 0)
}

/// `==` on string slices.
pub fn str_eq(a: &str, b: &str) -> (r: bool)
    ensures
        r == (a@ == b@),
{
    let av = chars_of(a);
    let bv = chars_of(b);
    assert(av@.subrange(0, av@.len() as int) =~= av@);
    av.len() == bv.len() && matches_at(&av, &bv, 0)
}

/// `s` followed by `t`, as a new `String`.
pub fn concat2(s: &str, t: &str) -> (r: String)
    ensures
        r@ == s@ + t@,
{
    let mut v = chars_of(s);
    let mut w = chars_of(t);
    v.append(&mut w);
    string_of(v.as_slice())
}

/// Append all of `t` to the character buffer `v`.
pub fn push_str(v: &mut Vec<char>, t: &str)
    ensures
        final(v)@ == old(v)@ + t@,
{
    let mut w = chars_of(t);
    v.append(&mut w);
}

/// The character of the decimal digit `d`.
pub open spec fn digit_char(d: int) -> char {
    ((d + 48) as u32) as char
}

/// The decimal digits of a natural number (no sign, no leading zeros).
pub open spec fn digits_nat(n: nat) -> Seq<char>
    decreases n,
{
    if n < 10 {
        seq![digit_char(n as int)]
    } else {
        digits_nat(n / 10).push(digit_char((n % 10) as int))
    }
}

/// The decimal rendering of an integer, as `{}` formats it.
pub open spec fn decimal(n: int) -> Seq<char> {
    if n < 0 {
        seq!['-'] + digits_nat((-n) as nat)
    } else {
        digits_nat(n as nat)
    }
}

/// Append the decimal digits of `n`.
pub fn push_digits(v: &mut Vec<char>, n: u64)
    ensures
        final(v)@ == old(v)@ + digits_nat(n as nat),
    decreases n,
{
    if n >= 10 {
        push_digits(v, n / 10);
    }
    let d = (n % 10) as u32;
    let c = char_of_digit(d);
    v.push(c);
    assert(final(v)@ =~= old(v)@ + digits_nat(n as nat)) by {
        if n >= 10 {
            assert(digits_nat(n as nat) == digits_nat((n / 10) as nat).push(
                digit_char((n % 10) as int),
            ));
        }
    }
}

/// The character of the decimal digit `d`.
fn char_of_digit(d: u32) -> (c: char)
    requires
        d < 10,
    ensures
        c == digit_char(d as int),
{
    if d == 0 {
        '0'
    } else if d == 1 {
        '1'
    } else if d == 2 {
        '2'
    } else if d == 3 {
        '3'
    } else if d == 4 {
        '4'
    } else if d == 5 {
        '5'
    } else if d == 6 {
        '6'
    } else if d == 7 {
        '7'
    } else if d == 8 {
        '8'
    } else {
        '9'
    }
}

/// Append the decimal rendering of `n`.
pub fn push_i64(v: &mut Vec<char>, n: i64)
    ensures
        final(v)@ == old(v)@ + decimal(n as int),
{
    if n < 0 {
        v.push('-');
        let m: u64 = if n == i64::MIN {
            9223372036854775808u64
        } else {
            (-n) as u64
        };
        push_digits(v, m);
        assert(final(v)@ =~= old(v)@ + decimal(n as int));
    } else {
        push_digits(v, n as u64);
    }
}

/// The decimal rendering of `n` (`i64::to_string`).
pub fn i64_to_string(n: i64) -> (r: String)
    ensures
        r@ == decimal(n as int),
{
    let mut v: Vec<char> = Vec::new();
    push_i64(&mut v, n);
    assert(v@ =~= decimal(n as int));
    string_of(v.as_slice())
}

/// How `{:?}` renders a string: quoted, with std's escapes.
pub uninterp spec fn debug_str(s: Seq<char>) -> Seq<char>;

/// `format!("{:?}", s)` (std's `Debug` for `str`).
#[verifier::external_body]
pub(crate) fn debug_quoted(s: &str) -> (r: String)
    ensures
        r@ == debug_str(s@),
{
    format!("{s:?}")
}

// ---- Lexicographic order ----

/// `a` sorts strictly before `b` (code-point lexicographic order, which is the
/// byte order of their UTF-8 encodings and so `str`'s `Ord`).
pub open spec fn lex_lt(a: Seq<char>, b: Seq<char>) -> bool
    decreases a.len(),
{
    if a.len() == 0 {
        b.len() > 0
    } else if b.len() == 0 {
        false
    } else if a[0] != b[0] {
        (a[0] as int) < (b[0] as int)
    } else {
        lex_lt(a.drop_first(), b.drop_first())
    }
}

pub proof fn lemma_lex_irreflexive(a: Seq<char>)
    ensures
        !lex_lt(a, a),
    decreases a.len(),
{
    if a.len() > 0 {
        lemma_lex_irreflexive(a.drop_first());
    }
}

pub proof fn lemma_lex_total(a: Seq<char>, b: Seq<char>)
    ensures
        a == b || lex_lt(a, b) || lex_lt(b, a),
    decreases a.len(),
{
    if a.len() > 0 && b.len() > 0 && a[0] == b[0] {
        lemma_lex_total(a.drop_first(), b.drop_first());
        if a.drop_first() == b.drop_first() {
            assert(a =~= seq![a[0]] + a.drop_first());
            assert(b =~= seq![b[0]] + b.drop_first());
        }
    } else if a.len() > 0 && b.len() > 0 {
        assert((a[0] as int) != (b[0] as int));
    } else if a.len() == 0 && b.len() == 0 {
        assert(a =~= b);
    }
}

pub proof fn lemma_lex_asymmetric(a: Seq<char>, b: Seq<char>)
    requires
        lex_lt(a, b),
    ensures
        !lex_lt(b, a),
    decreases a.len(),
{
    if a.len() > 0 && b.len() > 0 && a[0] == b[0] {
        lemma_lex_asymmetric(a.drop_first(), b.drop_first());
    }
}

pub proof fn lemma_lex_transitive(a: Seq<char>, b: Seq<char>, c: Seq<char>)
    requires
        lex_lt(a, b),
        lex_lt(b, c),
    ensures
        lex_lt(a, c),
    decreases a.len(),
{
    if a.len() > 0 && b.len() > 0 && c.len() > 0 && a[0] == b[0] && b[0] == c[0] {
        lemma_lex_transitive(a.drop_first(), b.drop_first(), c.drop_first());
    }
}

/// Whether `a` sorts strictly before `b`.
pub fn str_less(a: &str, b: &str) -> (r: bool)
    ensures
        r == lex_lt(a@, b@),
{
    let av = chars_of(a);
    let bv = chars_of(b);
    let mut i: usize = 0;
    assert(a@.skip(0) =~= a@);
    assert(b@.skip(0) =~= b@);
    while i < av.len() && i < bv.len() && av[i] == bv[i]
        invariant
            av@ == a@,
            bv@ == b@,
            i <= av@.len(),
            i <= bv@.len(),
            lex_lt(a@, b@) == lex_lt(a@.skip(i as int), b@.skip(i as int)),
        decreases av.len() - i,
    {
        assert(a@.skip(i as int).drop_first() =~= a@.skip(i + 1));
        assert(b@.skip(i as int).drop_first() =~= b@.skip(i + 1));
        i = i + 1;
    }
    if i == av.len() {
        i < bv.len()
    } else if i == bv.len() {
        false
    } else {
        assert(a@.skip(i as int)[0] == av@[i as int]);
        assert(b@.skip(i as int)[0] == bv@[i as int]);
        av[i] < bv[i]
    }
}

} // verus!
