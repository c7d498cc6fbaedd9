//! Shared string utilities: the user-facing internal-error message, XML
//! escaping for prompt interpolation, and sanitizing of model-emitted
//! error-pattern labels.

use vstd::prelude::*;

use crate::text::{chars_of, concat2, is_whitespace, is_ws, push_str, string_of};

verus! {

/// The user-facing message for a failed internal action: "could not {action}".
/// The low-level detail never reaches the message (callers log it).
pub fn internal_error(action: &str, detail: &str) -> (r: String)
    ensures
        r@ == "could not "@ + action@,
{
    concat2("could not ", action)
}

/// The escaped form of one character.
pub open spec fn escape_char(c: char) -> Seq<char> {
    if c == '&' {
        "&amp;"@
    } else if c == '<' {
        "&lt;"@
    } else if c == '>' {
        "&gt;"@
    } else if c == '"' {
        "&quot;"@
    } else if c == '\'' {
        "&apos;"@
    } else {
        seq![c]
    }
}

/// `s` with the five XML special characters replaced by their entities.
pub open spec fn xml_escaped(s: Seq<char>) -> Seq<char>
    decreases s.len(),
{
    if s.len() == 0 {
        Seq::empty()
    } else {
        xml_escaped(s.drop_last()) + escape_char(s.last())
    }
}

/// A character that would open or close markup, or delimit an attribute.
pub open spec fn is_markup_char(c: char) -> bool {
    c == '<' || c == '>' || c == '"' || c == '\''
}

proof fn lemma_escape_char_clean(c: char)
    ensures
        forall|i: int| 0 <= i < escape_char(c).len() ==> !is_markup_char(#[trigger] escape_char(c)[i]),
{
    reveal_strlit("&amp;");
    reveal_strlit("&lt;");
    reveal_strlit("&gt;");
    reveal_strlit("&quot;");
    reveal_strlit("&apos;");
}

/// Escape a string for safe interpolation into the XML-tagged prompt.
pub fn xml_escape(s: &str) -> (r: String)
    ensures
        r@ == xml_escaped(s@),
        forall|i: int| 0 <= i < r@.len() ==> !is_markup_char(#[trigger] r@[i]),
{
    let cs = chars_of(s);
    let mut out: Vec<char> = Vec::new();
    let mut i: usize = 0;
    while i < cs.len()
        invariant
            i <= cs@.len(),
            out@ == xml_escaped(cs@.take(i as int)),
            forall|j: int| 0 <= j < out@.len() ==> !is_markup_char(#[trigger] out@[j]),
        decreases cs.len() - i,
    {
        let c = cs[i];
        let ghost before = out@;
        if c == '&' {
            push_str(&mut out, "&amp;");
        } else if c == '<' {
            push_str(&mut out, "&lt;");
        } else if c == '>' {
            push_str(&mut out, "&gt;");
        } else if c == '"' {
            push_str(&mut out, "&quot;");
        } else if c == '\'' {
            push_str(&mut out, "&apos;");
        } else {
            out.push(c);
        }
        proof {
            assert(out@ == before + escape_char(c));
            lemma_escape_char_clean(c);
            assert forall|j: int| 0 <= j < out@.len() implies !is_markup_char(#[trigger] out@[j]) by {
                if j >= before.len() {
                    assert(out@[j] == escape_char(c)[j - before.len()]);
                }
            }
            assert(cs@.take(i + 1).drop_last() =~= cs@.take(i as int));
        }
        i = i + 1;
    }
    proof {
        assert(cs@.take(cs@.len() as int) =~= cs@);
    }
    string_of(out.as_slice())
}

/// Escaped text holds no markup character, whatever it was made from.
pub proof fn lemma_escaped_markup_free(s: Seq<char>)
    ensures
        forall|i: int| 0 <= i < xml_escaped(s).len() ==> !is_markup_char(#[trigger] xml_escaped(s)[i]),
    decreases s.len(),
{
    if s.len() > 0 {
        lemma_escaped_markup_free(s.drop_last());
        lemma_escape_char_clean(s.last());
        let a = xml_escaped(s.drop_last());
        let e = escape_char(s.last());
        assert forall|i: int| 0 <= i < xml_escaped(s).len() implies !is_markup_char(#[trigger] xml_escaped(s)[i]) by {
            if i >= a.len() {
                assert(xml_escaped(s)[i] == e[i - a.len()]);
            } else {
                assert(xml_escaped(s)[i] == a[i]);
            }
        }
    }
}

/// Undo XML escaping in one left-to-right pass: each of `&lt;` `&gt;`
/// `&quot;` `&apos;` `&amp;` becomes its character; everything else stays.
pub open spec fn xml_unescaped(t: Seq<char>) -> Seq<char>
    decreases t.len(),
{
    if t.len() == 0 {
        Seq::empty()
    } else if t.len() >= 4 && t.take(4) == "&lt;"@ {
        seq!['<'] + xml_unescaped(t.skip(4))
    } else if t.len() >= 4 && t.take(4) == "&gt;"@ {
        seq!['>'] + xml_unescaped(t.skip(4))
    } else if t.len() >= 6 && t.take(6) == "&quot;"@ {
        seq!['"'] + xml_unescaped(t.skip(6))
    } else if t.len() >= 6 && t.take(6) == "&apos;"@ {
        seq!['\''] + xml_unescaped(t.skip(6))
    } else if t.len() >= 5 && t.take(5) == "&amp;"@ {
        seq!['&'] + xml_unescaped(t.skip(5))
    } else {
        seq![t[0]] + xml_unescaped(t.drop_first())
    }
}

/// One of the five characters escaping replaces.
pub open spec fn is_xml_special(c: char) -> bool {
    c == '&' || is_markup_char(c)
}

proof fn lemma_escaped_append(a: Seq<char>, b: Seq<char>)
    ensures
        xml_escaped(a + b) == xml_escaped(a) + xml_escaped(b),
    decreases b.len(),
{
    if b.len() == 0 {
        assert(a + b =~= a);
        assert(xml_escaped(a) + xml_escaped(b) =~= xml_escaped(a));
    } else {
        lemma_escaped_append(a, b.drop_last());
        assert((a + b).drop_last() =~= a + b.drop_last());
        assert((a + b).last() == b.last());
    }
}

proof fn lemma_unescape_one(c: char, rest: Seq<char>)
    ensures
        xml_unescaped(escape_char(c) + rest) == seq![c] + xml_unescaped(rest),
{
    reveal_strlit("&amp;");
    reveal_strlit("&lt;");
    reveal_strlit("&gt;");
    reveal_strlit("&quot;");
    reveal_strlit("&apos;");
    let t = escape_char(c) + rest;
    let n = escape_char(c).len() as int;
    assert(t.take(n) =~= escape_char(c));
    assert(t.skip(n) =~= rest);
    if c == '&' {
        assert(t.take(4) != "&lt;"@ && t.take(4) != "&gt;"@) by {
            assert(t.take(4)[1] == 'a');
        }
        if t.len() >= 6 {
            assert(t[2] == 'm');
            assert(t.take(6)[2] == t[2]);
            assert(t.take(6) != "&quot;"@ && t.take(6) != "&apos;"@);
        }
    } else if c == '<' {
    } else if c == '>' {
        assert(t.take(4) != "&lt;"@) by {
            assert(t.take(4)[1] == 'g');
        }
    } else if c == '"' {
        assert(t.take(4) != "&lt;"@ && t.take(4) != "&gt;"@) by {
            assert(t.take(4)[1] == 'q');
        }
    } else if c == '\'' {
        assert(t.take(4) != "&lt;"@ && t.take(4) != "&gt;"@) by {
            assert(t.take(4)[1] == 'a');
        }
        assert(t.take(6) != "&quot;"@) by {
            assert(t.take(6)[1] == 'a');
        }
    } else {
        assert(t[0] == c);
        assert(t.drop_first() =~= rest);
        if t.len() >= 4 {
            assert(t.take(4)[0] == c);
        }
        if t.len() >= 5 {
            assert(t.take(5)[0] == c);
        }
        if t.len() >= 6 {
            assert(t.take(6)[0] == c);
        }
    }
}

/// Escaping loses nothing: unescaping the escaped text gives the text back.
pub proof fn lemma_unescape_inverts_escape(s: Seq<char>)
    ensures
        xml_unescaped(xml_escaped(s)) == s,
    decreases s.len(),
{
    if s.len() > 0 {
        let c = s[0];
        let rest = s.drop_first();
        assert(s =~= seq![c] + rest);
        lemma_escaped_append(seq![c], rest);
        assert(seq![c].drop_last() =~= Seq::<char>::empty());
        assert(xml_escaped(Seq::<char>::empty()) =~= Seq::<char>::empty());
        assert(xml_escaped(seq![c]) == xml_escaped(seq![c].drop_last()) + escape_char(c));
        assert(xml_escaped(seq![c]) =~= escape_char(c));
        lemma_unescape_one(c, xml_escaped(rest));
        lemma_unescape_inverts_escape(rest);
        assert(seq![c] + rest =~= s);
    } else {
        assert(xml_escaped(s) =~= Seq::<char>::empty());
        assert(s =~= Seq::<char>::empty());
    }
}

/// Text holding none of the five special characters is left as it is.
pub proof fn lemma_escape_keeps_plain_text(s: Seq<char>)
    requires
        forall|i: int| 0 <= i < s.len() ==> !is_xml_special(#[trigger] s[i]),
    ensures
        xml_escaped(s) == s,
    decreases s.len(),
{
    if s.len() > 0 {
        lemma_escape_keeps_plain_text(s.drop_last());
        assert(!is_xml_special(s[s.len() - 1]));
        assert(s.drop_last().push(s.last()) =~= s);
        assert(escape_char(s.last()) =~= seq![s.last()]);
        assert(s.drop_last() + seq![s.last()] =~= s);
    } else {
        assert(xml_escaped(s) =~= s);
    }
}

/// Max stored length for a grader-emitted error-pattern label.
pub const MAX_ERROR_PATTERN_LEN: usize = 120;

/// Markup and code carriers stripped from error-pattern labels.
pub open spec fn is_carrier(c: char) -> bool {
    c == '<' || c == '>' || c == '`'
}

/// Carriers dropped and every whitespace character turned into a space.
pub open spec fn cleaned(s: Seq<char>) -> Seq<char>
    decreases s.len(),
{
    if s.len() == 0 {
        Seq::empty()
    } else {
        let c = s.last();
        if is_carrier(c) {
            cleaned(s.drop_last())
        } else if is_ws(c) {
            cleaned(s.drop_last()).push(' ')
        } else {
            cleaned(s.drop_last()).push(c)
        }
    }
}

/// Words of `s` (split at whitespace) joined by single spaces, built from the
/// left: the output so far, and whether a separator is owed before the next word.
pub open spec fn squeezed(s: Seq<char>) -> (Seq<char>, bool)
    decreases s.len(),
{
    if s.len() == 0 {
        (Seq::empty(), false)
    } else {
        let (o, pending) = squeezed(s.drop_last());
        let c = s.last();
        if is_ws(c) {
            (o, o.len() > 0)
        } else if pending {
            (o.push(' ').push(c), false)
        } else {
            (o.push(c), false)
        }
    }
}

/// The sanitized label: carriers stripped, whitespace runs folded to single
/// spaces, trimmed, and capped at `MAX_ERROR_PATTERN_LEN` characters.
pub open spec fn sanitized(s: Seq<char>) -> Seq<char> {
    let w = squeezed(cleaned(s)).0;
    if w.len() <= MAX_ERROR_PATTERN_LEN {
        w
    } else {
        w.take(MAX_ERROR_PATTERN_LEN as int)
    }
}

/// Sanitize a model-emitted error-pattern label before it is stored or
/// re-embedded in a prompt.
pub fn sanitize_error_pattern(s: &str) -> (r: String)
    ensures
        r@ == sanitized(s@),
        r@.len() <= MAX_ERROR_PATTERN_LEN,
        forall|i: int|
            0 <= i < r@.len() ==> !is_carrier(#[trigger] r@[i]) && (is_ws(r@[i]) ==> r@[i] == ' '),
{
    let cs = chars_of(s);
    // Pass 1: strip carriers, turn whitespace into spaces.
    let mut cl: Vec<char> = Vec::new();
    let mut i: usize = 0;
    while i < cs.len()
        invariant
            i <= cs@.len(),
            cl@ == cleaned(cs@.take(i as int)),
            forall|j: int|
                0 <= j < cl@.len() ==> !is_carrier(#[trigger] cl@[j]) && (is_ws(cl@[j]) ==> cl@[j]
                    == ' '),
        decreases cs.len() - i,
    {
        let c = cs[i];
        proof {
            assert(cs@.take(i + 1).drop_last() =~= cs@.take(i as int));
            assert(cs@.take(i + 1).last() == c);
        }
        if c == '<' || c == '>' || c == '`' {
        } else if is_whitespace(c) {
            cl.push(' ');
        } else {
            cl.push(c);
        }
        i = i + 1;
    }
    proof {
        assert(cs@.take(cs@.len() as int) =~= cs@);
    }
    // Pass 2: fold whitespace runs, trim.
    let mut out: Vec<char> = Vec::new();
    let mut pending = false;
    let mut k: usize = 0;
    while k < cl.len()
        invariant
            k <= cl@.len(),
            (out@, pending) == squeezed(cl@.take(k as int)),
            forall|j: int|
                0 <= j < cl@.len() ==> !is_carrier(#[trigger] cl@[j]) && (is_ws(cl@[j]) ==> cl@[j]
                    == ' '),
            forall|j: int|
                0 <= j < out@.len() ==> !is_carrier(#[trigger] out@[j]) && (is_ws(out@[j])
                    ==> out@[j] == ' '),
        decreases cl.len() - k,
    {
        let c = cl[k];
        proof {
            assert(cl@.take(k + 1).drop_last() =~= cl@.take(k as int));
            assert(cl@.take(k + 1).last() == c);
        }
        if is_whitespace(c) {
            pending = out.len() > 0;
        } else {
            if pending {
                out.push(' ');
            }
            out.push(c);
            pending = false;
        }
        k = k + 1;
    }
    proof {
        assert(cl@.take(cl@.len() as int) =~= cl@);
    }
    // Pass 3: cap the length.
    if out.len() > MAX_ERROR_PATTERN_LEN {
        out.truncate(MAX_ERROR_PATTERN_LEN);
    }
    string_of(out.as_slice())
}

/// No markup or code carrier, and no whitespace but the plain space.
pub open spec fn clean_text(s: Seq<char>) -> bool {
    forall|j: int| 0 <= j < s.len() ==> !is_carrier(#[trigger] s[j]) && (is_ws(s[j]) ==> s[j] == ' ')
}

proof fn lemma_cleaned_clean(s: Seq<char>)
    ensures
        clean_text(cleaned(s)),
    decreases s.len(),
{
    if s.len() > 0 {
        lemma_cleaned_clean(s.drop_last());
        reveal_strlit(" ");
    }
}

proof fn lemma_squeezed_clean(s: Seq<char>)
    requires
        clean_text(s),
    ensures
        clean_text(squeezed(s).0),
    decreases s.len(),
{
    if s.len() > 0 {
        let t = s.drop_last();
        assert forall|j: int| 0 <= j < t.len() implies !is_carrier(#[trigger] t[j]) && (is_ws(t[j])
            ==> t[j] == ' ') by {
            assert(t[j] == s[j]);
        }
        lemma_squeezed_clean(t);
        assert(s.last() == s[s.len() - 1]);
    }
}

/// A sanitized label is clean whatever it was made from.
pub proof fn lemma_sanitized_clean(s: Seq<char>)
    ensures
        clean_text(sanitized(s)),
        sanitized(s).len() <= MAX_ERROR_PATTERN_LEN,
{
    lemma_cleaned_clean(s);
    lemma_squeezed_clean(cleaned(s));
}

} // verus!
