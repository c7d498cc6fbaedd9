//! The tag structure of the tutor prompt. Every interpolated field is escaped
//! and so carries no angle bracket; the only tags in a prompt are those the
//! layout writes. Hence, whatever the fields hold, a prompt has exactly one
//! `<mode>` tag, a `<strategy>` tag only on an explain turn with a strategy,
//! and a `<user_input>` tag only when there is non-blank input.

use vstd::prelude::*;

use crate::contract::strings_view;
use crate::prompt::{
    concept_block, learner_block, mode_tag, strategy_tag, tagged, tagged_lines, user_message,
    ConceptContext, LearnerContext, Mode, Strategy,
};
use crate::text::{decimal, digit_char, digits_nat, trim};
use crate::util::{is_markup_char, lemma_escaped_markup_free, xml_escaped};

verus! {

// ---- Occurrences of a tag in a text ----

/// How many times `p` occurs in `s`, counted by where each occurrence ends.
pub open spec fn occurrences(s: Seq<char>, p: Seq<char>) -> nat
    decreases s.len(),
{
    if s.len() == 0 {
        0
    } else {
        occurrences(s.drop_last(), p) + if p.len() > 0 && p.len() <= s.len() && s.subrange(
            s.len() - p.len(),
            s.len() as int,
        ) == p {
            1nat
        } else {
            0nat
        }
    }
}

/// `s` holds neither `<` nor `>`.
pub open spec fn angle_free(s: Seq<char>) -> bool {
    forall|i: int| 0 <= i < s.len() ==> #[trigger] s[i] != '<' && s[i] != '>'
}

/// A tag: `<`, then text without angle brackets, then `>`.
pub open spec fn is_tag(t: Seq<char>) -> bool {
    &&& t.len() >= 2
    &&& t[0] == '<'
    &&& t[t.len() - 1] == '>'
    &&& forall|i: int| 0 < i < t.len() - 1 ==> #[trigger] t[i] != '<' && t[i] != '>'
}

/// The pieces joined in order.
pub open spec fn flatten(ps: Seq<Seq<char>>) -> Seq<char>
    decreases ps.len(),
{
    if ps.len() == 0 {
        Seq::empty()
    } else {
        flatten(ps.drop_last()) + ps.last()
    }
}

/// How many of the pieces are exactly `p`.
pub open spec fn count_of(ps: Seq<Seq<char>>, p: Seq<char>) -> nat
    decreases ps.len(),
{
    if ps.len() == 0 {
        0
    } else {
        count_of(ps.drop_last(), p) + if ps.last() == p {
            1nat
        } else {
            0nat
        }
    }
}

/// Every piece is a whole tag or text without angle brackets.
pub open spec fn well_split(ps: Seq<Seq<char>>) -> bool {
    forall|k: int| 0 <= k < ps.len() ==> is_tag(#[trigger] ps[k]) || angle_free(ps[k])
}

proof fn lemma_occ_append_free(a: Seq<char>, b: Seq<char>, p: Seq<char>)
    requires
        angle_free(b),
        is_tag(p),
    ensures
        occurrences(a + b, p) == occurrences(a, p),
    decreases b.len(),
{
    if b.len() > 0 {
        lemma_occ_append_free(a, b.drop_last(), p);
        let s = a + b;
        assert(s.drop_last() =~= a + b.drop_last());
        assert(s[s.len() - 1] == b[b.len() - 1]);
        if p.len() <= s.len() && s.subrange(s.len() - p.len(), s.len() as int) == p {
            assert(s.subrange(s.len() - p.len(), s.len() as int)[p.len() - 1] == s[s.len() - 1]);
        }
    } else {
        assert(a + b =~= a);
    }
}

proof fn lemma_occ_tag_prefix(a: Seq<char>, t: Seq<char>, p: Seq<char>, k: int)
    requires
        is_tag(t),
        is_tag(p),
        0 <= k <= t.len(),
    ensures
        occurrences(a + t.take(k), p) == occurrences(a, p) + (if k == t.len() && t == p {
            1nat
        } else {
            0nat
        }),
    decreases k,
{
    if k == 0 {
        assert(a + t.take(0) =~= a);
    } else {
        lemma_occ_tag_prefix(a, t, p, k - 1);
        let s = a + t.take(k);
        assert(s.drop_last() =~= a + t.take(k - 1));
        assert(s[s.len() - 1] == t[k - 1]);
        if p.len() <= s.len() && s.subrange(s.len() - p.len(), s.len() as int) == p {
            let w = s.subrange(s.len() - p.len(), s.len() as int);
            assert(w[p.len() - 1] == s[s.len() - 1]);
            assert(k == t.len());
            if p.len() < t.len() {
                assert(w[0] == s[s.len() - p.len()]);
                assert(s[s.len() - p.len()] == t[t.len() - p.len()]);
            } else if p.len() > t.len() {
                let j = p.len() - t.len();
                assert(w[j] == s[s.len() - p.len() + j]);
                assert(s[s.len() - t.len()] == t[0]);
            } else {
                assert(w =~= t);
            }
        } else if k == t.len() && t == p {
            assert(s.subrange(s.len() - p.len(), s.len() as int) =~= t);
        }
    }
}

proof fn lemma_flatten_append(x: Seq<Seq<char>>, y: Seq<Seq<char>>)
    ensures
        flatten(x + y) == flatten(x) + flatten(y),
    decreases y.len(),
{
    if y.len() == 0 {
        assert(x + y =~= x);
        assert(flatten(x) + flatten(y) =~= flatten(x));
    } else {
        lemma_flatten_append(x, y.drop_last());
        assert((x + y).drop_last() =~= x + y.drop_last());
        assert((x + y).last() == y.last());
        assert(flatten(x) + flatten(y.drop_last()) + y.last() =~= flatten(x) + (flatten(y.drop_last())
            + y.last()));
    }
}

proof fn lemma_count_append(x: Seq<Seq<char>>, y: Seq<Seq<char>>, p: Seq<char>)
    ensures
        count_of(x + y, p) == count_of(x, p) + count_of(y, p),
    decreases y.len(),
{
    if y.len() == 0 {
        assert(x + y =~= x);
    } else {
        lemma_count_append(x, y.drop_last(), p);
        assert((x + y).drop_last() =~= x + y.drop_last());
        assert((x + y).last() == y.last());
    }
}

proof fn lemma_well_split_append(x: Seq<Seq<char>>, y: Seq<Seq<char>>)
    requires
        well_split(x),
        well_split(y),
    ensures
        well_split(x + y),
{
    assert forall|k: int| 0 <= k < (x + y).len() implies is_tag(#[trigger] (x + y)[k]) || angle_free(
        (x + y)[k],
    ) by {
        if k < x.len() {
            assert((x + y)[k] == x[k]);
        } else {
            assert((x + y)[k] == y[k - x.len()]);
        }
    }
}

/// In text split into whole tags and bracket-free pieces, a tag occurs
/// exactly as often as it stands as a piece.
pub proof fn lemma_occurrences_of_split(ps: Seq<Seq<char>>, p: Seq<char>)
    requires
        well_split(ps),
        is_tag(p),
    ensures
        occurrences(flatten(ps), p) == count_of(ps, p),
    decreases ps.len(),
{
    if ps.len() > 0 {
        let front = ps.drop_last();
        assert(well_split(front)) by {
            assert forall|k: int| 0 <= k < front.len() implies is_tag(#[trigger] front[k]) || angle_free(
                front[k],
            ) by {
                assert(front[k] == ps[k]);
            }
        }
        lemma_occurrences_of_split(front, p);
        let t = ps.last();
        assert(is_tag(t) || angle_free(t)) by {
            assert(t == ps[ps.len() - 1]);
        }
        if is_tag(t) {
            lemma_occ_tag_prefix(flatten(front), t, p, t.len() as int);
            assert(t.take(t.len() as int) =~= t);
        } else {
            lemma_occ_append_free(flatten(front), t, p);
            if t == p {
                assert(t[0] == '<');
            }
        }
    }
}

// ---- The prompt as pieces ----

/// The opening tag `<name>`.
pub open spec fn open_tag(name: Seq<char>) -> Seq<char> {
    "<"@ + name + ">"@
}

/// The closing tag `</name>`.
pub open spec fn close_tag(name: Seq<char>) -> Seq<char> {
    "</"@ + name + ">"@
}

/// One line of the layout: indent, `<name>`, body, `</name>`, newline.
pub open spec fn line_pieces(indent: Seq<char>, name: Seq<char>, body: Seq<char>) -> Seq<Seq<char>> {
    seq![indent, open_tag(name), body, close_tag(name), "\n"@]
}

/// One escaped line per item.
pub open spec fn items_pieces(items: Seq<Seq<char>>, indent: Seq<char>, name: Seq<char>) -> Seq<Seq<char>>
    decreases items.len(),
{
    if items.len() == 0 {
        Seq::empty()
    } else {
        items_pieces(items.drop_last(), indent, name) + line_pieces(indent, name, xml_escaped(items.last()))
    }
}

/// A bare tag line: indent, the tag, newline.
pub open spec fn bare_pieces(indent: Seq<char>, tag: Seq<char>) -> Seq<Seq<char>> {
    seq![indent, tag, "\n"@]
}

pub open spec fn concept_pieces(c: ConceptContext) -> Seq<Seq<char>> {
    bare_pieces(""@, open_tag("concept"@)) + line_pieces("  "@, "id"@, xml_escaped(c.id@)) + line_pieces(
        "  "@,
        "title"@,
        xml_escaped(c.title@),
    ) + line_pieces("  "@, "domain"@, xml_escaped(c.domain@)) + line_pieces(
        "  "@,
        "module"@,
        xml_escaped(c.module@),
    ) + line_pieces("  "@, "difficulty_tier"@, decimal(c.difficulty_tier as int)) + bare_pieces(
        "  "@,
        open_tag("learning_objectives"@),
    ) + items_pieces(strings_view(c.learning_objectives@), "    "@, "objective"@) + bare_pieces(
        "  "@,
        close_tag("learning_objectives"@),
    ) + bare_pieces("  "@, open_tag("error_patterns"@)) + items_pieces(
        strings_view(c.error_patterns@),
        "    "@,
        "pattern"@,
    ) + bare_pieces("  "@, close_tag("error_patterns"@)) + bare_pieces(""@, close_tag("concept"@))
}

pub open spec fn learner_pieces(l: LearnerContext) -> Seq<Seq<char>> {
    bare_pieces(""@, open_tag("learner_context"@)) + line_pieces(
        "  "@,
        "mastery_score"@,
        xml_escaped(l.mastery_score@),
    ) + line_pieces("  "@, "attempt_count"@, decimal(l.attempt_count as int)) + line_pieces(
        "  "@,
        "streak_correct"@,
        decimal(l.streak_correct as int),
    ) + line_pieces("  "@, "ease_factor"@, xml_escaped(l.ease_factor@)) + line_pieces(
        "  "@,
        "last_latency_ms"@,
        match l.last_latency_ms {
            Some(ms) => decimal(ms as int),
            None => "null"@,
        },
    ) + bare_pieces(""@, close_tag("learner_context"@))
}

pub open spec fn strategy_pieces(mode: Mode, strategy: Option<Strategy>) -> Seq<Seq<char>> {
    if mode == Mode::Explain && strategy is Some {
        line_pieces(""@, "strategy"@, strategy_tag(strategy->Some_0))
    } else {
        Seq::empty()
    }
}

/// There is input, and it is not blank.
pub open spec fn has_input(input: Option<Seq<char>>) -> bool {
    match input {
        Some(t) => trim(t).len() > 0,
        None => false,
    }
}

pub open spec fn input_pieces(input: Option<Seq<char>>) -> Seq<Seq<char>> {
    match input {
        Some(t) => if trim(t).len() > 0 {
            line_pieces(""@, "user_input"@, xml_escaped(t))
        } else {
            Seq::empty()
        },
        None => Seq::empty(),
    }
}

/// The user turn cut into layout tags and interpolated text.
pub open spec fn message_pieces(
    mode: Mode,
    strategy: Option<Strategy>,
    c: ConceptContext,
    l: LearnerContext,
    input: Option<Seq<char>>,
) -> Seq<Seq<char>> {
    line_pieces(""@, "mode"@, mode_tag(mode)) + strategy_pieces(mode, strategy) + concept_pieces(c)
        + learner_pieces(l) + input_pieces(input)
}

// ---- Building blocks ----

proof fn lemma_flatten_line(indent: Seq<char>, name: Seq<char>, body: Seq<char>)
    ensures
        flatten(line_pieces(indent, name, body)) == indent + open_tag(name) + body + close_tag(name) + "\n"@,
{
    reveal_with_fuel(flatten, 6);
    let ps = line_pieces(indent, name, body);
    assert(ps.drop_last().drop_last().drop_last().drop_last().drop_last() =~= Seq::<Seq<char>>::empty());
    assert(ps.drop_last().drop_last().drop_last().drop_last() =~= seq![indent]);
    assert(ps.drop_last().drop_last().drop_last() =~= seq![indent, open_tag(name)]);
    assert(ps.drop_last().drop_last() =~= seq![indent, open_tag(name), body]);
    assert(ps.drop_last() =~= seq![indent, open_tag(name), body, close_tag(name)]);
    assert(Seq::<char>::empty() + indent =~= indent);
}

proof fn lemma_flatten_bare(indent: Seq<char>, tag: Seq<char>)
    ensures
        flatten(bare_pieces(indent, tag)) == indent + tag + "\n"@,
{
    reveal_with_fuel(flatten, 4);
    let ps = bare_pieces(indent, tag);
    assert(ps.drop_last().drop_last().drop_last() =~= Seq::<Seq<char>>::empty());
    assert(ps.drop_last().drop_last() =~= seq![indent]);
    assert(ps.drop_last() =~= seq![indent, tag]);
    assert(Seq::<char>::empty() + indent =~= indent);
}

proof fn lemma_flatten_items(items: Seq<Seq<char>>, open: Seq<char>, close: Seq<char>, indent: Seq<char>, name: Seq<char>)
    requires
        open == indent + open_tag(name),
        close == close_tag(name) + "\n"@,
    ensures
        flatten(items_pieces(items, indent, name)) == tagged_lines(items, open, close),
    decreases items.len(),
{
    if items.len() > 0 {
        lemma_flatten_items(items.drop_last(), open, close, indent, name);
        lemma_flatten_append(items_pieces(items.drop_last(), indent, name), line_pieces(indent, name, xml_escaped(items.last())));
        lemma_flatten_line(indent, name, xml_escaped(items.last()));
        assert(indent + open_tag(name) + xml_escaped(items.last()) + close_tag(name) + "\n"@ =~= tagged(open, items.last(), close));
        assert(tagged_lines(items.drop_last(), open, close) + (indent + open_tag(name) + xml_escaped(items.last()) + close_tag(name) + "\n"@)
            =~= tagged_lines(items.drop_last(), open, close) + tagged(open, items.last(), close));
    } else {
        assert(flatten(Seq::<Seq<char>>::empty()) =~= Seq::<char>::empty());
    }
}

proof fn lemma_angle_free_digits(n: nat)
    ensures
        angle_free(digits_nat(n)),
    decreases n,
{
    if n < 10 {
        assert(digits_nat(n) =~= seq![digit_char(n as int)]);
    } else {
        lemma_angle_free_digits(n / 10);
        assert(digits_nat(n) == digits_nat(n / 10).push(digit_char((n % 10) as int)));
    }
}

proof fn lemma_angle_free_decimal(n: int)
    ensures
        angle_free(decimal(n)),
{
    if n < 0 {
        lemma_angle_free_digits((-n) as nat);
        let d = digits_nat((-n) as nat);
        assert forall|i: int| 0 <= i < decimal(n).len() implies #[trigger] decimal(n)[i] != '<' && decimal(n)[i] != '>' by {
            if i > 0 {
                assert(decimal(n)[i] == d[i - 1]);
            }
        }
    } else {
        lemma_angle_free_digits(n as nat);
    }
}

proof fn lemma_angle_free_escaped(s: Seq<char>)
    ensures
        angle_free(xml_escaped(s)),
{
    lemma_escaped_markup_free(s);
    assert forall|i: int| 0 <= i < xml_escaped(s).len() implies #[trigger] xml_escaped(s)[i] != '<' && xml_escaped(s)[i] != '>' by {
        assert(!is_markup_char(xml_escaped(s)[i]));
    }
}

proof fn lemma_tags_of_name(name: Seq<char>)
    requires
        angle_free(name),
    ensures
        is_tag(open_tag(name)),
        is_tag(close_tag(name)),
        open_tag(name).len() >= 2 && open_tag(name)[0] == '<',
        close_tag(name).len() >= 2 && close_tag(name)[1] == '/',
{
    reveal_strlit("<");
    reveal_strlit(">");
    reveal_strlit("</");
    let o = open_tag(name);
    assert forall|i: int| 0 < i < o.len() - 1 implies #[trigger] o[i] != '<' && o[i] != '>' by {
        assert(o[i] == name[i - 1]);
    }
    let c = close_tag(name);
    assert forall|i: int| 0 < i < c.len() - 1 implies #[trigger] c[i] != '<' && c[i] != '>' by {
        if i > 1 {
            assert(c[i] == name[i - 2]);
        }
    }
}

/// A line adds its opening tag once and no other opening tag.
proof fn lemma_line_facts(indent: Seq<char>, name: Seq<char>, body: Seq<char>, x: Seq<char>)
    requires
        angle_free(indent),
        angle_free(name),
        angle_free(body),
        angle_free(x),
        x.len() > 0 ==> x[0] != '/',
    ensures
        well_split(line_pieces(indent, name, body)),
        count_of(line_pieces(indent, name, body), open_tag(x)) == (if name == x {
            1nat
        } else {
            0nat
        }),
{
    reveal_strlit("<");
    reveal_strlit(">");
    reveal_strlit("\n");
    reveal_with_fuel(count_of, 6);
    lemma_tags_of_name(name);
    lemma_tags_of_name(x);
    let ps = line_pieces(indent, name, body);
    let t = open_tag(x);
    assert(well_split(ps)) by {
        assert forall|k: int| 0 <= k < ps.len() implies is_tag(#[trigger] ps[k]) || angle_free(ps[k]) by {
            if k == 4 {
                assert(ps[4] == "\n"@);
            }
        }
    }
    assert(indent != t) by {
        if indent == t {
            assert(indent[0] == '<');
        }
    }
    assert(body != t) by {
        if body == t {
            assert(body[0] == '<');
        }
    }
    assert("\n"@ != t) by {
        if "\n"@ == t {
            assert(t.len() >= 2);
        }
    }
    assert(close_tag(name) != t) by {
        if close_tag(name) == t {
            if x.len() > 0 {
                assert(t[1] == x[0]);
            } else {
                assert(t[1] == '>');
            }
        }
    }
    assert(open_tag(name) == t <==> name == x) by {
        if open_tag(name) == t {
            assert(name =~= open_tag(name).subrange(1, open_tag(name).len() - 1));
            assert(x =~= t.subrange(1, t.len() - 1));
        }
    }
    assert(ps.drop_last().drop_last().drop_last().drop_last().drop_last() =~= Seq::<Seq<char>>::empty());
    assert(ps.drop_last().drop_last().drop_last().drop_last() =~= seq![indent]);
    assert(ps.drop_last().drop_last().drop_last() =~= seq![indent, open_tag(name)]);
    assert(ps.drop_last().drop_last() =~= seq![indent, open_tag(name), body]);
    assert(ps.drop_last() =~= seq![indent, open_tag(name), body, close_tag(name)]);
}

/// A bare tag line adds no opening tag `x` unless its tag is one.
proof fn lemma_bare_facts(indent: Seq<char>, tag: Seq<char>, x: Seq<char>)
    requires
        angle_free(indent),
        is_tag(tag),
        tag != open_tag(x),
        angle_free(x),
    ensures
        well_split(bare_pieces(indent, tag)),
        count_of(bare_pieces(indent, tag), open_tag(x)) == 0,
{
    reveal_strlit("\n");
    reveal_with_fuel(count_of, 4);
    lemma_tags_of_name(x);
    let ps = bare_pieces(indent, tag);
    let t = open_tag(x);
    assert(well_split(ps)) by {
        assert forall|k: int| 0 <= k < ps.len() implies is_tag(#[trigger] ps[k]) || angle_free(ps[k]) by {
            if k == 2 {
                assert(ps[2] == "\n"@);
            }
        }
    }
    assert(indent != t) by {
        if indent == t {
            assert(indent[0] == '<');
        }
    }
    assert("\n"@ != t) by {
        if "\n"@ == t {
            assert(t.len() >= 2);
        }
    }
    assert(ps.drop_last().drop_last().drop_last() =~= Seq::<Seq<char>>::empty());
    assert(ps.drop_last().drop_last() =~= seq![indent]);
    assert(ps.drop_last() =~= seq![indent, tag]);
}

proof fn lemma_items_facts(items: Seq<Seq<char>>, indent: Seq<char>, name: Seq<char>, x: Seq<char>)
    requires
        angle_free(indent),
        angle_free(name),
        angle_free(x),
        x.len() > 0 ==> x[0] != '/',
        name != x,
    ensures
        well_split(items_pieces(items, indent, name)),
        count_of(items_pieces(items, indent, name), open_tag(x)) == 0,
    decreases items.len(),
{
    if items.len() > 0 {
        lemma_items_facts(items.drop_last(), indent, name, x);
        lemma_angle_free_escaped(items.last());
        lemma_line_facts(indent, name, xml_escaped(items.last()), x);
        lemma_well_split_append(items_pieces(items.drop_last(), indent, name), line_pieces(indent, name, xml_escaped(items.last())));
        lemma_count_append(items_pieces(items.drop_last(), indent, name), line_pieces(indent, name, xml_escaped(items.last())), open_tag(x));
    }
}

/// The concept block is exactly its pieces joined.
#[verifier::rlimit(60)]
proof fn lemma_concept_flatten(c: ConceptContext)
    ensures
        flatten(concept_pieces(c)) == concept_block(c),
{
    reveal_strlit("<concept>\n");
    reveal_strlit("  <id>");
    reveal_strlit("</id>\n");
    reveal_strlit("  <title>");
    reveal_strlit("</title>\n");
    reveal_strlit("  <domain>");
    reveal_strlit("</domain>\n");
    reveal_strlit("  <module>");
    reveal_strlit("</module>\n");
    reveal_strlit("  <difficulty_tier>");
    reveal_strlit("</difficulty_tier>\n");
    reveal_strlit("  <learning_objectives>\n");
    reveal_strlit("    <objective>");
    reveal_strlit("</objective>\n");
    reveal_strlit("  </learning_objectives>\n");
    reveal_strlit("  <error_patterns>\n");
    reveal_strlit("    <pattern>");
    reveal_strlit("</pattern>\n");
    reveal_strlit("  </error_patterns>\n");
    reveal_strlit("</concept>\n");
    reveal_strlit("<");
    reveal_strlit(">");
    reveal_strlit("</");
    reveal_strlit("\n");
    reveal_strlit("  ");
    reveal_strlit("    ");
    reveal_strlit("");
    reveal_strlit("concept");
    reveal_strlit("id");
    reveal_strlit("title");
    reveal_strlit("domain");
    reveal_strlit("module");
    reveal_strlit("difficulty_tier");
    reveal_strlit("learning_objectives");
    reveal_strlit("objective");
    reveal_strlit("error_patterns");
    reveal_strlit("pattern");
    let q0 = bare_pieces(""@, open_tag("concept"@));
    let r1 = line_pieces("  "@, "id"@, xml_escaped(c.id@));
    lemma_flatten_append(q0, r1);
    let q1 = q0 + r1;
    let r2 = line_pieces("  "@, "title"@, xml_escaped(c.title@));
    lemma_flatten_append(q1, r2);
    let q2 = q1 + r2;
    let r3 = line_pieces("  "@, "domain"@, xml_escaped(c.domain@));
    lemma_flatten_append(q2, r3);
    let q3 = q2 + r3;
    let r4 = line_pieces("  "@, "module"@, xml_escaped(c.module@));
    lemma_flatten_append(q3, r4);
    let q4 = q3 + r4;
    let r5 = line_pieces("  "@, "difficulty_tier"@, decimal(c.difficulty_tier as int));
    lemma_flatten_append(q4, r5);
    let q5 = q4 + r5;
    let r6 = bare_pieces("  "@, open_tag("learning_objectives"@));
    lemma_flatten_append(q5, r6);
    let q6 = q5 + r6;
    let r7 = items_pieces(strings_view(c.learning_objectives@), "    "@, "objective"@);
    lemma_flatten_append(q6, r7);
    let q7 = q6 + r7;
    let r8 = bare_pieces("  "@, close_tag("learning_objectives"@));
    lemma_flatten_append(q7, r8);
    let q8 = q7 + r8;
    let r9 = bare_pieces("  "@, open_tag("error_patterns"@));
    lemma_flatten_append(q8, r9);
    let q9 = q8 + r9;
    let r10 = items_pieces(strings_view(c.error_patterns@), "    "@, "pattern"@);
    lemma_flatten_append(q9, r10);
    let q10 = q9 + r10;
    let r11 = bare_pieces("  "@, close_tag("error_patterns"@));
    lemma_flatten_append(q10, r11);
    let q11 = q10 + r11;
    let r12 = bare_pieces(""@, close_tag("concept"@));
    lemma_flatten_append(q11, r12);
    let q12 = q11 + r12;
    assert(q12 == concept_pieces(c));
    lemma_flatten_bare(""@, open_tag("concept"@));
    lemma_flatten_line("  "@, "id"@, xml_escaped(c.id@));
    lemma_flatten_line("  "@, "title"@, xml_escaped(c.title@));
    lemma_flatten_line("  "@, "domain"@, xml_escaped(c.domain@));
    lemma_flatten_line("  "@, "module"@, xml_escaped(c.module@));
    lemma_flatten_line("  "@, "difficulty_tier"@, decimal(c.difficulty_tier as int));
    lemma_flatten_bare("  "@, open_tag("learning_objectives"@));
    assert("    <objective>"@ =~= "    "@ + open_tag("objective"@));
    assert("</objective>\n"@ =~= close_tag("objective"@) + "\n"@);
    assert("    <pattern>"@ =~= "    "@ + open_tag("pattern"@));
    assert("</pattern>\n"@ =~= close_tag("pattern"@) + "\n"@);
    lemma_flatten_items(strings_view(c.learning_objectives@), "    <objective>"@, "</objective>\n"@, "    "@, "objective"@);
    lemma_flatten_bare("  "@, close_tag("learning_objectives"@));
    lemma_flatten_bare("  "@, open_tag("error_patterns"@));
    lemma_flatten_items(strings_view(c.error_patterns@), "    <pattern>"@, "</pattern>\n"@, "    "@, "pattern"@);
    lemma_flatten_bare("  "@, close_tag("error_patterns"@));
    lemma_flatten_bare(""@, close_tag("concept"@));
    assert("  <id>"@ =~= "  "@ + open_tag("id"@));
    assert("</id>\n"@ =~= close_tag("id"@) + "\n"@);
    assert("  <title>"@ =~= "  "@ + open_tag("title"@));
    assert("</title>\n"@ =~= close_tag("title"@) + "\n"@);
    assert("  <domain>"@ =~= "  "@ + open_tag("domain"@));
    assert("</domain>\n"@ =~= close_tag("domain"@) + "\n"@);
    assert("  <module>"@ =~= "  "@ + open_tag("module"@));
    assert("</module>\n"@ =~= close_tag("module"@) + "\n"@);
    assert("  <difficulty_tier>"@ =~= "  "@ + open_tag("difficulty_tier"@));
    assert("</difficulty_tier>\n"@ =~= close_tag("difficulty_tier"@) + "\n"@);
    assert("<concept>\n"@ =~= ""@ + open_tag("concept"@) + "\n"@);
    assert("</concept>\n"@ =~= ""@ + close_tag("concept"@) + "\n"@);
    assert("  <learning_objectives>\n"@ =~= "  "@ + open_tag("learning_objectives"@) + "\n"@);
    assert("  </learning_objectives>\n"@ =~= "  "@ + close_tag("learning_objectives"@) + "\n"@);
    assert("  <error_patterns>\n"@ =~= "  "@ + open_tag("error_patterns"@) + "\n"@);
    assert("  </error_patterns>\n"@ =~= "  "@ + close_tag("error_patterns"@) + "\n"@);
    assert(flatten(concept_pieces(c)) =~= concept_block(c));
}

/// The learner block is exactly its pieces joined.
#[verifier::rlimit(40)]
proof fn lemma_learner_flatten(l: LearnerContext)
    ensures
        flatten(learner_pieces(l)) == learner_block(l),
{
    reveal_strlit("<learner_context>\n");
    reveal_strlit("  <mastery_score>");
    reveal_strlit("</mastery_score>\n");
    reveal_strlit("  <attempt_count>");
    reveal_strlit("</attempt_count>\n");
    reveal_strlit("  <streak_correct>");
    reveal_strlit("</streak_correct>\n");
    reveal_strlit("  <ease_factor>");
    reveal_strlit("</ease_factor>\n");
    reveal_strlit("  <last_latency_ms>");
    reveal_strlit("</last_latency_ms>\n");
    reveal_strlit("  <last_latency_ms>null</last_latency_ms>\n");
    reveal_strlit("</learner_context>\n");
    reveal_strlit("<");
    reveal_strlit(">");
    reveal_strlit("</");
    reveal_strlit("\n");
    reveal_strlit("  ");
    reveal_strlit("");
    reveal_strlit("null");
    reveal_strlit("learner_context");
    reveal_strlit("mastery_score");
    reveal_strlit("attempt_count");
    reveal_strlit("streak_correct");
    reveal_strlit("ease_factor");
    reveal_strlit("last_latency_ms");
    let lat = match l.last_latency_ms {
        Some(ms) => decimal(ms as int),
        None => "null"@,
    };
    let q0 = bare_pieces(""@, open_tag("learner_context"@));
    let r1 = line_pieces("  "@, "mastery_score"@, xml_escaped(l.mastery_score@));
    lemma_flatten_append(q0, r1);
    let q1 = q0 + r1;
    let r2 = line_pieces("  "@, "attempt_count"@, decimal(l.attempt_count as int));
    lemma_flatten_append(q1, r2);
    let q2 = q1 + r2;
    let r3 = line_pieces("  "@, "streak_correct"@, decimal(l.streak_correct as int));
    lemma_flatten_append(q2, r3);
    let q3 = q2 + r3;
    let r4 = line_pieces("  "@, "ease_factor"@, xml_escaped(l.ease_factor@));
    lemma_flatten_append(q3, r4);
    let q4 = q3 + r4;
    let r5 = line_pieces("  "@, "last_latency_ms"@, lat);
    lemma_flatten_append(q4, r5);
    let q5 = q4 + r5;
    let r6 = bare_pieces(""@, close_tag("learner_context"@));
    lemma_flatten_append(q5, r6);
    let q6 = q5 + r6;
    assert(q6 == learner_pieces(l));
    lemma_flatten_bare(""@, open_tag("learner_context"@));
    lemma_flatten_line("  "@, "mastery_score"@, xml_escaped(l.mastery_score@));
    lemma_flatten_line("  "@, "attempt_count"@, decimal(l.attempt_count as int));
    lemma_flatten_line("  "@, "streak_correct"@, decimal(l.streak_correct as int));
    lemma_flatten_line("  "@, "ease_factor"@, xml_escaped(l.ease_factor@));
    lemma_flatten_line("  "@, "last_latency_ms"@, lat);
    lemma_flatten_bare(""@, close_tag("learner_context"@));
    assert("  <mastery_score>"@ =~= "  "@ + open_tag("mastery_score"@));
    assert("</mastery_score>\n"@ =~= close_tag("mastery_score"@) + "\n"@);
    assert("  <attempt_count>"@ =~= "  "@ + open_tag("attempt_count"@));
    assert("</attempt_count>\n"@ =~= close_tag("attempt_count"@) + "\n"@);
    assert("  <streak_correct>"@ =~= "  "@ + open_tag("streak_correct"@));
    assert("</streak_correct>\n"@ =~= close_tag("streak_correct"@) + "\n"@);
    assert("  <ease_factor>"@ =~= "  "@ + open_tag("ease_factor"@));
    assert("</ease_factor>\n"@ =~= close_tag("ease_factor"@) + "\n"@);
    assert("  <last_latency_ms>"@ =~= "  "@ + open_tag("last_latency_ms"@));
    assert("</last_latency_ms>\n"@ =~= close_tag("last_latency_ms"@) + "\n"@);
    assert("<learner_context>\n"@ =~= ""@ + open_tag("learner_context"@) + "\n"@);
    assert("</learner_context>\n"@ =~= ""@ + close_tag("learner_context"@) + "\n"@);
    assert("  <last_latency_ms>null</last_latency_ms>\n"@ =~= "  <last_latency_ms>"@ + "null"@ + "</last_latency_ms>\n"@);
    assert(flatten(learner_pieces(l)) =~= learner_block(l));
}

/// The concept block is well split and holds no opening tag `x` of a name
/// it does not use.
#[verifier::rlimit(60)]
proof fn lemma_concept_facts(c: ConceptContext, x: Seq<char>)
    requires
        angle_free(x),
        x.len() > 0,
        x[0] != '/',
        x != "concept"@,
        x != "id"@,
        x != "title"@,
        x != "domain"@,
        x != "module"@,
        x != "difficulty_tier"@,
        x != "learning_objectives"@,
        x != "objective"@,
        x != "error_patterns"@,
        x != "pattern"@,
    ensures
        well_split(concept_pieces(c)),
        count_of(concept_pieces(c), open_tag(x)) == 0,
{
    reveal_strlit("<");
    reveal_strlit(">");
    reveal_strlit("</");
    reveal_strlit("");
    reveal_strlit("  ");
    reveal_strlit("    ");
    reveal_strlit("concept");
    reveal_strlit("id");
    reveal_strlit("title");
    reveal_strlit("domain");
    reveal_strlit("module");
    reveal_strlit("difficulty_tier");
    reveal_strlit("learning_objectives");
    reveal_strlit("objective");
    reveal_strlit("error_patterns");
    reveal_strlit("pattern");
    assert(angle_free(""@));
    assert(angle_free("  "@));
    assert(angle_free("    "@));
    assert(angle_free("concept"@));
    assert(angle_free("id"@));
    assert(angle_free("title"@));
    assert(angle_free("domain"@));
    assert(angle_free("module"@));
    assert(angle_free("difficulty_tier"@));
    assert(angle_free("learning_objectives"@));
    assert(angle_free("objective"@));
    assert(angle_free("error_patterns"@));
    assert(angle_free("pattern"@));
    lemma_tags_of_name(x);
    lemma_tags_of_name("concept"@);
    lemma_tags_of_name("id"@);
    lemma_tags_of_name("title"@);
    lemma_tags_of_name("domain"@);
    lemma_tags_of_name("module"@);
    lemma_tags_of_name("difficulty_tier"@);
    lemma_tags_of_name("learning_objectives"@);
    lemma_tags_of_name("objective"@);
    lemma_tags_of_name("error_patterns"@);
    lemma_tags_of_name("pattern"@);
    assert(open_tag("concept"@) != open_tag(x)) by {
        if open_tag("concept"@) == open_tag(x) {
            assert(x =~= open_tag(x).subrange(1, open_tag(x).len() - 1));
            assert("concept"@ =~= open_tag("concept"@).subrange(1, open_tag("concept"@).len() - 1));
        }
    }
    assert(open_tag("learning_objectives"@) != open_tag(x)) by {
        if open_tag("learning_objectives"@) == open_tag(x) {
            assert(x =~= open_tag(x).subrange(1, open_tag(x).len() - 1));
            assert("learning_objectives"@ =~= open_tag("learning_objectives"@).subrange(1, open_tag("learning_objectives"@).len() - 1));
        }
    }
    assert(open_tag("error_patterns"@) != open_tag(x)) by {
        if open_tag("error_patterns"@) == open_tag(x) {
            assert(x =~= open_tag(x).subrange(1, open_tag(x).len() - 1));
            assert("error_patterns"@ =~= open_tag("error_patterns"@).subrange(1, open_tag("error_patterns"@).len() - 1));
        }
    }
    assert(close_tag("learning_objectives"@) != open_tag(x));
    assert(close_tag("error_patterns"@) != open_tag(x));
    assert(close_tag("concept"@) != open_tag(x));
    lemma_angle_free_escaped(c.id@);
    lemma_angle_free_escaped(c.title@);
    lemma_angle_free_escaped(c.domain@);
    lemma_angle_free_escaped(c.module@);
    lemma_angle_free_decimal(c.difficulty_tier as int);
    lemma_bare_facts(""@, open_tag("concept"@), x);
    lemma_line_facts("  "@, "id"@, xml_escaped(c.id@), x);
    lemma_line_facts("  "@, "title"@, xml_escaped(c.title@), x);
    lemma_line_facts("  "@, "domain"@, xml_escaped(c.domain@), x);
    lemma_line_facts("  "@, "module"@, xml_escaped(c.module@), x);
    lemma_line_facts("  "@, "difficulty_tier"@, decimal(c.difficulty_tier as int), x);
    lemma_bare_facts("  "@, open_tag("learning_objectives"@), x);
    lemma_items_facts(strings_view(c.learning_objectives@), "    "@, "objective"@, x);
    lemma_bare_facts("  "@, close_tag("learning_objectives"@), x);
    lemma_bare_facts("  "@, open_tag("error_patterns"@), x);
    lemma_items_facts(strings_view(c.error_patterns@), "    "@, "pattern"@, x);
    lemma_bare_facts("  "@, close_tag("error_patterns"@), x);
    lemma_bare_facts(""@, close_tag("concept"@), x);

    let q0 = bare_pieces(""@, open_tag("concept"@));
    let r1 = line_pieces("  "@, "id"@, xml_escaped(c.id@));
    lemma_well_split_append(q0, r1);
    lemma_count_append(q0, r1, open_tag(x));
    let q1 = q0 + r1;
    let r2 = line_pieces("  "@, "title"@, xml_escaped(c.title@));
    lemma_well_split_append(q1, r2);
    lemma_count_append(q1, r2, open_tag(x));
    let q2 = q1 + r2;
    let r3 = line_pieces("  "@, "domain"@, xml_escaped(c.domain@));
    lemma_well_split_append(q2, r3);
    lemma_count_append(q2, r3, open_tag(x));
    let q3 = q2 + r3;
    let r4 = line_pieces("  "@, "module"@, xml_escaped(c.module@));
    lemma_well_split_append(q3, r4);
    lemma_count_append(q3, r4, open_tag(x));
    let q4 = q3 + r4;
    let r5 = line_pieces("  "@, "difficulty_tier"@, decimal(c.difficulty_tier as int));
    lemma_well_split_append(q4, r5);
    lemma_count_append(q4, r5, open_tag(x));
    let q5 = q4 + r5;
    let r6 = bare_pieces("  "@, open_tag("learning_objectives"@));
    lemma_well_split_append(q5, r6);
    lemma_count_append(q5, r6, open_tag(x));
    let q6 = q5 + r6;
    let r7 = items_pieces(strings_view(c.learning_objectives@), "    "@, "objective"@);
    lemma_well_split_append(q6, r7);
    lemma_count_append(q6, r7, open_tag(x));
    let q7 = q6 + r7;
    let r8 = bare_pieces("  "@, close_tag("learning_objectives"@));
    lemma_well_split_append(q7, r8);
    lemma_count_append(q7, r8, open_tag(x));
    let q8 = q7 + r8;
    let r9 = bare_pieces("  "@, open_tag("error_patterns"@));
    lemma_well_split_append(q8, r9);
    lemma_count_append(q8, r9, open_tag(x));
    let q9 = q8 + r9;
    let r10 = items_pieces(strings_view(c.error_patterns@), "    "@, "pattern"@);
    lemma_well_split_append(q9, r10);
    lemma_count_append(q9, r10, open_tag(x));
    let q10 = q9 + r10;
    let r11 = bare_pieces("  "@, close_tag("error_patterns"@));
    lemma_well_split_append(q10, r11);
    lemma_count_append(q10, r11, open_tag(x));
    let q11 = q10 + r11;
    let r12 = bare_pieces(""@, close_tag("concept"@));
    lemma_well_split_append(q11, r12);
    lemma_count_append(q11, r12, open_tag(x));
    let q12 = q11 + r12;
    assert(q12 == concept_pieces(c));
}

/// The learner block is well split and holds no opening tag `x` of a name
/// it does not use.
#[verifier::rlimit(40)]
proof fn lemma_learner_facts(l: LearnerContext, x: Seq<char>)
    requires
        angle_free(x),
        x.len() > 0,
        x[0] != '/',
        x != "learner_context"@,
        x != "mastery_score"@,
        x != "attempt_count"@,
        x != "streak_correct"@,
        x != "ease_factor"@,
        x != "last_latency_ms"@,
    ensures
        well_split(learner_pieces(l)),
        count_of(learner_pieces(l), open_tag(x)) == 0,
{
    reveal_strlit("<");
    reveal_strlit(">");
    reveal_strlit("</");
    reveal_strlit("");
    reveal_strlit("  ");
    reveal_strlit("null");
    reveal_strlit("learner_context");
    reveal_strlit("mastery_score");
    reveal_strlit("attempt_count");
    reveal_strlit("streak_correct");
    reveal_strlit("ease_factor");
    reveal_strlit("last_latency_ms");
    assert(angle_free(""@));
    assert(angle_free("  "@));
    assert(angle_free("null"@));
    assert(angle_free("learner_context"@));
    assert(angle_free("mastery_score"@));
    assert(angle_free("attempt_count"@));
    assert(angle_free("streak_correct"@));
    assert(angle_free("ease_factor"@));
    assert(angle_free("last_latency_ms"@));
    lemma_tags_of_name(x);
    lemma_tags_of_name("learner_context"@);
    lemma_tags_of_name("mastery_score"@);
    lemma_tags_of_name("attempt_count"@);
    lemma_tags_of_name("streak_correct"@);
    lemma_tags_of_name("ease_factor"@);
    lemma_tags_of_name("last_latency_ms"@);
    assert(open_tag("learner_context"@) != open_tag(x)) by {
        if open_tag("learner_context"@) == open_tag(x) {
            assert(x =~= open_tag(x).subrange(1, open_tag(x).len() - 1));
            assert("learner_context"@ =~= open_tag("learner_context"@).subrange(1, open_tag("learner_context"@).len() - 1));
        }
    }
    assert(close_tag("learner_context"@) != open_tag(x));
    let lat = match l.last_latency_ms {
        Some(ms) => decimal(ms as int),
        None => "null"@,
    };
    assert(angle_free(lat)) by {
        match l.last_latency_ms {
            Some(ms) => lemma_angle_free_decimal(ms as int),
            None => {},
        }
    }
    lemma_angle_free_escaped(l.mastery_score@);
    lemma_angle_free_escaped(l.ease_factor@);
    lemma_angle_free_decimal(l.attempt_count as int);
    lemma_angle_free_decimal(l.streak_correct as int);
    lemma_bare_facts(""@, open_tag("learner_context"@), x);
    lemma_line_facts("  "@, "mastery_score"@, xml_escaped(l.mastery_score@), x);
    lemma_line_facts("  "@, "attempt_count"@, decimal(l.attempt_count as int), x);
    lemma_line_facts("  "@, "streak_correct"@, decimal(l.streak_correct as int), x);
    lemma_line_facts("  "@, "ease_factor"@, xml_escaped(l.ease_factor@), x);
    lemma_line_facts("  "@, "last_latency_ms"@, lat, x);
    lemma_bare_facts(""@, close_tag("learner_context"@), x);

    let q0 = bare_pieces(""@, open_tag("learner_context"@));
    let r1 = line_pieces("  "@, "mastery_score"@, xml_escaped(l.mastery_score@));
    lemma_well_split_append(q0, r1);
    lemma_count_append(q0, r1, open_tag(x));
    let q1 = q0 + r1;
    let r2 = line_pieces("  "@, "attempt_count"@, decimal(l.attempt_count as int));
    lemma_well_split_append(q1, r2);
    lemma_count_append(q1, r2, open_tag(x));
    let q2 = q1 + r2;
    let r3 = line_pieces("  "@, "streak_correct"@, decimal(l.streak_correct as int));
    lemma_well_split_append(q2, r3);
    lemma_count_append(q2, r3, open_tag(x));
    let q3 = q2 + r3;
    let r4 = line_pieces("  "@, "ease_factor"@, xml_escaped(l.ease_factor@));
    lemma_well_split_append(q3, r4);
    lemma_count_append(q3, r4, open_tag(x));
    let q4 = q3 + r4;
    let r5 = line_pieces("  "@, "last_latency_ms"@, lat);
    lemma_well_split_append(q4, r5);
    lemma_count_append(q4, r5, open_tag(x));
    let q5 = q4 + r5;
    let r6 = bare_pieces(""@, close_tag("learner_context"@));
    lemma_well_split_append(q5, r6);
    lemma_count_append(q5, r6, open_tag(x));
    let q6 = q5 + r6;
    assert(q6 == learner_pieces(l));
}

/// The whole user turn is exactly its pieces joined.
#[verifier::rlimit(40)]
proof fn lemma_message_flatten(mode: Mode, strategy: Option<Strategy>, c: ConceptContext, l: LearnerContext, input: Option<Seq<char>>)
    ensures
        flatten(message_pieces(mode, strategy, c, l, input)) == user_message(mode, strategy, c, l, input),
{
    reveal_strlit("<");
    reveal_strlit(">");
    reveal_strlit("</");
    reveal_strlit("\n");
    reveal_strlit("");
    reveal_strlit("mode");
    reveal_strlit("strategy");
    reveal_strlit("user_input");
    reveal_strlit("<mode>");
    reveal_strlit("</mode>\n");
    reveal_strlit("<strategy>");
    reveal_strlit("</strategy>\n");
    reveal_strlit("<user_input>");
    reveal_strlit("</user_input>\n");
    reveal_strlit("lesson");
    reveal_strlit("quiz");
    reveal_strlit("explain");
    reveal_strlit("review");
    reveal_strlit("textbook");
    reveal_strlit("analogy");
    reveal_strlit("socratic");
    reveal_strlit("scaffold");
    reveal_strlit("concept");
    reveal_strlit("id");
    reveal_strlit("title");
    reveal_strlit("domain");
    reveal_strlit("module");
    reveal_strlit("difficulty_tier");
    reveal_strlit("learning_objectives");
    reveal_strlit("objective");
    reveal_strlit("error_patterns");
    reveal_strlit("pattern");
    reveal_strlit("learner_context");
    reveal_strlit("mastery_score");
    reveal_strlit("attempt_count");
    reveal_strlit("streak_correct");
    reveal_strlit("ease_factor");
    reveal_strlit("last_latency_ms");
    let a = line_pieces(""@, "mode"@, mode_tag(mode));
    let b = strategy_pieces(mode, strategy);
    let cp = concept_pieces(c);
    let lp = learner_pieces(l);
    let ip = input_pieces(input);
    lemma_flatten_append(a, b);
    lemma_flatten_append(a + b, cp);
    lemma_flatten_append(a + b + cp, lp);
    lemma_flatten_append(a + b + cp + lp, ip);
    lemma_flatten_line(""@, "mode"@, mode_tag(mode));
    assert(flatten(a) =~= "<mode>"@ + mode_tag(mode) + "</mode>\n"@);
    if mode == Mode::Explain && strategy is Some {
        lemma_flatten_line(""@, "strategy"@, strategy_tag(strategy->Some_0));
        assert(flatten(b) =~= "<strategy>"@ + strategy_tag(strategy->Some_0) + "</strategy>\n"@);
    } else {
        assert(flatten(b) =~= Seq::<char>::empty());
    }
    lemma_concept_flatten(c);
    lemma_learner_flatten(l);
    match input {
        Some(t) => if trim(t).len() > 0 {
            lemma_flatten_line(""@, "user_input"@, xml_escaped(t));
            assert(flatten(ip) =~= tagged("<user_input>"@, t, "</user_input>\n"@));
        } else {
            assert(flatten(ip) =~= Seq::<char>::empty());
        },
        None => {
            assert(flatten(ip) =~= Seq::<char>::empty());
        },
    }
    assert(flatten(message_pieces(mode, strategy, c, l, input)) =~= user_message(mode, strategy, c, l, input));
}

/// How many opening tags `x` the user turn's pieces hold, for a tag name
/// the concept and learner blocks do not use.
#[verifier::rlimit(40)]
proof fn lemma_message_facts(mode: Mode, strategy: Option<Strategy>, c: ConceptContext, l: LearnerContext, input: Option<Seq<char>>, x: Seq<char>)
    requires
        angle_free(x),
        x.len() > 0,
        x[0] != '/',
        x != "concept"@,
        x != "id"@,
        x != "title"@,
        x != "domain"@,
        x != "module"@,
        x != "difficulty_tier"@,
        x != "learning_objectives"@,
        x != "objective"@,
        x != "error_patterns"@,
        x != "pattern"@,
        x != "learner_context"@,
        x != "mastery_score"@,
        x != "attempt_count"@,
        x != "streak_correct"@,
        x != "ease_factor"@,
        x != "last_latency_ms"@,
    ensures
        well_split(message_pieces(mode, strategy, c, l, input)),
        count_of(message_pieces(mode, strategy, c, l, input), open_tag(x)) == (if x == "mode"@ {
            1nat
        } else {
            0nat
        }) + (if x == "strategy"@ && mode == Mode::Explain && strategy is Some {
            1nat
        } else {
            0nat
        }) + (if x == "user_input"@ && has_input(input) {
            1nat
        } else {
            0nat
        }),
{
    reveal_strlit("<");
    reveal_strlit(">");
    reveal_strlit("</");
    reveal_strlit("\n");
    reveal_strlit("");
    reveal_strlit("mode");
    reveal_strlit("strategy");
    reveal_strlit("user_input");
    reveal_strlit("<mode>");
    reveal_strlit("</mode>\n");
    reveal_strlit("<strategy>");
    reveal_strlit("</strategy>\n");
    reveal_strlit("<user_input>");
    reveal_strlit("</user_input>\n");
    reveal_strlit("lesson");
    reveal_strlit("quiz");
    reveal_strlit("explain");
    reveal_strlit("review");
    reveal_strlit("textbook");
    reveal_strlit("analogy");
    reveal_strlit("socratic");
    reveal_strlit("scaffold");
    reveal_strlit("concept");
    reveal_strlit("id");
    reveal_strlit("title");
    reveal_strlit("domain");
    reveal_strlit("module");
    reveal_strlit("difficulty_tier");
    reveal_strlit("learning_objectives");
    reveal_strlit("objective");
    reveal_strlit("error_patterns");
    reveal_strlit("pattern");
    reveal_strlit("learner_context");
    reveal_strlit("mastery_score");
    reveal_strlit("attempt_count");
    reveal_strlit("streak_correct");
    reveal_strlit("ease_factor");
    reveal_strlit("last_latency_ms");
    assert(angle_free(""@));
    assert(angle_free("mode"@));
    assert(angle_free("strategy"@));
    assert(angle_free("user_input"@));
    assert(angle_free(mode_tag(mode)));
    let a = line_pieces(""@, "mode"@, mode_tag(mode));
    let b = strategy_pieces(mode, strategy);
    let cp = concept_pieces(c);
    let lp = learner_pieces(l);
    let ip = input_pieces(input);
    lemma_line_facts(""@, "mode"@, mode_tag(mode), x);
    if mode == Mode::Explain && strategy is Some {
        assert(angle_free(strategy_tag(strategy->Some_0)));
        lemma_line_facts(""@, "strategy"@, strategy_tag(strategy->Some_0), x);
    } else {
        assert(well_split(b));
        assert(count_of(b, open_tag(x)) == 0);
    }
    lemma_concept_facts(c, x);
    lemma_learner_facts(l, x);
    match input {
        Some(t) => if trim(t).len() > 0 {
            lemma_angle_free_escaped(t);
            lemma_line_facts(""@, "user_input"@, xml_escaped(t), x);
        } else {
            assert(well_split(ip));
            assert(count_of(ip, open_tag(x)) == 0);
        },
        None => {
            assert(well_split(ip));
            assert(count_of(ip, open_tag(x)) == 0);
        },
    }
    lemma_well_split_append(a, b);
    lemma_count_append(a, b, open_tag(x));
    lemma_well_split_append(a + b, cp);
    lemma_count_append(a + b, cp, open_tag(x));
    lemma_well_split_append(a + b + cp, lp);
    lemma_count_append(a + b + cp, lp, open_tag(x));
    lemma_well_split_append(a + b + cp + lp, ip);
    lemma_count_append(a + b + cp + lp, ip, open_tag(x));
}

/// Whatever the concept, the learner context and the user input hold, the
/// user turn carries exactly one `<mode>` tag, a `<strategy>` tag only on an
/// explain turn with a strategy (then exactly one), and a `<user_input>` tag
/// only for non-blank input (then exactly one): interpolated text can never
/// forge a tag, because all of it is escaped.
pub proof fn lemma_prompt_tags(mode: Mode, strategy: Option<Strategy>, c: ConceptContext, l: LearnerContext, input: Option<Seq<char>>)
    ensures
        occurrences(user_message(mode, strategy, c, l, input), "<mode>"@) == 1,
        occurrences(user_message(mode, strategy, c, l, input), "<strategy>"@) == (if mode == Mode::Explain
            && strategy is Some {
            1nat
        } else {
            0nat
        }),
        occurrences(user_message(mode, strategy, c, l, input), "<user_input>"@) == (if has_input(input) {
            1nat
        } else {
            0nat
        }),
{
    reveal_strlit("<");
    reveal_strlit(">");
    reveal_strlit("</");
    reveal_strlit("\n");
    reveal_strlit("");
    reveal_strlit("mode");
    reveal_strlit("strategy");
    reveal_strlit("user_input");
    reveal_strlit("<mode>");
    reveal_strlit("</mode>\n");
    reveal_strlit("<strategy>");
    reveal_strlit("</strategy>\n");
    reveal_strlit("<user_input>");
    reveal_strlit("</user_input>\n");
    reveal_strlit("lesson");
    reveal_strlit("quiz");
    reveal_strlit("explain");
    reveal_strlit("review");
    reveal_strlit("textbook");
    reveal_strlit("analogy");
    reveal_strlit("socratic");
    reveal_strlit("scaffold");
    reveal_strlit("concept");
    reveal_strlit("id");
    reveal_strlit("title");
    reveal_strlit("domain");
    reveal_strlit("module");
    reveal_strlit("difficulty_tier");
    reveal_strlit("learning_objectives");
    reveal_strlit("objective");
    reveal_strlit("error_patterns");
    reveal_strlit("pattern");
    reveal_strlit("learner_context");
    reveal_strlit("mastery_score");
    reveal_strlit("attempt_count");
    reveal_strlit("streak_correct");
    reveal_strlit("ease_factor");
    reveal_strlit("last_latency_ms");
    let ps = message_pieces(mode, strategy, c, l, input);
    lemma_message_flatten(mode, strategy, c, l, input);
    assert("<mode>"@ =~= open_tag("mode"@));
    assert("<strategy>"@ =~= open_tag("strategy"@));
    assert("<user_input>"@ =~= open_tag("user_input"@));
    lemma_message_facts(mode, strategy, c, l, input, "mode"@);
    lemma_message_facts(mode, strategy, c, l, input, "strategy"@);
    lemma_message_facts(mode, strategy, c, l, input, "user_input"@);
    lemma_tags_of_name("mode"@);
    lemma_tags_of_name("strategy"@);
    lemma_tags_of_name("user_input"@);
    lemma_occurrences_of_split(ps, open_tag("mode"@));
    lemma_occurrences_of_split(ps, open_tag("strategy"@));
    lemma_occurrences_of_split(ps, open_tag("user_input"@));
}

} // verus!
