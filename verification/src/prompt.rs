//! Assembly of the XML-tagged user turn sent to the tutor model.
//!
//! Every interpolated field (concept id, title, domain, module, each
//! objective, each error pattern, and any user input) goes through
//! `xml_escape`: the local database is unencrypted, so even curriculum and
//! cache content is a prompt-injection vector and is escaped uniformly.

use vstd::prelude::*;

use crate::contract::strings_view;
use crate::prompt_shape::{lemma_prompt_tags, occurrences};
use crate::text::{chars_of, decimal, push_i64, push_str, string_of, trim, trim_chars};
use crate::util::{is_markup_char, xml_escape, xml_escaped};

verus! {

/// One operating mode. `Explain` additionally carries a strategy.
#[derive(Debug, Clone, Copy, PartialEq, Eq, Structural)]
pub enum Mode {
    Lesson,
    Quiz,
    Explain,
    Review,
}

pub open spec fn mode_tag(m: Mode) -> Seq<char> {
    match m {
        Mode::Lesson => "lesson"@,
        Mode::Quiz => "quiz"@,
        Mode::Explain => "explain"@,
        Mode::Review => "review"@,
    }
}

impl Mode {
    pub fn as_tag(self) -> (r: &'static str)
        ensures
            r@ == mode_tag(self),
    {
        match self {
            Mode::Lesson => "lesson",
            Mode::Quiz => "quiz",
            Mode::Explain => "explain",
            Mode::Review => "review",
        }
    }

    /// Lesson and explain stream, so the UI can render incrementally.
    pub fn streams(self) -> (b: bool)
        ensures
            b == (self == Mode::Lesson || self == Mode::Explain),
    {
        match self {
            Mode::Lesson | Mode::Explain => true,
            _ => false,
        }
    }
}

/// Explain strategy (only meaningful for `Explain`).
#[derive(Debug, Clone, Copy, PartialEq, Eq, Structural)]
pub enum Strategy {
    Textbook,
    Analogy,
    Socratic,
    Scaffold,
}

pub open spec fn strategy_tag(s: Strategy) -> Seq<char> {
    match s {
        Strategy::Textbook => "textbook"@,
        Strategy::Analogy => "analogy"@,
        Strategy::Socratic => "socratic"@,
        Strategy::Scaffold => "scaffold"@,
    }
}

impl Strategy {
    pub fn as_tag(self) -> (r: &'static str)
        ensures
            r@ == strategy_tag(self),
    {
        match self {
            Strategy::Textbook => "textbook",
            Strategy::Analogy => "analogy",
            Strategy::Socratic => "socratic",
            Strategy::Scaffold => "scaffold",
        }
    }
}

/// Concept fields interpolated into the `<concept>` block.
#[derive(Debug, Clone)]
pub struct ConceptContext {
    pub id: String,
    pub title: String,
    pub domain: String,
    pub module: String,
    pub difficulty_tier: i64,
    pub learning_objectives: Vec<String>,
    pub error_patterns: Vec<String>,
}

/// Per-learner scheduling context interpolated into `<learner_context>`. The
/// two real-valued scores arrive as text (as `{}` formats an `f64`) and are
/// escaped like every other interpolated field.
#[derive(Debug, Clone)]
pub struct LearnerContext {
    pub mastery_score: String,
    pub attempt_count: i64,
    pub streak_correct: i64,
    pub ease_factor: String,
    pub last_latency_ms: Option<i64>,
}

/// `open`, the escaped `body`, then `close`.
pub open spec fn tagged(open: Seq<char>, body: Seq<char>, close: Seq<char>) -> Seq<char> {
    open + xml_escaped(body) + close
}

/// One tagged line per item, in order.
pub open spec fn tagged_lines(items: Seq<Seq<char>>, open: Seq<char>, close: Seq<char>) -> Seq<char>
    decreases items.len(),
{
    if items.len() == 0 {
        Seq::empty()
    } else {
        tagged_lines(items.drop_last(), open, close) + tagged(open, items.last(), close)
    }
}

/// The `<concept>` block.
pub open spec fn concept_block(c: ConceptContext) -> Seq<char> {
    "<concept>\n"@ + tagged("  <id>"@, c.id@, "</id>\n"@) + tagged("  <title>"@, c.title@, "</title>\n"@)
        + tagged("  <domain>"@, c.domain@, "</domain>\n"@) + tagged(
        "  <module>"@,
        c.module@,
        "</module>\n"@,
    ) + "  <difficulty_tier>"@ + decimal(c.difficulty_tier as int) + "</difficulty_tier>\n"@
        + "  <learning_objectives>\n"@ + tagged_lines(
        strings_view(c.learning_objectives@),
        "    <objective>"@,
        "</objective>\n"@,
    ) + "  </learning_objectives>\n"@ + "  <error_patterns>\n"@ + tagged_lines(
        strings_view(c.error_patterns@),
        "    <pattern>"@,
        "</pattern>\n"@,
    ) + "  </error_patterns>\n"@ + "</concept>\n"@
}

/// The `<learner_context>` block.
pub open spec fn learner_block(l: LearnerContext) -> Seq<char> {
    "<learner_context>\n"@ + tagged("  <mastery_score>"@, l.mastery_score@, "</mastery_score>\n"@)
        + "  <attempt_count>"@ + decimal(l.attempt_count as int) + "</attempt_count>\n"@
        + "  <streak_correct>"@ + decimal(l.streak_correct as int) + "</streak_correct>\n"@
        + tagged("  <ease_factor>"@, l.ease_factor@, "</ease_factor>\n"@) + match l.last_latency_ms {
        Some(ms) => "  <last_latency_ms>"@ + decimal(ms as int) + "</last_latency_ms>\n"@,
        None => "  <last_latency_ms>null</last_latency_ms>\n"@,
    } + "</learner_context>\n"@
}

/// The user turn: mode, the strategy (explain only), the concept, the learner
/// context, and the escaped user input when there is any non-blank input.
pub open spec fn user_message(
    mode: Mode,
    strategy: Option<Strategy>,
    c: ConceptContext,
    l: LearnerContext,
    input: Option<Seq<char>>,
) -> Seq<char> {
    "<mode>"@ + mode_tag(mode) + "</mode>\n"@ + (if mode == Mode::Explain && strategy is Some {
        "<strategy>"@ + strategy_tag(strategy->Some_0) + "</strategy>\n"@
    } else {
        Seq::empty()
    }) + concept_block(c) + learner_block(l) + match input {
        Some(t) => if trim(t).len() > 0 {
            tagged("<user_input>"@, t, "</user_input>\n"@)
        } else {
            Seq::empty()
        },
        None => Seq::empty(),
    }
}

/// Append `open`, the escaped `body`, then `close`.
fn push_tagged(v: &mut Vec<char>, open: &str, body: &str, close: &str)
    ensures
        final(v)@ == old(v)@ + tagged(open@, body@, close@),
{
    push_str(v, open);
    let e = xml_escape(body);
    push_str(v, e.as_str());
    push_str(v, close);
    assert(final(v)@ =~= old(v)@ + tagged(open@, body@, close@));
}

/// Append one tagged line per item.
fn push_tagged_lines(v: &mut Vec<char>, items: &Vec<String>, open: &str, close: &str)
    ensures
        final(v)@ == old(v)@ + tagged_lines(strings_view(items@), open@, close@),
{
    let ghost start = v@;
    let mut i: usize = 0;
    assert(strings_view(items@).take(0) =~= Seq::<Seq<char>>::empty());
    while i < items.len()
        invariant
            i <= items@.len(),
            v@ == start + tagged_lines(strings_view(items@).take(i as int), open@, close@),
        decreases items.len() - i,
    {
        push_tagged(v, open, items[i].as_str(), close);
        assert(strings_view(items@).take(i + 1).drop_last() =~= strings_view(items@).take(i as int));
        i = i + 1;
    }
    assert(strings_view(items@).take(items@.len() as int) =~= strings_view(items@));
}

/// Append `open`, the decimal `n`, then `close`.
fn push_number(v: &mut Vec<char>, open: &str, n: i64, close: &str)
    ensures
        final(v)@ == old(v)@ + open@ + decimal(n as int) + close@,
{
    push_str(v, open);
    push_i64(v, n);
    push_str(v, close);
}

/// Append the `<concept>` block.
fn push_concept_block(s: &mut Vec<char>, concept: &ConceptContext)
    ensures
        final(s)@ == old(s)@ + concept_block(*concept),
{
    push_str(s, "<concept>\n");
    push_tagged(s, "  <id>", concept.id.as_str(), "</id>\n");
    push_tagged(s, "  <title>", concept.title.as_str(), "</title>\n");
    push_tagged(s, "  <domain>", concept.domain.as_str(), "</domain>\n");
    push_tagged(s, "  <module>", concept.module.as_str(), "</module>\n");
    push_number(s, "  <difficulty_tier>", concept.difficulty_tier, "</difficulty_tier>\n");
    let ghost mid = s@;
    push_str(s, "  <learning_objectives>\n");
    push_tagged_lines(s, &concept.learning_objectives, "    <objective>", "</objective>\n");
    push_str(s, "  </learning_objectives>\n");
    push_str(s, "  <error_patterns>\n");
    push_tagged_lines(s, &concept.error_patterns, "    <pattern>", "</pattern>\n");
    push_str(s, "  </error_patterns>\n");
    push_str(s, "</concept>\n");
    assert(final(s)@ =~= old(s)@ + concept_block(*concept));
}

/// Append the `<learner_context>` block.
fn push_learner_block(s: &mut Vec<char>, learner: &LearnerContext)
    ensures
        final(s)@ == old(s)@ + learner_block(*learner),
{
    push_str(s, "<learner_context>\n");
    push_tagged(s, "  <mastery_score>", learner.mastery_score.as_str(), "</mastery_score>\n");
    push_number(s, "  <attempt_count>", learner.attempt_count, "</attempt_count>\n");
    push_number(s, "  <streak_correct>", learner.streak_correct, "</streak_correct>\n");
    push_tagged(s, "  <ease_factor>", learner.ease_factor.as_str(), "</ease_factor>\n");
    let ghost mid = s@;
    match learner.last_latency_ms {
        Some(ms) => push_number(s, "  <last_latency_ms>", ms, "</last_latency_ms>\n"),
        None => push_str(s, "  <last_latency_ms>null</last_latency_ms>\n"),
    }
    push_str(s, "</learner_context>\n");
    assert(final(s)@ =~= old(s)@ + learner_block(*learner));
}

/// Assemble the user message. `strategy` is only emitted for `Explain`;
/// `user_input` (a learner question, or a newline-joined list of recent
/// mistakes) is escaped and omitted entirely when absent or blank.
pub fn build_user_message(
    mode: Mode,
    strategy: Option<Strategy>,
    concept: &ConceptContext,
    learner: &LearnerContext,
    user_input: Option<&str>,
) -> (r: String)
    ensures
        r@ == user_message(
            mode,
            strategy,
            *concept,
            *learner,
            match user_input {
                Some(t) => Some(t@),
                None => None,
            },
        ),
        occurrences(r@, "<mode>"@) == 1,
        occurrences(r@, "<strategy>"@) == (if mode == Mode::Explain && strategy is Some {
            1nat
        } else {
            0nat
        }),
        occurrences(r@, "<user_input>"@) == (if user_input matches Some(t) && trim(t@).len() > 0 {
            1nat
        } else {
            0nat
        }),
{
    proof {
        lemma_prompt_tags(
            mode,
            strategy,
            *concept,
            *learner,
            match user_input {
                Some(t) => Some(t@),
                None => None,
            },
        );
    }
    let mut s: Vec<char> = Vec::new();
    push_str(&mut s, "<mode>");
    push_str(&mut s, mode.as_tag());
    push_str(&mut s, "</mode>\n");
    if mode == Mode::Explain {
        if let Some(strat) = strategy {
            push_str(&mut s, "<strategy>");
            push_str(&mut s, strat.as_tag());
            push_str(&mut s, "</strategy>\n");
        }
    }
    let ghost head = s@;
    push_concept_block(&mut s, concept);
    push_learner_block(&mut s, learner);
    let ghost body = s@;
    if let Some(input) = user_input {
        let cs = chars_of(input);
        let t = trim_chars(&cs);
        if t.len() > 0 {
            push_tagged(&mut s, "<user_input>", input, "</user_input>\n");
        }
    }
    assert(s@ =~= user_message(
        mode,
        strategy,
        *concept,
        *learner,
        match user_input {
            Some(t) => Some(t@),
            None => None,
        },
    ));
    string_of(s.as_slice())
}

} // verus!
