//! Decisions behind the AI commands: the API-key requirement, the explain strategy,
//! the lesson cache key and reinforcement block chosen from the learner's real
//! recent mistakes, the free-response grading turn, and the registry of
//! in-flight streams that a cancel request flips.

use vstd::prelude::*;

use crate::contract::{strings_view, QuestionType};
use crate::prompt::Strategy;
use crate::stream::{cancelled_error, STREAM_CANCELLED_MARKER};
use crate::text::{chars_of, is_ws, owned, push_str, starts_with, str_eq, str_starts_with, string_of, trim, trim_chars};
use crate::util::{clean_text, is_carrier, lemma_sanitized_clean, sanitize_error_pattern, sanitized, xml_escape, xml_escaped};

verus! {

/// Whether a finished lesson's text may be cached: nothing empty (or only
/// whitespace) is ever stored, so a blank generation is regenerated next time
/// rather than replayed.
pub fn worth_caching(text: &str) -> (b: bool)
    ensures
        b == (trim(text@).len() > 0),
{
    let t = trim_chars(&chars_of(text));
    t.len() > 0
}

/// The stored API key, unless it is absent or blank.
pub open spec fn key_verdict(stored: Option<Seq<char>>) -> Result<Seq<char>, Seq<char>> {
    match stored {
        Some(k) => if trim(k).len() > 0 {
            Ok(k)
        } else {
            Err("no API key configured"@)
        },
        None => Err("no API key configured"@),
    }
}

/// Require a stored key: a missing or blank key is a user-facing error.
pub fn require_key(stored: Option<String>) -> (r: Result<String, String>)
    ensures
        match r {
            Ok(k) => key_verdict(
                match stored {
                    Some(s) => Some(s@),
                    None => None,
                },
            ) == Ok::<Seq<char>, Seq<char>>(k@),
            Err(e) => key_verdict(
                match stored {
                    Some(s) => Some(s@),
                    None => None,
                },
            ) == Err::<Seq<char>, Seq<char>>(e@),
        },
{
    match stored {
        Some(k) => {
            let cs = chars_of(k.as_str());
            let t = trim_chars(&cs);
            if t.len() > 0 {
                Ok(k)
            } else {
                Err(owned("no API key configured"))
            }
        },
        None => Err(owned("no API key configured")),
    }
}

/// The explain strategy named by a tag (textbook by default).
pub open spec fn strategy_of(s: Option<Seq<char>>) -> Strategy {
    match s {
        Some(t) => if t == "analogy"@ {
            Strategy::Analogy
        } else if t == "socratic"@ {
            Strategy::Socratic
        } else if t == "scaffold"@ {
            Strategy::Scaffold
        } else {
            Strategy::Textbook
        },
        None => Strategy::Textbook,
    }
}

/// Parse the optional explain strategy tag (defaults to textbook).
pub fn parse_strategy(s: Option<&str>) -> (r: Strategy)
    ensures
        r == strategy_of(
            match s {
                Some(t) => Some(t@),
                None => None,
            },
        ),
{
    match s {
        Some(t) => if str_eq(t, "analogy") {
            Strategy::Analogy
        } else if str_eq(t, "socratic") {
            Strategy::Socratic
        } else if str_eq(t, "scaffold") {
            Strategy::Scaffold
        } else {
            Strategy::Textbook
        },
        None => Strategy::Textbook,
    }
}

/// The lesson cache key: real mistakes give a personalized
/// `lesson_reinforced` entry; none give the plain, offline-replayable `lesson`.
pub fn lesson_content_type(mistakes: &[String]) -> (r: &'static str)
    ensures
        r@ == (if mistakes@.len() == 0 {
            "lesson"@
        } else {
            "lesson_reinforced"@
        }),
{
    if mistakes.len() == 0 {
        "lesson"
    } else {
        "lesson_reinforced"
    }
}

/// The other lesson variant: when live generation fails, the plain and the
/// reinforced lesson each stand in for the other.
pub fn other_lesson_variant(chosen: &str) -> (r: &'static str)
    ensures
        r@ == (if chosen@ == "lesson"@ {
            "lesson_reinforced"@
        } else {
            "lesson"@
        }),
{
    if str_eq(chosen, "lesson") {
        "lesson_reinforced"
    } else {
        "lesson"
    }
}

/// What a failed live generation resolves to: an error surfaced as it is, or
/// a replay of a cached lesson (streamed through the delta channel only when
/// no live delta went out before the failure).
#[derive(Debug, Clone, PartialEq)]
pub enum StreamFailure {
    Surface(String),
    Fallback { error: String, replay_through_channel: bool },
}

/// Decide what a failed live generation becomes. A cancellation (marked, or
/// a failure the user's cancel raced) is surfaced as the marked cancel error
/// and never papered over with a replay; an uncached mode (explain) surfaces
/// its error; a lesson falls back to its cached variants.
pub fn stream_failure_action(
    error: String,
    cancelled_now: bool,
    cached_variant: Option<&str>,
    live_deltas_emitted: bool,
) -> (a: StreamFailure)
    ensures
        starts_with(error@, "EttaError:cancelled"@) ==> a == StreamFailure::Surface(error),
        !starts_with(error@, "EttaError:cancelled"@) && cancelled_now ==> (a matches StreamFailure::Surface(e)
            && e@ == "EttaError:cancelled"@ + ": the stream was cancelled"@),
        !starts_with(error@, "EttaError:cancelled"@) && !cancelled_now && cached_variant is None
            ==> a == StreamFailure::Surface(error),
        !starts_with(error@, "EttaError:cancelled"@) && !cancelled_now && cached_variant is Some
            ==> a == (StreamFailure::Fallback { error, replay_through_channel: !live_deltas_emitted }),
{
    if str_starts_with(error.as_str(), STREAM_CANCELLED_MARKER) {
        return StreamFailure::Surface(error);
    }
    if cancelled_now {
        return StreamFailure::Surface(cancelled_error());
    }
    match cached_variant {
        None => StreamFailure::Surface(error),
        Some(_) => StreamFailure::Fallback { error, replay_through_channel: !live_deltas_emitted },
    }
}

/// The sanitized mistakes that survive sanitizing (non-empty), in order.
pub open spec fn kept_patterns(ms: Seq<Seq<char>>) -> Seq<Seq<char>>
    decreases ms.len(),
{
    if ms.len() == 0 {
        Seq::empty()
    } else {
        let rest = kept_patterns(ms.drop_last());
        let s = sanitized(ms.last());
        if s.len() > 0 {
            rest.push(s)
        } else {
            rest
        }
    }
}

/// `items` joined with `sep` between consecutive items.
pub open spec fn joined(items: Seq<Seq<char>>, sep: Seq<char>) -> Seq<char>
    decreases items.len(),
{
    if items.len() == 0 {
        Seq::empty()
    } else if items.len() == 1 {
        items[0]
    } else {
        joined(items.drop_last(), sep) + sep + items.last()
    }
}

pub open spec fn reinforcement_text(kept: Seq<Seq<char>>) -> Seq<char> {
    "The learner has recently struggled with: "@ + joined(kept, ", "@)
        + ". Reinforce these specifically."@
}

/// The reinforcement block for a lesson prompt, or None when no mistake
/// survives sanitizing.
pub open spec fn reinforcement_of(ms: Seq<Seq<char>>) -> Option<Seq<char>> {
    let kept = kept_patterns(ms);
    if kept.len() == 0 {
        None
    } else {
        Some(reinforcement_text(kept))
    }
}

/// Build the reinforcement block from the learner's real recent mistakes.
/// The stored patterns are model output, so each is sanitized again (markup
/// carriers stripped, whitespace folded, length capped) before embedding.
pub fn reinforcement_input(mistakes: &[String]) -> (r: Option<String>)
    ensures
        match r {
            Some(t) => reinforcement_of(strings_view(mistakes@)) == Some(t@),
            None => reinforcement_of(strings_view(mistakes@)) is None,
        },
{
    let ghost ms = strings_view(mistakes@);
    let mut kept: Vec<String> = Vec::new();
    let mut i: usize = 0;
    assert(ms.take(0) =~= Seq::<Seq<char>>::empty());
    assert(strings_view(kept@) =~= Seq::<Seq<char>>::empty());
    while i < mistakes.len()
        invariant
            ms == strings_view(mistakes@),
            i <= mistakes@.len(),
            strings_view(kept@) == kept_patterns(ms.take(i as int)),
        decreases mistakes.len() - i,
    {
        let s = sanitize_error_pattern(mistakes[i].as_str());
        let cs = chars_of(s.as_str());
        let ghost before = kept@;
        proof {
            assert(ms.take(i + 1).drop_last() =~= ms.take(i as int));
            assert(ms.take(i + 1).last() == mistakes@[i as int]@);
        }
        if cs.len() > 0 {
            kept.push(s);
            assert(strings_view(kept@) =~= strings_view(before).push(cs@));
        }
        i = i + 1;
    }
    assert(ms.take(ms.len() as int) =~= ms);
    if kept.len() == 0 {
        return None;
    }
    let mut out = chars_of("The learner has recently struggled with: ");
    let ghost prefix = out@;
    let mut k: usize = 0;
    while k < kept.len()
        invariant
            1 <= kept@.len(),
            k <= kept@.len(),
            out@ == prefix + joined(strings_view(kept@).take(k as int), ", "@),
        decreases kept.len() - k,
    {
        if k > 0 {
            push_str(&mut out, ", ");
        }
        push_str(&mut out, kept[k].as_str());
        proof {
            let v = strings_view(kept@);
            assert(v.take(k + 1).drop_last() =~= v.take(k as int));
            if k == 0 {
                assert(v.take(1) =~= seq![v[0]]);
            }
        }
        k = k + 1;
    }
    assert(strings_view(kept@).take(kept@.len() as int) =~= strings_view(kept@));
    push_str(&mut out, ". Reinforce these specifically.");
    Some(string_of(out.as_slice()))
}

/// The reinforcement block never carries a markup or code carrier, nor any
/// whitespace other than a plain space, whatever the stored patterns hold.
pub proof fn lemma_reinforcement_clean(ms: Seq<Seq<char>>)
    ensures
        reinforcement_of(ms) matches Some(t) ==> clean_text(t),
{
    lemma_kept_clean(ms);
    if kept_patterns(ms).len() > 0 {
        let kept = kept_patterns(ms);
        reveal_strlit("The learner has recently struggled with: ");
        reveal_strlit(", ");
        reveal_strlit(". Reinforce these specifically.");
        assert(clean_text(", "@));
        lemma_joined_clean(kept, ", "@);
        let t = reinforcement_text(kept);
        let a = "The learner has recently struggled with: "@;
        let b = joined(kept, ", "@);
        let c = ". Reinforce these specifically."@;
        assert(clean_text(c));
        assert forall|j: int| 0 <= j < t.len() implies !is_carrier(#[trigger] t[j]) && (is_ws(t[j])
            ==> t[j] == ' ') by {
            if j < a.len() {
                assert(t[j] == a[j]);
            } else if j < a.len() + b.len() {
                assert(t[j] == b[j - a.len()]);
            } else {
                assert(t[j] == c[j - a.len() - b.len()]);
            }
        }
    }
}

proof fn lemma_kept_clean(ms: Seq<Seq<char>>)
    ensures
        forall|i: int| 0 <= i < kept_patterns(ms).len() ==> clean_text(#[trigger] kept_patterns(ms)[i]),
    decreases ms.len(),
{
    if ms.len() > 0 {
        let rest = ms.drop_last();
        lemma_kept_clean(rest);
        lemma_sanitized_clean(ms.last());
        let k = kept_patterns(ms);
        let kr = kept_patterns(rest);
        assert forall|i: int| 0 <= i < k.len() implies clean_text(#[trigger] k[i]) by {
            if i < kr.len() {
                assert(k[i] == kr[i]);
            }
        }
    }
}

proof fn lemma_joined_clean(items: Seq<Seq<char>>, sep: Seq<char>)
    requires
        forall|i: int| 0 <= i < items.len() ==> clean_text(#[trigger] items[i]),
        clean_text(sep),
    ensures
        clean_text(joined(items, sep)),
    decreases items.len(),
{
    if items.len() > 1 {
        let rest = items.drop_last();
        assert forall|i: int| 0 <= i < rest.len() implies clean_text(#[trigger] rest[i]) by {
            assert(rest[i] == items[i]);
        }
        lemma_joined_clean(rest, sep);
        let a = joined(rest, sep);
        let l = items.last();
        assert(clean_text(l)) by {
            assert(l == items[items.len() - 1]);
        }
        let t = joined(items, sep);
        assert forall|j: int| 0 <= j < t.len() implies !is_carrier(#[trigger] t[j]) && (is_ws(t[j])
            ==> t[j] == ' ') by {
            if j < a.len() {
                assert(t[j] == a[j]);
            } else if j < a.len() + sep.len() {
                assert(t[j] == sep[j - a.len()]);
            } else {
                assert(t[j] == l[j - a.len() - sep.len()]);
            }
        }
    } else if items.len() == 1 {
        assert(clean_text(items[0]));
    }
}

/// The free-response grading turn: question, rubric and answer escaped, and
/// the structured reply the grader expects.
pub open spec fn grading_prompt(prompt: Seq<char>, rubric: Seq<char>, answer: Seq<char>) -> Seq<char> {
    "<mode>grade_free_response</mode>\n<question>"@ + xml_escaped(prompt) + "</question>\n<rubric>"@
        + xml_escaped(rubric) + "</rubric>\n<student_answer>"@ + xml_escaped(answer)
        + "</student_answer>\nRespond with ONLY a JSON object: {\"score\": <0.0-1.0>, \"feedback\": \"...\", \"error_pattern\": \"...\"|null}."@
}

/// Build the free-response grading turn. The learner's answer and the rubric
/// are untrusted and escaped, as is the question.
pub fn build_grading_prompt(prompt: &str, rubric: &str, answer: &str) -> (r: String)
    ensures
        r@ == grading_prompt(prompt@, rubric@, answer@),
{
    let mut v = chars_of("<mode>grade_free_response</mode>\n<question>");
    let p = xml_escape(prompt);
    push_str(&mut v, p.as_str());
    push_str(&mut v, "</question>\n<rubric>");
    let rb = xml_escape(rubric);
    push_str(&mut v, rb.as_str());
    push_str(&mut v, "</rubric>\n<student_answer>");
    let a = xml_escape(answer);
    push_str(&mut v, a.as_str());
    push_str(
        &mut v,
        "</student_answer>\nRespond with ONLY a JSON object: {\"score\": <0.0-1.0>, \"feedback\": \"...\", \"error_pattern\": \"...\"|null}.",
    );
    assert(v@ =~= grading_prompt(prompt@, rubric@, answer@));
    string_of(v.as_slice())
}

pub open spec fn question_type_tag(t: QuestionType) -> Seq<char> {
    match t {
        QuestionType::MultipleChoice => "multiple_choice"@,
        QuestionType::FillInBlank => "fill_in_blank"@,
        QuestionType::FreeResponse => "free_response"@,
    }
}

/// The stored name of a question type.
pub fn question_type_str(t: QuestionType) -> (r: &'static str)
    ensures
        r@ == question_type_tag(t),
{
    match t {
        QuestionType::MultipleChoice => "multiple_choice",
        QuestionType::FillInBlank => "fill_in_blank",
        QuestionType::FreeResponse => "free_response",
    }
}

// ---- In-flight streams ----

/// Registry of in-flight streams: each request id with its cancellation flag.
/// A request id occurs at most once.
pub struct ActiveStreams {
    entries: Vec<(String, bool)>,
}

impl ActiveStreams {
    /// The registered streams: request id to cancellation flag.
    pub closed spec fn view(&self) -> Map<Seq<char>, bool> {
        Map::new(
            |k: Seq<char>| exists|i: int| 0 <= i < self.entries@.len() && self.entries@[i].0@ == k,
            |k: Seq<char>|
                self.entries@[choose|i: int| 0 <= i < self.entries@.len() && self.entries@[i].0@ == k].1,
        )
    }

    /// Request ids are unique.
    pub closed spec fn wf(&self) -> bool {
        forall|i: int, j: int|
            0 <= i < j < self.entries@.len() ==> self.entries@[i].0@ != self.entries@[j].0@
    }

    proof fn lemma_view_at(&self, i: int)
        requires
            self.wf(),
            0 <= i < self.entries@.len(),
        ensures
            self.view().contains_key(self.entries@[i].0@),
            self.view()[self.entries@[i].0@] == self.entries@[i].1,
    {
        let k = self.entries@[i].0@;
        let j = choose|j: int| 0 <= j < self.entries@.len() && self.entries@[j].0@ == k;
        if j != i {
            if j < i {
                assert(self.entries@[j].0@ != self.entries@[i].0@);
            } else {
                assert(self.entries@[i].0@ != self.entries@[j].0@);
            }
        }
    }

    /// An empty registry.
    pub fn new() -> (s: Self)
        ensures
            s.wf(),
            s.view() == Map::<Seq<char>, bool>::empty(),
    {
        let s = ActiveStreams { entries: Vec::new() };
        assert(s.view() =~= Map::<Seq<char>, bool>::empty());
        s
    }

    fn position(&self, request_id: &str) -> (r: Option<usize>)
        requires
            self.wf(),
        ensures
            match r {
                Some(i) => i < self.entries@.len() && self.entries@[i as int].0@ == request_id@,
                None => !self.view().contains_key(request_id@),
            },
    {
        let mut i: usize = 0;
        while i < self.entries.len()
            invariant
                i <= self.entries@.len(),
                forall|j: int| 0 <= j < i ==> self.entries@[j].0@ != request_id@,
            decreases self.entries.len() - i,
        {
            if str_eq(self.entries[i].0.as_str(), request_id) {
                return Some(i);
            }
            i = i + 1;
        }
        None
    }

    /// Register a new stream with a clear flag. A request id that is already
    /// active is rejected (overwriting would orphan the live stream's flag).
    pub fn register(&mut self, request_id: &str) -> (r: Result<(), String>)
        requires
            old(self).wf(),
        ensures
            final(self).wf(),
            old(self).view().contains_key(request_id@) ==> r is Err && final(self).view() == old(
                self,
            ).view(),
            !old(self).view().contains_key(request_id@) ==> r is Ok && final(self).view() == old(
                self,
            ).view().insert(request_id@, false),
            r matches Err(e) ==> e@ == "a stream with this request id is already active"@,
    {
        match self.position(request_id) {
            Some(i) => {
                proof {
                    self.lemma_view_at(i as int);
                }
                Err(owned("a stream with this request id is already active"))
            },
            None => {
                let ghost before = *self;
                self.entries.push((owned(request_id), false));
                let n = self.entries.len();
                proof {
                    assert forall|a: int, b: int|
                        0 <= a < b < self.entries@.len() implies self.entries@[a].0@
                        != self.entries@[b].0@ by {
                        if b == n - 1 {
                            assert(!before.view().contains_key(request_id@));
                            if self.entries@[a].0@ == request_id@ {
                                assert(before.entries@[a].0@ == request_id@);
                            }
                        } else {
                            assert(before.entries@[a] == self.entries@[a]);
                            assert(before.entries@[b] == self.entries@[b]);
                        }
                    }
                    assert forall|k: Seq<char>| #![auto] self.view().contains_key(k) == before.view().insert(
                        request_id@,
                        false,
                    ).contains_key(k) by {
                        if exists|i: int| 0 <= i < before.entries@.len() && before.entries@[i].0@ == k {
                            let i = choose|i: int| 0 <= i < before.entries@.len() && before.entries@[i].0@ == k;
                            assert(self.entries@[i] == before.entries@[i]);
                        }
                        if exists|i: int| 0 <= i < self.entries@.len() && self.entries@[i].0@ == k {
                            let i = choose|i: int| 0 <= i < self.entries@.len() && self.entries@[i].0@ == k;
                            if i < n - 1 {
                                assert(self.entries@[i] == before.entries@[i]);
                            }
                        }
                        if k == request_id@ {
                            assert(self.entries@[n - 1].0@ == k);
                        }
                    }
                    assert forall|k: Seq<char>| #[trigger] self.view().contains_key(k) implies self.view()[k]
                        == before.view().insert(request_id@, false)[k] by {
                        let i = choose|i: int| 0 <= i < self.entries@.len() && self.entries@[i].0@ == k;
                        self.lemma_view_at(i);
                        if i < n - 1 {
                            assert(self.entries@[i] == before.entries@[i]);
                            before.lemma_view_at(i);
                        }
                    }
                    assert(self.view() =~= before.view().insert(request_id@, false));
                }
                Ok(())
            },
        }
    }

    /// Drop a settled stream's entry (idempotent).
    pub fn remove(&mut self, request_id: &str)
        requires
            old(self).wf(),
        ensures
            final(self).wf(),
            final(self).view() == old(self).view().remove(request_id@),
    {
        match self.position(request_id) {
            Some(i) => {
                let ghost before = *self;
                self.entries.remove(i);
                proof {
                    assert forall|a: int, b: int|
                        0 <= a < b < self.entries@.len() implies self.entries@[a].0@
                        != self.entries@[b].0@ by {
                        let a2 = if a < i { a } else { a + 1 };
                        let b2 = if b < i { b } else { b + 1 };
                        assert(self.entries@[a] == before.entries@[a2]);
                        assert(self.entries@[b] == before.entries@[b2]);
                    }
                    assert forall|k: Seq<char>| #![auto] self.view().contains_key(k) == before.view().remove(
                        request_id@,
                    ).contains_key(k) by {
                        if exists|j: int| 0 <= j < before.entries@.len() && before.entries@[j].0@ == k {
                            let j = choose|j: int| 0 <= j < before.entries@.len() && before.entries@[j].0@ == k;
                            if j < i {
                                assert(self.entries@[j] == before.entries@[j]);
                            } else if j > i {
                                assert(self.entries@[j - 1] == before.entries@[j]);
                            } else {
                                assert(k == request_id@);
                            }
                        }
                        if exists|j: int| 0 <= j < self.entries@.len() && self.entries@[j].0@ == k {
                            let j = choose|j: int| 0 <= j < self.entries@.len() && self.entries@[j].0@ == k;
                            let j2 = if j < i { j } else { j + 1 };
                            assert(self.entries@[j] == before.entries@[j2]);
                            if k == request_id@ {
                                assert(before.entries@[i as int].0@ == before.entries@[j2].0@);
                            }
                        }
                    }
                    assert forall|k: Seq<char>| #[trigger] self.view().contains_key(k) implies self.view()[k]
                        == before.view().remove(request_id@)[k] by {
                        let j = choose|j: int| 0 <= j < self.entries@.len() && self.entries@[j].0@ == k;
                        self.lemma_view_at(j);
                        let j2 = if j < i { j } else { j + 1 };
                        assert(self.entries@[j] == before.entries@[j2]);
                        before.lemma_view_at(j2);
                    }
                    assert(self.view() =~= before.view().remove(request_id@));
                }
            },
            None => {
                assert(self.view() =~= self.view().remove(request_id@));
            },
        }
    }

    /// Set the cancellation flag of an in-flight stream; whether the id was
    /// known (an unknown id is a no-op: the stream may have settled already).
    pub fn cancel(&mut self, request_id: &str) -> (known: bool)
        requires
            old(self).wf(),
        ensures
            final(self).wf(),
            known == old(self).view().contains_key(request_id@),
            known ==> final(self).view() == old(self).view().insert(request_id@, true),
            !known ==> final(self).view() == old(self).view(),
    {
        match self.position(request_id) {
            Some(i) => {
                let ghost before = *self;
                proof {
                    before.lemma_view_at(i as int);
                }
                let id = owned(request_id);
                self.entries.set(i, (id, true));
                proof {
                    assert forall|a: int, b: int|
                        0 <= a < b < self.entries@.len() implies self.entries@[a].0@
                        != self.entries@[b].0@ by {
                        assert(self.entries@[a].0@ == before.entries@[a].0@);
                        assert(self.entries@[b].0@ == before.entries@[b].0@);
                    }
                    assert forall|k: Seq<char>| #![auto] self.view().contains_key(k) == before.view().insert(
                        request_id@,
                        true,
                    ).contains_key(k) by {
                        if exists|j: int| 0 <= j < before.entries@.len() && before.entries@[j].0@ == k {
                            let j = choose|j: int| 0 <= j < before.entries@.len() && before.entries@[j].0@ == k;
                            assert(self.entries@[j].0@ == before.entries@[j].0@);
                        }
                        if exists|j: int| 0 <= j < self.entries@.len() && self.entries@[j].0@ == k {
                            let j = choose|j: int| 0 <= j < self.entries@.len() && self.entries@[j].0@ == k;
                            assert(self.entries@[j].0@ == before.entries@[j].0@);
                        }
                    }
                    assert forall|k: Seq<char>| #[trigger] self.view().contains_key(k) implies self.view()[k]
                        == before.view().insert(request_id@, true)[k] by {
                        let j = choose|j: int| 0 <= j < self.entries@.len() && self.entries@[j].0@ == k;
                        self.lemma_view_at(j);
                        if j != i {
                            assert(self.entries@[j] == before.entries@[j]);
                            before.lemma_view_at(j);
                        }
                    }
                    assert(self.view() =~= before.view().insert(request_id@, true));
                }
                true
            },
            None => false,
        }
    }

    /// Whether the stream registered under `request_id` has been cancelled
    /// (false for an unknown id).
    pub fn is_cancelled(&self, request_id: &str) -> (b: bool)
        requires
            self.wf(),
        ensures
            b == (self.view().contains_key(request_id@) && self.view()[request_id@]),
    {
        match self.position(request_id) {
            Some(i) => {
                proof {
                    self.lemma_view_at(i as int);
                }
                self.entries[i].1
            },
            None => false,
        }
    }

    /// How many streams are registered.
    pub fn len(&self) -> (n: usize)
        requires
            self.wf(),
        ensures
            n == self.view().len(),
    {
        proof {
            self.lemma_len();
        }
        self.entries.len()
    }

    proof fn lemma_len(&self)
        requires
            self.wf(),
        ensures
            self.view().len() == self.entries@.len(),
    {
        let keys = Seq::new(self.entries@.len(), |i: int| self.entries@[i].0@);
        assert(keys.no_duplicates()) by {
            assert forall|a: int, b: int| 0 <= a < keys.len() && 0 <= b < keys.len() && a != b implies keys[a]
                != keys[b] by {
                if a < b {
                    assert(self.entries@[a].0@ != self.entries@[b].0@);
                } else {
                    assert(self.entries@[b].0@ != self.entries@[a].0@);
                }
            }
        }
        assert(self.view().dom() =~= keys.to_set()) by {
            assert forall|k: Seq<char>| self.view().dom().contains(k) <==> keys.to_set().contains(k) by {
                if keys.to_set().contains(k) {
                    let i = choose|i: int| 0 <= i < keys.len() && keys[i] == k;
                    assert(self.entries@[i].0@ == k);
                }
                if self.view().dom().contains(k) {
                    let i = choose|i: int| 0 <= i < self.entries@.len() && self.entries@[i].0@ == k;
                    assert(keys[i] == k);
                }
            }
        }
        keys.unique_seq_to_set();
    }
}

} // verus!
