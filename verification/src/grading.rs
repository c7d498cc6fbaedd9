//! Server-authoritative grading of the objective question types.
//!
//! Correctness comes from the canonical question, never from a flag the front
//! end sends. A multiple-choice answer is the chosen option id, matched
//! (ASCII case-insensitively, trimmed) against the option marked correct. A
//! fill-in-blank answer is judged by numeric equivalence with an accepted
//! blank (computed outside, in floating point) with a normalized-text
//! fallback; this module assembles the graded record around that verdict.

use vstd::prelude::*;

use crate::contract::{copy_string, options_view, strings_view, OptionView, Question, QuestionType, QuestionView, QuizOption};
use crate::lesson::joined;
use crate::text::{chars_of, owned, push_str, string_of, trim, trim_chars, trim_end, trim_start};

verus! {

/// One graded objective answer. Its score is 1 when correct and 0 otherwise.
#[derive(Debug, Clone, PartialEq)]
pub struct ObjectiveGrade {
    pub question_id: String,
    pub user_answer: String,
    pub is_correct: bool,
    pub correct_answer: Option<String>,
    pub feedback: Option<String>,
}

pub struct GradeView {
    pub question_id: Seq<char>,
    pub user_answer: Seq<char>,
    pub is_correct: bool,
    pub correct_answer: Option<Seq<char>>,
    pub feedback: Option<Seq<char>>,
}

impl View for ObjectiveGrade {
    type V = GradeView;

    open spec fn view(&self) -> GradeView {
        GradeView {
            question_id: self.question_id@,
            user_answer: self.user_answer@,
            is_correct: self.is_correct,
            correct_answer: match self.correct_answer {
                Some(s) => Some(s@),
                None => None,
            },
            feedback: match self.feedback {
                Some(s) => Some(s@),
                None => None,
            },
        }
    }
}

/// The canonical explanation, trimmed, as post-grade feedback (None when blank).
pub open spec fn feedback_of(q: QuestionView) -> Option<Seq<char>> {
    let e = trim(q.explanation);
    if e.len() == 0 {
        None
    } else {
        Some(e)
    }
}

/// The explanation as post-grade feedback. Safe only after grading: it often
/// spells out the answer, which is why the wire question omits it.
pub fn explanation_feedback(question: &Question) -> (r: Option<String>)
    ensures
        match r {
            Some(s) => feedback_of(question@) == Some(s@),
            None => feedback_of(question@) is None,
        },
{
    let cs = chars_of(question.explanation.as_str());
    let t = trim_chars(&cs);
    if t.len() == 0 {
        None
    } else {
        Some(string_of(t.as_slice()))
    }
}

/// ASCII lowercase of one character.
pub open spec fn ascii_lower(c: char) -> char {
    if 'A' <= c && c <= 'Z' {
        ((c as u32) + 32) as char
    } else {
        c
    }
}

/// `str::eq_ignore_ascii_case`.
pub open spec fn eq_ignore_ascii_case(a: Seq<char>, b: Seq<char>) -> bool {
    a.len() == b.len() && forall|i: int| 0 <= i < a.len() ==> ascii_lower(#[trigger] a[i]) == ascii_lower(b[i])
}

fn lower_char(c: char) -> (r: char)
    ensures
        r == ascii_lower(c),
{
    if 'A' <= c && c <= 'Z' {
        ((c as u32) + 32) as u8 as char
    } else {
        c
    }
}

/// Compare two texts ignoring ASCII case.
pub fn same_ignoring_ascii_case(a: &str, b: &str) -> (r: bool)
    ensures
        r == eq_ignore_ascii_case(a@, b@),
{
    let av = chars_of(a);
    let bv = chars_of(b);
    if av.len() != bv.len() {
        return false;
    }
    let mut i: usize = 0;
    while i < av.len()
        invariant
            av@ == a@,
            bv@ == b@,
            av@.len() == bv@.len(),
            i <= av@.len(),
            forall|j: int| 0 <= j < i ==> ascii_lower(#[trigger] av@[j]) == ascii_lower(bv@[j]),
        decreases av.len() - i,
    {
        if lower_char(av[i]) != lower_char(bv[i]) {
            return false;
        }
        i = i + 1;
    }
    true
}

/// The first option marked correct, if any.
pub open spec fn first_correct(os: Seq<OptionView>, i: int) -> Option<OptionView>
    decreases os.len() - i,
{
    if i < 0 || i >= os.len() {
        None
    } else if os[i].is_correct {
        Some(os[i])
    } else {
        first_correct(os, i + 1)
    }
}

/// How a multiple-choice answer is graded.
pub open spec fn mc_grade(q: QuestionView, answer: Seq<char>) -> GradeView {
    let correct = match q.options {
        Some(os) => first_correct(os, 0),
        None => None,
    };
    GradeView {
        question_id: q.id,
        user_answer: answer,
        is_correct: match correct {
            Some(o) => eq_ignore_ascii_case(o.id, trim(answer)),
            None => false,
        },
        correct_answer: match correct {
            Some(o) => Some(o.text),
            None => None,
        },
        feedback: feedback_of(q),
    }
}

/// The index of the first option marked correct.
fn correct_option(opts: &Vec<QuizOption>) -> (r: Option<usize>)
    ensures
        match r {
            Some(i) => i < opts@.len() && first_correct(options_view(opts@), 0) == Some(
                opts@[i as int]@,
            ),
            None => first_correct(options_view(opts@), 0) is None,
        },
{
    let ghost os = options_view(opts@);
    let mut i: usize = 0;
    while i < opts.len()
        invariant
            os == options_view(opts@),
            i <= opts@.len(),
            first_correct(os, 0) == first_correct(os, i as int),
        decreases opts.len() - i,
    {
        if opts[i].is_correct {
            return Some(i);
        }
        i = i + 1;
    }
    None
}

/// Grade a multiple-choice answer (the chosen option id).
pub fn grade_multiple_choice(question: &Question, user_answer: &str) -> (g: ObjectiveGrade)
    ensures
        g@ == mc_grade(question@, user_answer@),
{
    let correct = match &question.options {
        Some(opts) => match correct_option(opts) {
            Some(i) => Some(&opts[i]),
            None => None,
        },
        None => None,
    };
    let (is_correct, correct_answer) = match correct {
        Some(o) => {
            let cs = chars_of(user_answer);
            let t = trim_chars(&cs);
            let ts = string_of(t.as_slice());
            (same_ignoring_ascii_case(o.id.as_str(), ts.as_str()), Some(copy_string(&o.text)))
        },
        None => (false, None),
    };
    ObjectiveGrade {
        question_id: copy_string(&question.id),
        user_answer: owned(user_answer),
        is_correct,
        correct_answer,
        feedback: explanation_feedback(question),
    }
}

/// How a fill-in-blank answer is graded, given whether it matched an
/// accepted blank: the accepted blanks are shown joined with " or ".
pub open spec fn fib_grade(q: QuestionView, answer: Seq<char>, matched: bool) -> GradeView {
    GradeView {
        question_id: q.id,
        user_answer: answer,
        is_correct: matched,
        correct_answer: match q.blanks {
            Some(bs) => if bs.len() > 0 {
                Some(joined(bs, " or "@))
            } else {
                None
            },
            None => None,
        },
        feedback: feedback_of(q),
    }
}

/// Assemble the graded record of a fill-in-blank answer. `matched` is whether
/// the answer is equivalent to one of the accepted blanks.
pub fn grade_fill_in_blank(question: &Question, user_answer: &str, matched: bool) -> (g: ObjectiveGrade)
    ensures
        g@ == fib_grade(question@, user_answer@, matched),
{
    let correct_answer = match &question.blanks {
        Some(bs) => if bs.len() > 0 {
            let mut out: Vec<char> = Vec::new();
            let mut k: usize = 0;
            while k < bs.len()
                invariant
                    1 <= bs@.len(),
                    k <= bs@.len(),
                    out@ == joined(strings_view(bs@).take(k as int), " or "@),
                decreases bs.len() - k,
            {
                if k > 0 {
                    push_str(&mut out, " or ");
                }
                push_str(&mut out, bs[k].as_str());
                proof {
                    let v = strings_view(bs@);
                    assert(v.take(k + 1).drop_last() =~= v.take(k as int));
                    if k == 0 {
                        assert(v.take(1) =~= seq![v[0]]);
                    }
                }
                k = k + 1;
            }
            assert(strings_view(bs@).take(bs@.len() as int) =~= strings_view(bs@));
            Some(string_of(out.as_slice()))
        } else {
            None
        },
        None => None,
    };
    ObjectiveGrade {
        question_id: copy_string(&question.id),
        user_answer: owned(user_answer),
        is_correct: matched,
        correct_answer,
        feedback: explanation_feedback(question),
    }
}

/// Which answers need the model: only free-response ones.
pub fn needs_model(question_type: QuestionType) -> (b: bool)
    ensures
        b == (question_type == QuestionType::FreeResponse),
{
    match question_type {
        QuestionType::FreeResponse => true,
        _ => false,
    }
}

// ---- Text fallback of the equivalence check ----

/// Every trailing `c` removed (`str::trim_end_matches(c)`).
pub open spec fn strip_trailing(s: Seq<char>, c: char) -> Seq<char>
    decreases s.len(),
{
    if s.len() > 0 && s.last() == c {
        strip_trailing(s.drop_last(), c)
    } else {
        s
    }
}

/// `s` without any `$` or space, ASCII-lowercased.
pub open spec fn squashed_lower(s: Seq<char>) -> Seq<char>
    decreases s.len(),
{
    if s.len() == 0 {
        Seq::empty()
    } else {
        let rest = squashed_lower(s.drop_last());
        let c = s.last();
        if c == '$' || c == ' ' {
            rest
        } else {
            rest.push(ascii_lower(c))
        }
    }
}

/// The normalized text an answer is compared by when it is not a number:
/// trimmed, trailing `=` removed, trimmed again, `$` and spaces removed,
/// ASCII-lowercased.
pub open spec fn normalized(s: Seq<char>) -> Seq<char> {
    squashed_lower(trim(strip_trailing(trim(s), '=')))
}

/// Normalize an answer for the textual comparison.
pub fn normalize_text(s: &str) -> (r: String)
    ensures
        r@ == normalized(s@),
{
    let cs = chars_of(s);
    let t = trim_chars(&cs);
    let mut e: usize = t.len();
    assert(t@.take(e as int) =~= t@);
    while e > 0 && t[e - 1] == '='
        invariant
            e <= t@.len(),
            strip_trailing(t@, '=') == strip_trailing(t@.take(e as int), '='),
        decreases e,
    {
        assert(t@.take(e as int).drop_last() =~= t@.take(e - 1));
        e = e - 1;
    }
    let mut u: Vec<char> = Vec::new();
    let mut i: usize = 0;
    while i < e
        invariant
            e <= t@.len(),
            i <= e,
            u@ == t@.take(i as int),
        decreases e - i,
    {
        u.push(t[i]);
        i = i + 1;
        assert(u@ =~= t@.take(i as int));
    }
    assert(strip_trailing(t@.take(e as int), '=') == t@.take(e as int));
    let w = trim_chars(&u);
    let mut out: Vec<char> = Vec::new();
    let mut k: usize = 0;
    while k < w.len()
        invariant
            k <= w@.len(),
            out@ == squashed_lower(w@.take(k as int)),
        decreases w.len() - k,
    {
        let c = w[k];
        assert(w@.take(k + 1).drop_last() =~= w@.take(k as int));
        if c != '$' && c != ' ' {
            out.push(lower_char(c));
        }
        k = k + 1;
    }
    assert(w@.take(w@.len() as int) =~= w@);
    string_of(out.as_slice())
}

/// Whether two answers agree as normalized text.
pub fn text_equivalent(a: &str, b: &str) -> (r: bool)
    ensures
        r == (normalized(a@) == normalized(b@)),
{
    let x = normalize_text(a);
    let y = normalize_text(b);
    crate::text::str_eq(x.as_str(), y.as_str())
}

} // verus!
