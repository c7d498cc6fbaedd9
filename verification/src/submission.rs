//! The command-edge rules of a quiz submission: every answer is bounded
//! before anything is read or graded, the quiz nonce must name a stored row,
//! and a model (and so a key) is needed only when a free-response question is
//! on the quiz.

use vstd::prelude::*;
use vstd::string::StringSliceAdditionalSpecFns;
use vstd::utf8::encode_utf8;

use crate::contract::{AnswerSubmission, Question, QuestionType};
use crate::settings::{parse_i64, parsed_i64};
use crate::text::{chars_of, owned, string_of, trim, trim_chars};
use crate::validate::{answer_text, latency_ms, MAX_ANSWER_LEN, MAX_LATENCY_MS};

verus! {

/// The friendly error for a quiz id that no longer resolves to a stored quiz.
pub const QUIZ_EXPIRED: &'static str = "this quiz has expired — please retake it";

/// The rubric a free-response question is graded by when it carries none.
pub const DEFAULT_RUBRIC: &'static str = "Grade for correctness.";

/// The first bound one answer breaks: its text, then its latency.
pub open spec fn answer_problem(a: AnswerSubmission) -> Option<Seq<char>> {
    if encode_utf8(a.answer@).len() > MAX_ANSWER_LEN {
        Some("that answer is too long — please shorten it to under 4000 characters"@)
    } else if a.latency_ms matches Some(ms) && !(0 <= ms <= MAX_LATENCY_MS) {
        Some("that answer's timing looks invalid — please try submitting the quiz again"@)
    } else {
        None
    }
}

/// The first problem among the first `n` answers.
pub open spec fn first_answer_problem(answers: Seq<AnswerSubmission>, n: int) -> Option<Seq<char>>
    decreases n,
{
    if n <= 0 {
        None
    } else {
        match first_answer_problem(answers, n - 1) {
            Some(e) => Some(e),
            None => answer_problem(answers[n - 1]),
        }
    }
}

proof fn lemma_first_answer_problem_persists(answers: Seq<AnswerSubmission>, k: int, n: int)
    requires
        0 <= k <= n,
        first_answer_problem(answers, k) is Some,
    ensures
        first_answer_problem(answers, n) == first_answer_problem(answers, k),
    decreases n - k,
{
    if n > k {
        lemma_first_answer_problem_persists(answers, k, n - 1);
    }
}

/// Bound every submitted answer (its text and its latency) before any read or
/// grade; the first offending answer's error is returned.
pub fn check_answers(answers: &[AnswerSubmission]) -> (r: Result<(), String>)
    ensures
        match first_answer_problem(answers@, answers@.len() as int) {
            None => r is Ok,
            Some(e) => r matches Err(m) && m@ == e,
        },
{
    let mut i: usize = 0;
    while i < answers.len()
        invariant
            i <= answers@.len(),
            first_answer_problem(answers@, i as int) is None,
        decreases answers.len() - i,
    {
        let a = &answers[i];
        let text = a.answer.as_str();
        let bytes = text.as_bytes();
        proof {
            assert(bytes.len() == bytes@.len());
            assert(text.spec_bytes() == encode_utf8(answers@[i as int].answer@));
        }
        match answer_text(text) {
            Err(e) => {
                proof {
                    lemma_first_answer_problem_persists(answers@, i + 1, answers@.len() as int);
                }
                return Err(e);
            },
            Ok(()) => {},
        }
        match latency_ms(a.latency_ms) {
            Err(e) => {
                proof {
                    lemma_first_answer_problem_persists(answers@, i + 1, answers@.len() as int);
                }
                return Err(e);
            },
            Ok(()) => {},
        }
        assert(answer_problem(answers@[i as int]) is None);
        i = i + 1;
    }
    Ok(())
}

/// The stored quiz row a nonce names: the id text, trimmed, as an integer.
pub fn quiz_row_id(quiz_id: &str) -> (r: Result<i64, String>)
    ensures
        match parsed_i64(trim(quiz_id@)) {
            Some(n) => r == Ok::<i64, String>(n),
            None => r matches Err(e) && e@ == QUIZ_EXPIRED@,
        },
{
    let cs = chars_of(quiz_id);
    let t = trim_chars(&cs);
    let ts = string_of(t.as_slice());
    match parse_i64(ts.as_str()) {
        Some(n) => Ok(n),
        None => Err(owned(QUIZ_EXPIRED)),
    }
}

/// A quiz needs the model (and so the API key) exactly when one of its
/// questions is free-response.
pub fn needs_key(questions: &[Question]) -> (b: bool)
    ensures
        b <==> exists|i: int| 0 <= i < questions@.len() && questions@[i].question_type
            == QuestionType::FreeResponse,
{
    let mut i: usize = 0;
    while i < questions.len()
        invariant
            i <= questions@.len(),
            forall|j: int| 0 <= j < i ==> questions@[j].question_type != QuestionType::FreeResponse,
        decreases questions.len() - i,
    {
        if questions[i].question_type == QuestionType::FreeResponse {
            return true;
        }
        i = i + 1;
    }
    false
}

/// The rubric a free-response answer is graded against.
pub fn grading_rubric(q: &Question) -> (r: &str)
    ensures
        r@ == (match q.rubric {
            Some(rb) => rb@,
            None => DEFAULT_RUBRIC@,
        }),
{
    match &q.rubric {
        Some(rb) => rb.as_str(),
        None => DEFAULT_RUBRIC,
    }
}

} // verus!
