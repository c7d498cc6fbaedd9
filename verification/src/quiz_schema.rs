//! The locked quiz schema: validation and repair of a model's quiz output.
//!
//! The model emits a JSON array of question objects. Exactly three `type`
//! values are accepted; the obvious free-text aliases (`short_answer`,
//! `open_ended`, `essay`) are repaired to `free_response`, and anything else
//! is rejected, never zeroed. Quizzes with fewer than `MIN_QUESTIONS`
//! questions are rejected, so a degenerate quiz is never cached.

use vstd::prelude::*;

use crate::contract::{
    copy_string, questions_view, OptionView, Question, QuestionType, QuestionView, QuizOption,
    options_view, strings_view,
};
use crate::json::{
    array_of, as_array, as_bool, as_str, bool_of, elements_view, field, get, get_i64, get_str,
    int_field, is_object, json_parse, parse_json, str_field, str_of, Json, JsonView,
};
use crate::text::{
    chars_of, concat2, debug_quoted, debug_str, decimal, digit_char, digits_nat, matches_at, occurs_at, owned, push_digits, push_i64,
    push_str, skip_ws_back, skip_ws_front, slice_copy, starts_with, ends_with, str_eq, string_of,
    trim, trim_chars, trim_end, trim_start,
};

verus! {

/// The smallest quiz worth presenting or caching.
pub const MIN_QUESTIONS: usize = 3;

// ---- Markdown fences ----

/// `str::trim_start_matches(p)`: every leading copy of `p` removed.
pub open spec fn strip_prefix_all(s: Seq<char>, p: Seq<char>) -> Seq<char>
    decreases s.len(),
{
    if p.len() > 0 && starts_with(s, p) {
        strip_prefix_all(s.skip(p.len() as int), p)
    } else {
        s
    }
}

/// `str::trim_end_matches(p)`: every trailing copy of `p` removed.
pub open spec fn strip_suffix_all(s: Seq<char>, p: Seq<char>) -> Seq<char>
    decreases s.len(),
{
    if p.len() > 0 && p.len() <= s.len() && ends_with(s, p) {
        strip_suffix_all(s.take(s.len() - p.len()), p)
    } else {
        s
    }
}

/// Model output with surrounding whitespace and a markdown code fence (with or
/// without the `json` tag) removed.
pub open spec fn unfenced(raw: Seq<char>) -> Seq<char> {
    trim(
        strip_suffix_all(
            strip_prefix_all(strip_prefix_all(trim(raw), "```json"@), "```"@),
            "```"@,
        ),
    )
}

pub(crate) fn strip_prefix_vec(v: Vec<char>, p: &Vec<char>) -> (r: Vec<char>)
    requires
        p.len() > 0,
    ensures
        r@ == strip_prefix_all(v@, p@),
    decreases v.len(),
{
    if matches_at(&v, p, 0) {
        let rest = slice_copy(&v, p.len(), v.len());
        assert(rest@ =~= v@.skip(p@.len() as int));
        strip_prefix_vec(rest, p)
    } else {
        v
    }
}

fn strip_suffix_vec(v: Vec<char>, p: &Vec<char>) -> (r: Vec<char>)
    requires
        p.len() > 0,
    ensures
        r@ == strip_suffix_all(v@, p@),
    decreases v.len(),
{
    if p.len() <= v.len() && matches_at(&v, p, v.len() - p.len()) {
        let rest = slice_copy(&v, 0, v.len() - p.len());
        assert(rest@ =~= v@.take(v@.len() - p@.len()));
        strip_suffix_vec(rest, p)
    } else {
        v
    }
}

/// Strip whitespace and a markdown code fence from model output.
pub fn strip_fence(raw: &str) -> (r: String)
    ensures
        r@ == unfenced(raw@),
{
    let v = chars_of(raw);
    let t = trim_chars(&v);
    let json_fence = chars_of("```json");
    let fence = chars_of("```");
    proof {
        reveal_strlit("```json");
        reveal_strlit("```");
    }
    let a = strip_prefix_vec(t, &json_fence);
    let b = strip_prefix_vec(a, &fence);
    let c = strip_suffix_vec(b, &fence);
    let d = trim_chars(&c);
    string_of(d.as_slice())
}

// ---- One option, one question ----

/// The first of two keys that is present (`get(a).or_else(|| get(b))`).
pub open spec fn either_field(o: JsonView, a: Seq<char>, b: Seq<char>) -> Option<JsonView> {
    match field(o, a) {
        Some(x) => Some(x),
        None => field(o, b),
    }
}

/// A present boolean, else false (`and_then(as_bool).unwrap_or(false)`).
pub open spec fn flag(v: Option<JsonView>) -> bool {
    match v {
        Some(x) => match bool_of(x) {
            Some(b) => b,
            None => false,
        },
        None => false,
    }
}

/// One multiple-choice option object.
pub open spec fn option_of(o: JsonView) -> Result<OptionView, Seq<char>> {
    if !(o is Object) {
        Err("option is not an object"@)
    } else {
        match str_field(o, "id"@) {
            None => Err("option missing id"@),
            Some(id) => match str_field(o, "text"@) {
                None => Err("option missing text"@),
                Some(text) => Ok(
                    OptionView {
                        id,
                        text,
                        is_correct: flag(either_field(o, "isCorrect"@, "is_correct"@)),
                    },
                ),
            },
        }
    }
}

/// The first `n` options, or the first option error.
pub open spec fn options_prefix(items: Seq<JsonView>, n: int) -> Result<Seq<OptionView>, Seq<char>>
    decreases n,
{
    if n <= 0 {
        Ok(Seq::empty())
    } else {
        match options_prefix(items, n - 1) {
            Err(e) => Err(e),
            Ok(os) => match option_of(items[n - 1]) {
                Err(e) => Err(e),
                Ok(o) => Ok(os.push(o)),
            },
        }
    }
}

proof fn lemma_options_err_persists(items: Seq<JsonView>, k: int, n: int)
    requires
        0 <= k <= n,
        options_prefix(items, k) is Err,
    ensures
        options_prefix(items, n) == options_prefix(items, k),
    decreases n - k,
{
    if n > k {
        lemma_options_err_persists(items, k, n - 1);
    }
}

/// How many options are marked correct.
pub open spec fn correct_count(os: Seq<OptionView>) -> nat
    decreases os.len(),
{
    if os.len() == 0 {
        0
    } else {
        correct_count(os.drop_last()) + if os.last().is_correct {
            1nat
        } else {
            0nat
        }
    }
}

pub open spec fn wrong_correct_count_msg(n: nat) -> Seq<char> {
    "multiple_choice must have exactly one correct option (found "@ + decimal(n as int) + ")"@
}

/// The options of a multiple-choice question: every option well formed and
/// exactly one marked correct.
pub open spec fn options_of(v: Option<JsonView>) -> Result<Seq<OptionView>, Seq<char>> {
    let arr = match v {
        Some(x) => array_of(x),
        None => None,
    };
    match arr {
        None => Err("multiple_choice missing options array"@),
        Some(items) => match options_prefix(items, items.len() as int) {
            Err(e) => Err(e),
            Ok(os) => if correct_count(os) != 1 {
                Err(wrong_correct_count_msg(correct_count(os)))
            } else {
                Ok(os)
            },
        },
    }
}

/// The string elements of an array, in order (non-strings are skipped).
pub open spec fn strings_prefix(items: Seq<JsonView>, n: int) -> Seq<Seq<char>>
    decreases n,
{
    if n <= 0 {
        Seq::empty()
    } else {
        match str_of(items[n - 1]) {
            Some(s) => strings_prefix(items, n - 1).push(s),
            None => strings_prefix(items, n - 1),
        }
    }
}

/// The repaired question type of a raw `type` string.
pub open spec fn question_type_of(t: Seq<char>) -> Option<QuestionType> {
    if t == "multiple_choice"@ {
        Some(QuestionType::MultipleChoice)
    } else if t == "fill_in_blank"@ {
        Some(QuestionType::FillInBlank)
    } else if t == "free_response"@ || t == "short_answer"@ || t == "open_ended"@ || t == "essay"@ {
        Some(QuestionType::FreeResponse)
    } else {
        None
    }
}

/// `n.clamp(1, 5)`.
pub open spec fn clamp_difficulty(n: i64) -> i64 {
    if n < 1 {
        1
    } else if n > 5 {
        5
    } else {
        n
    }
}

pub open spec fn default_rubric() -> Seq<char> {
    "Grade for correctness and completeness."@
}

/// `q` with the given answer-key parts.
pub open spec fn with_key(
    q: QuestionView,
    options: Option<Seq<OptionView>>,
    blanks: Option<Seq<Seq<char>>>,
    rubric: Option<Seq<char>>,
) -> QuestionView {
    QuestionView {
        id: q.id,
        question_type: q.question_type,
        prompt: q.prompt,
        options,
        blanks,
        rubric,
        explanation: q.explanation,
        difficulty: q.difficulty,
        is_transfer: q.is_transfer,
    }
}

/// Validate and repair one question object.
pub open spec fn repair_of(item: JsonView) -> Result<QuestionView, Seq<char>> {
    if !(item is Object) {
        Err("not a JSON object"@)
    } else {
        match str_field(item, "id"@) {
            None => Err("missing string id"@),
            Some(id) => match str_field(item, "type"@) {
                None => Err("missing string type"@),
                Some(t) => match question_type_of(t) {
                    None => Err("unsupported question type "@ + debug_str(t)),
                    Some(qt) => match str_field(item, "prompt"@) {
                        None => Err("missing string prompt"@),
                        Some(prompt) => {
                            let base = QuestionView {
                                id,
                                question_type: qt,
                                prompt,
                                options: None,
                                blanks: None,
                                rubric: None,
                                explanation: match str_field(item, "explanation"@) {
                                    Some(e) => e,
                                    None => Seq::empty(),
                                },
                                difficulty: clamp_difficulty(
                                    match int_field(item, "difficulty"@) {
                                        Some(d) => d,
                                        None => 1,
                                    },
                                ),
                                is_transfer: flag(either_field(item, "is_transfer"@, "isTransfer"@)),
                            };
                            match qt {
                                QuestionType::MultipleChoice => match options_of(
                                    field(item, "options"@),
                                ) {
                                    Err(e) => Err(e),
                                    Ok(os) => Ok(with_key(base, Some(os), None, None)),
                                },
                                QuestionType::FillInBlank => {
                                    let arr = match field(item, "blanks"@) {
                                        Some(x) => array_of(x),
                                        None => None,
                                    };
                                    match arr {
                                        None => Err("fill_in_blank missing blanks array"@),
                                        Some(items) => {
                                            let bs = strings_prefix(items, items.len() as int);
                                            if bs.len() == 0 {
                                                Err("fill_in_blank has no acceptable answers"@)
                                            } else {
                                                Ok(with_key(base, None, Some(bs), None))
                                            }
                                        },
                                    }
                                },
                                QuestionType::FreeResponse => Ok(
                                    with_key(
                                        base,
                                        None,
                                        None,
                                        Some(
                                            match str_field(item, "rubric"@) {
                                                Some(r) => r,
                                                None => default_rubric(),
                                            },
                                        ),
                                    ),
                                ),
                            }
                        },
                    },
                },
            },
        }
    }
}

/// The abstract reading of an exec `Result` of options.
pub open spec fn options_result(r: Result<Vec<QuizOption>, String>) -> Result<Seq<OptionView>, Seq<char>> {
    match r {
        Ok(v) => Ok(options_view(v@)),
        Err(e) => Err(e@),
    }
}

/// `value.get(a).or_else(|| value.get(b)).and_then(as_bool).unwrap_or(false)`.
fn flag_either(o: &Json, a: &str, b: &str) -> (r: bool)
    ensures
        r == flag(either_field(o@, a@, b@)),
{
    let v = match get(o, a) {
        Some(x) => Some(x),
        None => get(o, b),
    };
    match v {
        Some(x) => match as_bool(x) {
            Some(b) => b,
            None => false,
        },
        None => false,
    }
}

/// Read the options of a multiple-choice question.
pub fn parse_options(v: Option<&Json>) -> (r: Result<Vec<QuizOption>, String>)
    ensures
        options_result(r) == options_of(
            match v {
                Some(x) => Some(x@),
                None => None,
            },
        ),
{
    let ghost vv = match v {
        Some(x) => Some(x@),
        None => None,
    };
    let arr = match v {
        Some(x) => match as_array(x) {
            Some(a) => a,
            None => return Err(owned("multiple_choice missing options array")),
        },
        None => return Err(owned("multiple_choice missing options array")),
    };
    let ghost items = elements_view(arr@);
    let mut out: Vec<QuizOption> = Vec::new();
    let mut correct: usize = 0;
    let mut i: usize = 0;
    assert(options_view(out@) =~= Seq::<OptionView>::empty());
    while i < arr.len()
        invariant
            items == elements_view(arr@),
            vv == match v {
                Some(x) => Some(x@),
                None => None::<JsonView>,
            },
            match vv {
                Some(x) => array_of(x) == Some(items),
                None => false,
            },
            i <= arr@.len(),
            out@.len() == i,
            options_prefix(items, i as int) == Ok::<Seq<OptionView>, Seq<char>>(options_view(out@)),
            correct == correct_count(options_view(out@)),
            correct <= i,
        decreases arr.len() - i,
    {
        let o = &arr[i];
        assert(items[i as int] == o@);
        if !is_object(o) {
            proof {
                assert(option_of(items[i as int]) == Err::<OptionView, Seq<char>>("option is not an object"@));
                assert(options_prefix(items, i + 1) == Err::<Seq<OptionView>, Seq<char>>("option is not an object"@));
                lemma_options_err_persists(items, i + 1, items.len() as int);
                assert(options_of(vv) == Err::<Seq<OptionView>, Seq<char>>("option is not an object"@));
            }
            return Err(owned("option is not an object"));
        }
        let id = match get_str(o, "id") {
            Some(s) => owned(s),
            None => {
                proof {
                    lemma_options_err_persists(items, i + 1, items.len() as int);
                }
                return Err(owned("option missing id"));
            },
        };
        let text = match get_str(o, "text") {
            Some(s) => owned(s),
            None => {
                proof {
                    lemma_options_err_persists(items, i + 1, items.len() as int);
                }
                return Err(owned("option missing text"));
            },
        };
        let is_correct = flag_either(o, "isCorrect", "is_correct");
        let ghost before = out@;
        out.push(QuizOption { id, text, is_correct });
        assert(options_view(out@) =~= options_view(before).push(out@[i as int]@));
        assert(options_view(out@).drop_last() =~= options_view(before));
        if is_correct {
            correct = correct + 1;
        }
        i = i + 1;
    }
    if correct != 1 {
        let mut msg = chars_of("multiple_choice must have exactly one correct option (found ");
        let ghost m0 = msg@;
        push_digits(&mut msg, correct as u64);
        let ghost m1 = msg@;
        assert(m1 == m0 + digits_nat(correct as nat));
        push_str(&mut msg, ")");
        assert(msg@ == m1 + ")"@);
        assert(decimal(correct as int) == digits_nat(correct as nat));
        assert(msg@ =~= wrong_correct_count_msg(correct as nat));
        return Err(string_of(msg.as_slice()));
    }
    Ok(out)
}

/// The string elements of an array, in order.
fn string_elements(arr: &Vec<Json>) -> (r: Vec<String>)
    ensures
        strings_view(r@) == strings_prefix(elements_view(arr@), arr@.len() as int),
{
    let ghost items = elements_view(arr@);
    let mut out: Vec<String> = Vec::new();
    assert(strings_view(out@) =~= Seq::<Seq<char>>::empty());
    let mut i: usize = 0;
    while i < arr.len()
        invariant
            items == elements_view(arr@),
            i <= arr@.len(),
            strings_view(out@) == strings_prefix(items, i as int),
        decreases arr.len() - i,
    {
        assert(items[i as int] == arr@[i as int]@);
        let ghost before = out@;
        match as_str(&arr[i]) {
            Some(s) => {
                out.push(owned(s));
                assert(strings_view(out@) =~= strings_view(before).push(s@));
            },
            None => {},
        }
        i = i + 1;
    }
    out
}

/// The abstract reading of an exec `Result` of a question.
pub open spec fn question_result(r: Result<Question, String>) -> Result<QuestionView, Seq<char>> {
    match r {
        Ok(q) => Ok(q@),
        Err(e) => Err(e@),
    }
}

/// Map a raw `type` string to its (repaired) question type.
fn question_type_from(t: &str) -> (r: Option<QuestionType>)
    ensures
        r == question_type_of(t@),
{
    if str_eq(t, "multiple_choice") {
        Some(QuestionType::MultipleChoice)
    } else if str_eq(t, "fill_in_blank") {
        Some(QuestionType::FillInBlank)
    } else if str_eq(t, "free_response") || str_eq(t, "short_answer") || str_eq(t, "open_ended")
        || str_eq(t, "essay") {
        Some(QuestionType::FreeResponse)
    } else {
        None
    }
}

/// Validate and repair a single question object.
pub fn repair_one(item: &Json) -> (r: Result<Question, String>)
    ensures
        question_result(r) == repair_of(item@),
{
    if !is_object(item) {
        return Err(owned("not a JSON object"));
    }
    let id = match get_str(item, "id") {
        Some(s) => owned(s),
        None => return Err(owned("missing string id")),
    };
    let raw_type = match get_str(item, "type") {
        Some(s) => s,
        None => return Err(owned("missing string type")),
    };
    let question_type = match question_type_from(raw_type) {
        Some(t) => t,
        None => {
            let mut msg = chars_of("unsupported question type ");
            let shown = debug_quoted(raw_type);
            push_str(&mut msg, shown.as_str());
            return Err(string_of(msg.as_slice()));
        },
    };
    let prompt = match get_str(item, "prompt") {
        Some(s) => owned(s),
        None => return Err(owned("missing string prompt")),
    };
    let explanation = match get_str(item, "explanation") {
        Some(s) => owned(s),
        None => String::new(),
    };
    let d = match get_i64(item, "difficulty") {
        Some(d) => d,
        None => 1,
    };
    let difficulty = if d < 1 {
        1
    } else if d > 5 {
        5
    } else {
        d
    };
    let is_transfer = flag_either(item, "is_transfer", "isTransfer");
    match question_type {
        QuestionType::MultipleChoice => {
            let opts = match parse_options(get(item, "options")) {
                Ok(o) => o,
                Err(e) => return Err(e),
            };
            Ok(
                Question {
                    id,
                    question_type,
                    prompt,
                    options: Some(opts),
                    blanks: None,
                    rubric: None,
                    explanation,
                    difficulty,
                    is_transfer,
                },
            )
        },
        QuestionType::FillInBlank => {
            let arr = match get(item, "blanks") {
                Some(x) => match as_array(x) {
                    Some(a) => a,
                    None => return Err(owned("fill_in_blank missing blanks array")),
                },
                None => return Err(owned("fill_in_blank missing blanks array")),
            };
            let blanks = string_elements(arr);
            if blanks.len() == 0 {
                return Err(owned("fill_in_blank has no acceptable answers"));
            }
            Ok(
                Question {
                    id,
                    question_type,
                    prompt,
                    options: None,
                    blanks: Some(blanks),
                    rubric: None,
                    explanation,
                    difficulty,
                    is_transfer,
                },
            )
        },
        QuestionType::FreeResponse => {
            let rubric = match get_str(item, "rubric") {
                Some(r) => owned(r),
                None => owned("Grade for correctness and completeness."),
            };
            Ok(
                Question {
                    id,
                    question_type,
                    prompt,
                    options: None,
                    blanks: None,
                    rubric: Some(rubric),
                    explanation,
                    difficulty,
                    is_transfer,
                },
            )
        },
    }
}

// ---- The whole quiz ----

pub open spec fn question_error(i: int, e: Seq<char>) -> Seq<char> {
    "question["@ + decimal(i) + "]: "@ + e
}

/// The first `n` questions repaired, or the first question's error (tagged
/// with its index).
pub open spec fn questions_prefix(items: Seq<JsonView>, n: int) -> Result<Seq<QuestionView>, Seq<char>>
    decreases n,
{
    if n <= 0 {
        Ok(Seq::empty())
    } else {
        match questions_prefix(items, n - 1) {
            Err(e) => Err(e),
            Ok(qs) => match repair_of(items[n - 1]) {
                Err(e) => Err(question_error(n - 1, e)),
                Ok(q) => Ok(qs.push(q)),
            },
        }
    }
}

proof fn lemma_questions_err_persists(items: Seq<JsonView>, k: int, n: int)
    requires
        0 <= k <= n,
        questions_prefix(items, k) is Err,
    ensures
        questions_prefix(items, n) == questions_prefix(items, k),
    decreases n - k,
{
    if n > k {
        lemma_questions_err_persists(items, k, n - 1);
    }
}

proof fn lemma_questions_prefix_len(items: Seq<JsonView>, n: int)
    requires
        0 <= n,
        questions_prefix(items, n) is Ok,
    ensures
        questions_prefix(items, n)->Ok_0.len() == n,
    decreases n,
{
    if n > 0 {
        lemma_questions_prefix_len(items, n - 1);
    }
}

pub open spec fn too_few_msg(n: nat) -> Seq<char> {
    "quiz has too few questions ("@ + decimal(n as int) + " < 3)"@
}

/// The quiz held by a parsed document: an array of at least `MIN_QUESTIONS`
/// repairable questions.
pub open spec fn quiz_from_doc(v: JsonView) -> Result<Seq<QuestionView>, Seq<char>> {
    match array_of(v) {
        None => Err("quiz output must be a JSON array"@),
        Some(items) => match questions_prefix(items, items.len() as int) {
            Err(e) => Err(e),
            Ok(qs) => if qs.len() < MIN_QUESTIONS {
                Err(too_few_msg(qs.len()))
            } else {
                Ok(qs)
            },
        },
    }
}

/// The quiz in a model's raw output (fence-tolerant).
pub open spec fn quiz_of(raw: Seq<char>) -> Result<Seq<QuestionView>, Seq<char>> {
    match json_parse(unfenced(raw)) {
        Err(e) => Err("quiz output is not valid JSON: "@ + e),
        Ok(v) => quiz_from_doc(v),
    }
}

/// The abstract reading of an exec quiz result.
pub open spec fn quiz_result(r: Result<Vec<Question>, String>) -> Result<Seq<QuestionView>, Seq<char>> {
    match r {
        Ok(v) => Ok(questions_view(v@)),
        Err(e) => Err(e@),
    }
}

/// Repair every question of a parsed quiz document.
pub fn questions_from_doc(doc: &Json) -> (r: Result<Vec<Question>, String>)
    ensures
        quiz_result(r) == quiz_from_doc(doc@),
{
    let arr = match as_array(doc) {
        Some(a) => a,
        None => return Err(owned("quiz output must be a JSON array")),
    };
    let ghost items = elements_view(arr@);
    let mut out: Vec<Question> = Vec::new();
    let mut i: usize = 0;
    assert(questions_view(out@) =~= Seq::<QuestionView>::empty());
    while i < arr.len()
        invariant
            items == elements_view(arr@),
            array_of(doc@) == Some(items),
            i <= arr@.len(),
            out@.len() == i,
            questions_prefix(items, i as int) == Ok::<Seq<QuestionView>, Seq<char>>(
                questions_view(out@),
            ),
        decreases arr.len() - i,
    {
        assert(items[i as int] == arr@[i as int]@);
        match repair_one(&arr[i]) {
            Ok(q) => {
                let ghost before = out@;
                out.push(q);
                assert(questions_view(out@) =~= questions_view(before).push(out@[i as int]@));
            },
            Err(e) => {
                let mut msg = chars_of("question[");
                push_digits(&mut msg, i as u64);
                push_str(&mut msg, "]: ");
                push_str(&mut msg, e.as_str());
                proof {
                    assert(decimal(i as int) == digits_nat(i as nat));
                    assert(msg@ =~= question_error(i as int, e@));
                    lemma_questions_err_persists(items, i + 1, items.len() as int);
                }
                return Err(string_of(msg.as_slice()));
            },
        }
        i = i + 1;
    }
    if out.len() < MIN_QUESTIONS {
        let mut msg = chars_of("quiz has too few questions (");
        push_digits(&mut msg, out.len() as u64);
        push_str(&mut msg, " < 3)");
        proof {
            assert(decimal(out@.len() as int) == digits_nat(out@.len() as nat));
            assert(msg@ =~= too_few_msg(out@.len()));
        }
        return Err(string_of(msg.as_slice()));
    }
    Ok(out)
}

/// Shared parse core: strip a fence, parse, repair every question.
fn parse_questions(raw: &str) -> (r: Result<Vec<Question>, String>)
    ensures
        quiz_result(r) == quiz_of(raw@),
{
    let trimmed = strip_fence(raw);
    match parse_json(trimmed.as_str()) {
        Ok(doc) => questions_from_doc(&doc),
        Err(e) => Err(concat2("quiz output is not valid JSON: ", e.as_str())),
    }
}

/// The ids of a list of questions.
pub open spec fn ids_of(qs: Seq<QuestionView>) -> Seq<Seq<char>> {
    Seq::new(qs.len(), |i: int| qs[i].id)
}

/// The first id (scanning in order) that already occurred earlier, if any.
pub open spec fn first_duplicate(ids: Seq<Seq<char>>, n: int) -> Option<Seq<char>>
    decreases n,
{
    if n <= 0 {
        None
    } else {
        match first_duplicate(ids, n - 1) {
            Some(d) => Some(d),
            None => if ids.take(n - 1).contains(ids[n - 1]) {
                Some(ids[n - 1])
            } else {
                None
            },
        }
    }
}

/// The strict reading of a quiz: repaired, and rejected when two questions
/// share an id.
pub open spec fn strict_quiz_of(raw: Seq<char>) -> Result<Seq<QuestionView>, Seq<char>> {
    match quiz_of(raw) {
        Err(e) => Err(e),
        Ok(qs) => match first_duplicate(ids_of(qs), qs.len() as int) {
            Some(d) => Err("duplicate question id "@ + debug_str(d)),
            None => Ok(qs),
        },
    }
}

/// Does `qs[i].id` equal one of the ids before it?
fn id_seen_before(qs: &Vec<Question>, i: usize) -> (b: bool)
    requires
        i < qs@.len(),
    ensures
        b == ids_of(questions_view(qs@)).take(i as int).contains(qs@[i as int].id@),
{
    let ghost ids = ids_of(questions_view(qs@));
    let mut j: usize = 0;
    while j < i
        invariant
            ids == ids_of(questions_view(qs@)),
            i < qs@.len(),
            j <= i,
            forall|k: int| 0 <= k < j ==> ids[k] != qs@[i as int].id@,
        decreases i - j,
    {
        if str_eq(qs[j].id.as_str(), qs[i].id.as_str()) {
            assert(ids.take(i as int)[j as int] == qs@[i as int].id@);
            return true;
        }
        j = j + 1;
    }
    assert forall|k: int| 0 <= k < i implies ids.take(i as int)[k] != qs@[i as int].id@ by {
        assert(ids.take(i as int)[k] == ids[k]);
    }
    false
}

/// The index of the first question whose id repeats an earlier one.
fn first_duplicate_index(qs: &Vec<Question>) -> (r: Option<usize>)
    ensures
        match r {
            Some(i) => i < qs@.len() && first_duplicate(
                ids_of(questions_view(qs@)),
                qs@.len() as int,
            ) == Some(qs@[i as int].id@),
            None => first_duplicate(ids_of(questions_view(qs@)), qs@.len() as int) is None,
        },
{
    let ghost ids = ids_of(questions_view(qs@));
    let mut i: usize = 0;
    while i < qs.len()
        invariant
            ids == ids_of(questions_view(qs@)),
            i <= qs@.len(),
            first_duplicate(ids, i as int) is None,
        decreases qs.len() - i,
    {
        if id_seen_before(qs, i) {
            proof {
                assert(ids[i as int] == qs@[i as int].id@);
                lemma_first_duplicate_persists(ids, i + 1, qs@.len() as int);
            }
            return Some(i);
        }
        i = i + 1;
    }
    None
}

proof fn lemma_first_duplicate_persists(ids: Seq<Seq<char>>, k: int, n: int)
    requires
        0 <= k <= n,
        first_duplicate(ids, k) is Some,
    ensures
        first_duplicate(ids, n) == first_duplicate(ids, k),
    decreases n - k,
{
    if n > k {
        lemma_first_duplicate_persists(ids, k, n - 1);
    }
}

/// Parse and validate a model's quiz output (a JSON array, optionally in a
/// markdown fence): the repaired questions, or the first unrepairable
/// problem. `short_answer`-like types become free-response; unknown types,
/// fewer than `MIN_QUESTIONS` questions and duplicate ids are rejected.
pub fn parse_and_repair(raw: &str) -> (r: Result<Vec<Question>, String>)
    ensures
        quiz_result(r) == strict_quiz_of(raw@),
{
    let out = match parse_questions(raw) {
        Ok(o) => o,
        Err(e) => return Err(e),
    };
    match first_duplicate_index(&out) {
        Some(i) => {
            let shown = debug_quoted(out[i].id.as_str());
            Err(concat2("duplicate question id ", shown.as_str()))
        },
        None => Ok(out),
    }
}

/// The canonical id of the question at index `i`: `q1`, `q2`, ...
pub open spec fn canonical_id(i: int) -> Seq<char> {
    "q"@ + decimal(i + 1)
}

/// `q` with another id.
pub open spec fn with_id(q: QuestionView, id: Seq<char>) -> QuestionView {
    QuestionView {
        id,
        question_type: q.question_type,
        prompt: q.prompt,
        options: q.options,
        blanks: q.blanks,
        rubric: q.rubric,
        explanation: q.explanation,
        difficulty: q.difficulty,
        is_transfer: q.is_transfer,
    }
}

/// The questions re-numbered `q1..qN` in array order.
pub open spec fn renumbered(qs: Seq<QuestionView>) -> Seq<QuestionView> {
    Seq::new(qs.len(), |i: int| with_id(qs[i], canonical_id(i)))
}

/// The id `q{n}`.
pub(crate) fn canonical_id_string(n: usize) -> (r: String)
    requires
        n < usize::MAX,
    ensures
        r@ == canonical_id(n as int),
{
    let mut v = chars_of("q");
    push_digits(&mut v, (n + 1) as u64);
    proof {
        assert(decimal(n + 1) == digits_nat((n + 1) as nat));
        assert(v@ =~= canonical_id(n as int));
    }
    string_of(v.as_slice())
}

/// Deterministic canonical ids: `q1..qN` in array order.
pub fn renumber_ids(questions: &mut Vec<Question>)
    ensures
        questions_view(final(questions)@) == renumbered(questions_view(old(questions)@)),
{
    let ghost orig = questions_view(questions@);
    let mut i: usize = 0;
    while i < questions.len()
        invariant
            i <= questions@.len(),
            orig.len() == questions@.len(),
            forall|k: int| 0 <= k < i ==> (#[trigger] questions@[k])@ == with_id(orig[k], canonical_id(k)),
            forall|k: int| i <= k < questions@.len() ==> (#[trigger] questions@[k])@ == orig[k],
        decreases questions.len() - i,
    {
        let id = canonical_id_string(i);
        questions[i].id = id;
        i = i + 1;
    }
    assert(questions_view(questions@) =~= renumbered(orig));
}

/// The generation reading of a quiz: repaired, then re-numbered `q1..qN`.
pub open spec fn generated_quiz_of(raw: Seq<char>) -> Result<Seq<QuestionView>, Seq<char>> {
    match quiz_of(raw) {
        Err(e) => Err(e),
        Ok(qs) => Ok(renumbered(qs)),
    }
}

/// Parse fresh model output for the generation paths: the same validation
/// and repair, then the ids are re-numbered `q1..qN`, so duplicate or odd
/// model-emitted ids are normalized rather than rejected.
pub fn parse_and_renumber(raw: &str) -> (r: Result<Vec<Question>, String>)
    ensures
        quiz_result(r) == generated_quiz_of(raw@),
{
    let mut out = match parse_questions(raw) {
        Ok(o) => o,
        Err(e) => return Err(e),
    };
    renumber_ids(&mut out);
    Ok(out)
}

// ---- Laws ----

/// What every accepted question satisfies: difficulty within 1..=5, and the
/// answer key its type needs (exactly one correct option; at least one
/// accepted blank; a rubric).
pub open spec fn well_formed_question(q: QuestionView) -> bool {
    &&& 1 <= q.difficulty <= 5
    &&& match q.question_type {
        QuestionType::MultipleChoice => q.options matches Some(os) && correct_count(os) == 1,
        QuestionType::FillInBlank => q.blanks matches Some(bs) && bs.len() > 0,
        QuestionType::FreeResponse => q.rubric is Some,
    }
}

proof fn lemma_repair_well_formed(item: JsonView)
    requires
        repair_of(item) is Ok,
    ensures
        well_formed_question(repair_of(item)->Ok_0),
{
}

proof fn lemma_prefix_well_formed(items: Seq<JsonView>, n: int)
    requires
        0 <= n,
        questions_prefix(items, n) is Ok,
    ensures
        questions_prefix(items, n)->Ok_0.len() == n,
        forall|k: int|
            0 <= k < n ==> well_formed_question(#[trigger] questions_prefix(items, n)->Ok_0[k]),
    decreases n,
{
    if n > 0 {
        lemma_prefix_well_formed(items, n - 1);
        lemma_repair_well_formed(items[n - 1]);
    }
}

/// Every quiz the strict parse accepts has at least `MIN_QUESTIONS` questions,
/// pairwise distinct ids, and only well-formed questions.
pub proof fn lemma_accepted_quiz_well_formed(raw: Seq<char>)
    requires
        strict_quiz_of(raw) is Ok,
    ensures
        strict_quiz_of(raw)->Ok_0.len() >= MIN_QUESTIONS,
        first_duplicate(ids_of(strict_quiz_of(raw)->Ok_0), strict_quiz_of(raw)->Ok_0.len() as int) is None,
        forall|k: int|
            0 <= k < strict_quiz_of(raw)->Ok_0.len() ==> well_formed_question(
                #[trigger] strict_quiz_of(raw)->Ok_0[k],
            ),
{
    if let Ok(v) = json_parse(unfenced(raw)) {
        if let Some(items) = array_of(v) {
            lemma_prefix_well_formed(items, items.len() as int);
        }
    }
}

/// The digits of two naturals agree only when the naturals do.
pub proof fn lemma_digits_injective(n: nat, m: nat)
    requires
        digits_nat(n) == digits_nat(m),
    ensures
        n == m,
    decreases n,
{
    lemma_digits_len(n);
    lemma_digits_len(m);
    if n >= 10 && m >= 10 {
        let dn = digits_nat(n);
        let dm = digits_nat(m);
        assert(dn.drop_last() == digits_nat(n / 10));
        assert(dm.drop_last() == digits_nat(m / 10));
        assert(dn.last() == dm.last());
        lemma_digit_char_injective((n % 10) as int, (m % 10) as int);
        lemma_digits_injective(n / 10, m / 10);
    } else if n < 10 && m < 10 {
        assert(digits_nat(n) == seq![digit_char(n as int)]);
        assert(digits_nat(m) == seq![digit_char(m as int)]);
        assert(seq![digit_char(n as int)][0] == digit_char(n as int));
        assert(seq![digit_char(m as int)][0] == digit_char(m as int));
        assert(digit_char(n as int) == digit_char(m as int));
        lemma_digit_char_injective(n as int, m as int);
    }
}

proof fn lemma_digit_char_injective(a: int, b: int)
    requires
        0 <= a < 10,
        0 <= b < 10,
        digit_char(a) == digit_char(b),
    ensures
        a == b,
{
    assert(digit_char(a) as u32 == a + 48);
    assert(digit_char(b) as u32 == b + 48);
}

proof fn lemma_digits_len(n: nat)
    ensures
        n < 10 ==> digits_nat(n).len() == 1,
        n >= 10 ==> digits_nat(n).len() >= 2,
    decreases n,
{
    if n >= 10 {
        lemma_digits_len(n / 10);
    }
}

/// Distinct positions get distinct canonical ids.
pub proof fn lemma_canonical_ids_distinct(i: int, j: int)
    requires
        0 <= i,
        0 <= j,
        i != j,
    ensures
        canonical_id(i) != canonical_id(j),
{
    if canonical_id(i) == canonical_id(j) {
        reveal_strlit("q");
        assert(decimal(i + 1) =~= canonical_id(i).skip(1));
        assert(decimal(j + 1) =~= canonical_id(j).skip(1));
        lemma_digits_injective((i + 1) as nat, (j + 1) as nat);
    }
}

/// Re-numbering makes every id unique, so a re-numbered quiz always passes
/// the strict duplicate-id check.
pub proof fn lemma_renumbered_ids_unique(qs: Seq<QuestionView>)
    ensures
        first_duplicate(ids_of(renumbered(qs)), qs.len() as int) is None,
{
    let ids = ids_of(renumbered(qs));
    assert forall|n: int| 0 <= n <= qs.len() implies first_duplicate(ids, n) is None by {
        lemma_no_duplicate_prefix(qs, n);
    }
}

proof fn lemma_no_duplicate_prefix(qs: Seq<QuestionView>, n: int)
    requires
        0 <= n <= qs.len(),
    ensures
        first_duplicate(ids_of(renumbered(qs)), n) is None,
    decreases n,
{
    if n > 0 {
        lemma_no_duplicate_prefix(qs, n - 1);
        let ids = ids_of(renumbered(qs));
        if ids.take(n - 1).contains(ids[n - 1]) {
            let k = choose|k: int| 0 <= k < n - 1 && #[trigger] ids.take(n - 1)[k] == ids[n - 1];
            assert(ids[k] == canonical_id(k));
            lemma_canonical_ids_distinct(k, n - 1);
        }
    }
}

/// The free-text type names a model emits.
pub open spec fn free_text_name(t: Seq<char>) -> bool {
    t == "free_response"@ || t == "short_answer"@ || t == "open_ended"@ || t == "essay"@
}

/// Every free-text alias is repaired, never rejected: an object with a string
/// id and prompt whose type is `free_response`, `short_answer`, `open_ended`
/// or `essay` becomes a free-response question with that id and prompt, and
/// with its rubric, or the synthesized one when it gives none.
pub proof fn lemma_free_text_aliases_repaired(item: JsonView)
    requires
        item is Object,
        str_field(item, "id"@) is Some,
        str_field(item, "prompt"@) is Some,
        str_field(item, "type"@) is Some,
        free_text_name(str_field(item, "type"@)->Some_0),
    ensures
        repair_of(item) is Ok,
        repair_of(item)->Ok_0.question_type == QuestionType::FreeResponse,
        repair_of(item)->Ok_0.id == str_field(item, "id"@)->Some_0,
        repair_of(item)->Ok_0.prompt == str_field(item, "prompt"@)->Some_0,
        repair_of(item)->Ok_0.rubric == Some(
            match str_field(item, "rubric"@) {
                Some(r) => r,
                None => "Grade for correctness and completeness."@,
            },
        ),
{
    reveal_strlit("multiple_choice");
    reveal_strlit("fill_in_blank");
    reveal_strlit("free_response");
    reveal_strlit("short_answer");
    reveal_strlit("open_ended");
    reveal_strlit("essay");
    let t = str_field(item, "type"@)->Some_0;
    assert(t != "multiple_choice"@) by {
        if t == "multiple_choice"@ {
            assert("multiple_choice"@.len() == 15);
        }
    }
    assert(t != "fill_in_blank"@) by {
        if t == "fill_in_blank"@ {
            assert("fill_in_blank"@[1] != "free_response"@[1]);
            assert("fill_in_blank"@.len() != "short_answer"@.len());
            assert("fill_in_blank"@.len() != "open_ended"@.len());
            assert("fill_in_blank"@.len() != "essay"@.len());
        }
    }
    assert(question_type_of(t) == Some(QuestionType::FreeResponse));
}

} // verus!
