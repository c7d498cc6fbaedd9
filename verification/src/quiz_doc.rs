//! The document a quiz is stored as, and the law that it reads back: a quiz
//! that generation accepted, written as the JSON document its stored form
//! serializes to, is read by the strict grading parse as the very same quiz.

use vstd::prelude::*;

use crate::contract::{OptionView, QuestionType, QuestionView};
use crate::json::{array_of, json_parse, lookup, JsonView};
use crate::lesson::question_type_tag;
use crate::quiz_schema::{
    canonical_id, generated_quiz_of, lemma_renumbered_ids_unique, option_of, options_prefix,
    question_type_of, questions_prefix, quiz_from_doc, quiz_of, renumbered, repair_of, strict_quiz_of,
    strings_prefix, unfenced, well_formed_question, with_id, MIN_QUESTIONS,
};

verus! {

// ---- The stored document ----

/// A stored option: `{"id", "isCorrect", "text"}`.
pub open spec fn option_doc(o: OptionView) -> JsonView {
    JsonView::Object(
        seq![("id"@, JsonView::Str(o.id)), ("isCorrect"@, JsonView::Bool(o.is_correct)), ("text"@, JsonView::Str(o.text))],
    )
}

pub open spec fn option_docs(os: Seq<OptionView>) -> Seq<JsonView> {
    Seq::new(os.len(), |i: int| option_doc(os[i]))
}

pub open spec fn string_docs(bs: Seq<Seq<char>>) -> Seq<JsonView> {
    Seq::new(bs.len(), |i: int| JsonView::Str(bs[i]))
}

/// A stored question: its fields under their camel-case keys in key order,
/// an absent answer-key part left out.
pub open spec fn question_doc(q: QuestionView) -> JsonView {
    JsonView::Object(
        (match q.blanks {
            Some(bs) => seq![("blanks"@, JsonView::Array(string_docs(bs)))],
            None => Seq::empty(),
        }) + seq![
            ("difficulty"@, JsonView::Number(Some(q.difficulty))),
            ("explanation"@, JsonView::Str(q.explanation)),
            ("id"@, JsonView::Str(q.id)),
            ("isTransfer"@, JsonView::Bool(q.is_transfer)),
        ] + (match q.options {
            Some(os) => seq![("options"@, JsonView::Array(option_docs(os)))],
            None => Seq::empty(),
        }) + seq![("prompt"@, JsonView::Str(q.prompt))] + (match q.rubric {
            Some(r) => seq![("rubric"@, JsonView::Str(r))],
            None => Seq::empty(),
        }) + seq![("type"@, JsonView::Str(question_type_tag(q.question_type)))],
    )
}

/// A stored quiz: the array of its questions' documents.
pub open spec fn quiz_doc(qs: Seq<QuestionView>) -> JsonView {
    JsonView::Array(Seq::new(qs.len(), |i: int| question_doc(qs[i])))
}

/// A question as repair leaves it: well formed, and holding only the
/// answer-key part its type uses.
pub open spec fn canonical_question(q: QuestionView) -> bool {
    &&& well_formed_question(q)
    &&& match q.question_type {
        QuestionType::MultipleChoice => q.blanks is None && q.rubric is None,
        QuestionType::FillInBlank => q.options is None && q.rubric is None,
        QuestionType::FreeResponse => q.options is None && q.blanks is None,
    }
}

// ---- Reading fields back ----

proof fn lemma_lookup_at(es: Seq<(Seq<char>, JsonView)>, key: Seq<char>, k: int)
    requires
        0 <= k < es.len(),
        es[k].0 == key,
        forall|j: int| 0 <= j < k ==> #[trigger] es[j].0 != key,
    ensures
        lookup(es, key) == Some(es[k].1),
    decreases k,
{
    if k > 0 {
        let t = es.drop_first();
        assert forall|j: int| 0 <= j < k - 1 implies #[trigger] t[j].0 != key by {
            assert(t[j] == es[j + 1]);
        }
        assert(es[0].0 != key);
        lemma_lookup_at(t, key, k - 1);
    }
}

proof fn lemma_lookup_none(es: Seq<(Seq<char>, JsonView)>, key: Seq<char>)
    requires
        forall|j: int| 0 <= j < es.len() ==> #[trigger] es[j].0 != key,
    ensures
        lookup(es, key) is None,
    decreases es.len(),
{
    if es.len() > 0 {
        let t = es.drop_first();
        assert forall|j: int| 0 <= j < t.len() implies #[trigger] t[j].0 != key by {
            assert(t[j] == es[j + 1]);
        }
        assert(es[0].0 != key);
        lemma_lookup_none(t, key);
    }
}

/// The stored keys are pairwise distinct.
proof fn lemma_keys_distinct()
    ensures
        "id"@ != "type"@,
        "id"@ != "text"@,
        "id"@ != "prompt"@,
        "id"@ != "rubric"@,
        "id"@ != "blanks"@,
        "id"@ != "options"@,
        "id"@ != "isCorrect"@,
        "id"@ != "isTransfer"@,
        "id"@ != "difficulty"@,
        "id"@ != "is_correct"@,
        "id"@ != "explanation"@,
        "id"@ != "is_transfer"@,
        "type"@ != "text"@,
        "type"@ != "prompt"@,
        "type"@ != "rubric"@,
        "type"@ != "blanks"@,
        "type"@ != "options"@,
        "type"@ != "isCorrect"@,
        "type"@ != "isTransfer"@,
        "type"@ != "difficulty"@,
        "type"@ != "is_correct"@,
        "type"@ != "explanation"@,
        "type"@ != "is_transfer"@,
        "text"@ != "prompt"@,
        "text"@ != "rubric"@,
        "text"@ != "blanks"@,
        "text"@ != "options"@,
        "text"@ != "isCorrect"@,
        "text"@ != "isTransfer"@,
        "text"@ != "difficulty"@,
        "text"@ != "is_correct"@,
        "text"@ != "explanation"@,
        "text"@ != "is_transfer"@,
        "prompt"@ != "rubric"@,
        "prompt"@ != "blanks"@,
        "prompt"@ != "options"@,
        "prompt"@ != "isCorrect"@,
        "prompt"@ != "isTransfer"@,
        "prompt"@ != "difficulty"@,
        "prompt"@ != "is_correct"@,
        "prompt"@ != "explanation"@,
        "prompt"@ != "is_transfer"@,
        "rubric"@ != "blanks"@,
        "rubric"@ != "options"@,
        "rubric"@ != "isCorrect"@,
        "rubric"@ != "isTransfer"@,
        "rubric"@ != "difficulty"@,
        "rubric"@ != "is_correct"@,
        "rubric"@ != "explanation"@,
        "rubric"@ != "is_transfer"@,
        "blanks"@ != "options"@,
        "blanks"@ != "isCorrect"@,
        "blanks"@ != "isTransfer"@,
        "blanks"@ != "difficulty"@,
        "blanks"@ != "is_correct"@,
        "blanks"@ != "explanation"@,
        "blanks"@ != "is_transfer"@,
        "options"@ != "isCorrect"@,
        "options"@ != "isTransfer"@,
        "options"@ != "difficulty"@,
        "options"@ != "is_correct"@,
        "options"@ != "explanation"@,
        "options"@ != "is_transfer"@,
        "isCorrect"@ != "isTransfer"@,
        "isCorrect"@ != "difficulty"@,
        "isCorrect"@ != "is_correct"@,
        "isCorrect"@ != "explanation"@,
        "isCorrect"@ != "is_transfer"@,
        "isTransfer"@ != "difficulty"@,
        "isTransfer"@ != "is_correct"@,
        "isTransfer"@ != "explanation"@,
        "isTransfer"@ != "is_transfer"@,
        "difficulty"@ != "is_correct"@,
        "difficulty"@ != "explanation"@,
        "difficulty"@ != "is_transfer"@,
        "is_correct"@ != "explanation"@,
        "is_correct"@ != "is_transfer"@,
        "explanation"@ != "is_transfer"@,
{
    reveal_strlit("id");
    reveal_strlit("type");
    reveal_strlit("text");
    reveal_strlit("prompt");
    reveal_strlit("rubric");
    reveal_strlit("blanks");
    reveal_strlit("options");
    reveal_strlit("isCorrect");
    reveal_strlit("isTransfer");
    reveal_strlit("difficulty");
    reveal_strlit("is_correct");
    reveal_strlit("explanation");
    reveal_strlit("is_transfer");
    assert("id"@.len() != "type"@.len());
    assert("id"@.len() != "text"@.len());
    assert("id"@.len() != "prompt"@.len());
    assert("id"@.len() != "rubric"@.len());
    assert("id"@.len() != "blanks"@.len());
    assert("id"@.len() != "options"@.len());
    assert("id"@.len() != "isCorrect"@.len());
    assert("id"@.len() != "isTransfer"@.len());
    assert("id"@.len() != "difficulty"@.len());
    assert("id"@.len() != "is_correct"@.len());
    assert("id"@.len() != "explanation"@.len());
    assert("id"@.len() != "is_transfer"@.len());
    assert("type"@[1] != "text"@[1]);
    assert("type"@.len() != "prompt"@.len());
    assert("type"@.len() != "rubric"@.len());
    assert("type"@.len() != "blanks"@.len());
    assert("type"@.len() != "options"@.len());
    assert("type"@.len() != "isCorrect"@.len());
    assert("type"@.len() != "isTransfer"@.len());
    assert("type"@.len() != "difficulty"@.len());
    assert("type"@.len() != "is_correct"@.len());
    assert("type"@.len() != "explanation"@.len());
    assert("type"@.len() != "is_transfer"@.len());
    assert("text"@.len() != "prompt"@.len());
    assert("text"@.len() != "rubric"@.len());
    assert("text"@.len() != "blanks"@.len());
    assert("text"@.len() != "options"@.len());
    assert("text"@.len() != "isCorrect"@.len());
    assert("text"@.len() != "isTransfer"@.len());
    assert("text"@.len() != "difficulty"@.len());
    assert("text"@.len() != "is_correct"@.len());
    assert("text"@.len() != "explanation"@.len());
    assert("text"@.len() != "is_transfer"@.len());
    assert("prompt"@[0] != "rubric"@[0]);
    assert("prompt"@[0] != "blanks"@[0]);
    assert("prompt"@.len() != "options"@.len());
    assert("prompt"@.len() != "isCorrect"@.len());
    assert("prompt"@.len() != "isTransfer"@.len());
    assert("prompt"@.len() != "difficulty"@.len());
    assert("prompt"@.len() != "is_correct"@.len());
    assert("prompt"@.len() != "explanation"@.len());
    assert("prompt"@.len() != "is_transfer"@.len());
    assert("rubric"@[0] != "blanks"@[0]);
    assert("rubric"@.len() != "options"@.len());
    assert("rubric"@.len() != "isCorrect"@.len());
    assert("rubric"@.len() != "isTransfer"@.len());
    assert("rubric"@.len() != "difficulty"@.len());
    assert("rubric"@.len() != "is_correct"@.len());
    assert("rubric"@.len() != "explanation"@.len());
    assert("rubric"@.len() != "is_transfer"@.len());
    assert("blanks"@.len() != "options"@.len());
    assert("blanks"@.len() != "isCorrect"@.len());
    assert("blanks"@.len() != "isTransfer"@.len());
    assert("blanks"@.len() != "difficulty"@.len());
    assert("blanks"@.len() != "is_correct"@.len());
    assert("blanks"@.len() != "explanation"@.len());
    assert("blanks"@.len() != "is_transfer"@.len());
    assert("options"@.len() != "isCorrect"@.len());
    assert("options"@.len() != "isTransfer"@.len());
    assert("options"@.len() != "difficulty"@.len());
    assert("options"@.len() != "is_correct"@.len());
    assert("options"@.len() != "explanation"@.len());
    assert("options"@.len() != "is_transfer"@.len());
    assert("isCorrect"@.len() != "isTransfer"@.len());
    assert("isCorrect"@.len() != "difficulty"@.len());
    assert("isCorrect"@.len() != "is_correct"@.len());
    assert("isCorrect"@.len() != "explanation"@.len());
    assert("isCorrect"@.len() != "is_transfer"@.len());
    assert("isTransfer"@[0] != "difficulty"@[0]);
    assert("isTransfer"@[2] != "is_correct"@[2]);
    assert("isTransfer"@.len() != "explanation"@.len());
    assert("isTransfer"@.len() != "is_transfer"@.len());
    assert("difficulty"@[0] != "is_correct"@[0]);
    assert("difficulty"@.len() != "explanation"@.len());
    assert("difficulty"@.len() != "is_transfer"@.len());
    assert("is_correct"@.len() != "explanation"@.len());
    assert("is_correct"@.len() != "is_transfer"@.len());
    assert("explanation"@[0] != "is_transfer"@[0]);
}

/// A stored type name reads back as its type.
proof fn lemma_type_tag_reads_back(t: QuestionType)
    ensures
        question_type_of(question_type_tag(t)) == Some(t),
{
    reveal_strlit("multiple_choice");
    reveal_strlit("fill_in_blank");
    reveal_strlit("free_response");
    reveal_strlit("short_answer");
    reveal_strlit("open_ended");
    reveal_strlit("essay");
    assert("fill_in_blank"@[1] != "free_response"@[1]);
    assert("free_response"@.len() != "multiple_choice"@.len());
    assert("fill_in_blank"@.len() != "multiple_choice"@.len());
}

proof fn lemma_option_reads_back(o: OptionView)
    ensures
        option_of(option_doc(o)) == Ok::<OptionView, Seq<char>>(o),
{
    reveal_strlit("id");
    reveal_strlit("isCorrect");
    reveal_strlit("text");
    reveal_strlit("is_correct");
    lemma_keys_distinct();
    let es = seq![("id"@, JsonView::Str(o.id)), ("isCorrect"@, JsonView::Bool(o.is_correct)), ("text"@, JsonView::Str(o.text))];
    lemma_lookup_at(es, "id"@, 0);
    lemma_lookup_at(es, "text"@, 2);
    lemma_lookup_at(es, "isCorrect"@, 1);
    lemma_lookup_none(es, "is_correct"@);
}

proof fn lemma_options_read_back(os: Seq<OptionView>, n: int)
    requires
        0 <= n <= os.len(),
    ensures
        options_prefix(option_docs(os), n) == Ok::<Seq<OptionView>, Seq<char>>(os.take(n)),
    decreases n,
{
    if n > 0 {
        lemma_options_read_back(os, n - 1);
        lemma_option_reads_back(os[n - 1]);
        assert(option_docs(os)[n - 1] == option_doc(os[n - 1]));
        assert(os.take(n - 1).push(os[n - 1]) =~= os.take(n));
    } else {
        assert(os.take(0) =~= Seq::<OptionView>::empty());
    }
}

proof fn lemma_strings_read_back(bs: Seq<Seq<char>>, n: int)
    requires
        0 <= n <= bs.len(),
    ensures
        strings_prefix(string_docs(bs), n) == bs.take(n),
    decreases n,
{
    if n > 0 {
        lemma_strings_read_back(bs, n - 1);
        assert(string_docs(bs)[n - 1] == JsonView::Str(bs[n - 1]));
        assert(bs.take(n - 1).push(bs[n - 1]) =~= bs.take(n));
    } else {
        assert(bs.take(0) =~= Seq::<Seq<char>>::empty());
    }
}

/// A question in canonical form reads back from its document unchanged.
#[verifier::rlimit(60)]
pub proof fn lemma_question_reads_back(q: QuestionView)
    requires
        canonical_question(q),
    ensures
        repair_of(question_doc(q)) == Ok::<QuestionView, Seq<char>>(q),
{
    reveal_strlit("blanks");
    reveal_strlit("difficulty");
    reveal_strlit("explanation");
    reveal_strlit("id");
    reveal_strlit("isTransfer");
    reveal_strlit("is_transfer");
    reveal_strlit("options");
    reveal_strlit("prompt");
    reveal_strlit("rubric");
    reveal_strlit("type");
    reveal_strlit("multiple_choice");
    reveal_strlit("fill_in_blank");
    reveal_strlit("free_response");
    reveal_strlit("short_answer");
    reveal_strlit("open_ended");
    reveal_strlit("essay");
    let d = question_doc(q);
    let es = match d {
        JsonView::Object(es) => es,
        _ => Seq::empty(),
    };
    lemma_type_tag_reads_back(q.question_type);
    lemma_keys_distinct();
    match q.question_type {
        QuestionType::MultipleChoice => {
            let os = q.options->Some_0;
            let e = seq![
                ("difficulty"@, JsonView::Number(Some(q.difficulty))),
                ("explanation"@, JsonView::Str(q.explanation)),
                ("id"@, JsonView::Str(q.id)),
                ("isTransfer"@, JsonView::Bool(q.is_transfer)),
                ("options"@, JsonView::Array(option_docs(os))),
                ("prompt"@, JsonView::Str(q.prompt)),
                ("type"@, JsonView::Str(question_type_tag(q.question_type))),
            ];
            assert(es =~= e);
            lemma_lookup_at(e, "id"@, 2);
            lemma_lookup_at(e, "type"@, 6);
            lemma_lookup_at(e, "prompt"@, 5);
            lemma_lookup_at(e, "explanation"@, 1);
            lemma_lookup_at(e, "difficulty"@, 0);
            lemma_lookup_none(e, "is_transfer"@);
            lemma_lookup_at(e, "isTransfer"@, 3);
            lemma_lookup_at(e, "options"@, 4);
            lemma_options_read_back(os, os.len() as int);
            assert(os.take(os.len() as int) =~= os);
            assert(option_docs(os).len() == os.len());
        },
        QuestionType::FillInBlank => {
            let bs = q.blanks->Some_0;
            let e = seq![
                ("blanks"@, JsonView::Array(string_docs(bs))),
                ("difficulty"@, JsonView::Number(Some(q.difficulty))),
                ("explanation"@, JsonView::Str(q.explanation)),
                ("id"@, JsonView::Str(q.id)),
                ("isTransfer"@, JsonView::Bool(q.is_transfer)),
                ("prompt"@, JsonView::Str(q.prompt)),
                ("type"@, JsonView::Str(question_type_tag(q.question_type))),
            ];
            assert(es =~= e);
            lemma_lookup_at(e, "id"@, 3);
            lemma_lookup_at(e, "type"@, 6);
            lemma_lookup_at(e, "prompt"@, 5);
            lemma_lookup_at(e, "explanation"@, 2);
            lemma_lookup_at(e, "difficulty"@, 1);
            lemma_lookup_none(e, "is_transfer"@);
            lemma_lookup_at(e, "isTransfer"@, 4);
            lemma_lookup_at(e, "blanks"@, 0);
            lemma_strings_read_back(bs, bs.len() as int);
            assert(bs.take(bs.len() as int) =~= bs);
            assert(string_docs(bs).len() == bs.len());
        },
        QuestionType::FreeResponse => {
            let r = q.rubric->Some_0;
            let e = seq![
                ("difficulty"@, JsonView::Number(Some(q.difficulty))),
                ("explanation"@, JsonView::Str(q.explanation)),
                ("id"@, JsonView::Str(q.id)),
                ("isTransfer"@, JsonView::Bool(q.is_transfer)),
                ("prompt"@, JsonView::Str(q.prompt)),
                ("rubric"@, JsonView::Str(r)),
                ("type"@, JsonView::Str(question_type_tag(q.question_type))),
            ];
            assert(es =~= e);
            lemma_lookup_at(e, "id"@, 2);
            lemma_lookup_at(e, "type"@, 6);
            lemma_lookup_at(e, "prompt"@, 4);
            lemma_lookup_at(e, "explanation"@, 1);
            lemma_lookup_at(e, "difficulty"@, 0);
            lemma_lookup_none(e, "is_transfer"@);
            lemma_lookup_at(e, "isTransfer"@, 3);
            lemma_lookup_at(e, "rubric"@, 5);
        },
    }
}

// ---- Whole quizzes ----

proof fn lemma_questions_read_back(qs: Seq<QuestionView>, n: int)
    requires
        0 <= n <= qs.len(),
        forall|i: int| 0 <= i < qs.len() ==> canonical_question(#[trigger] qs[i]),
    ensures
        questions_prefix(Seq::new(qs.len(), |i: int| question_doc(qs[i])), n)
            == Ok::<Seq<QuestionView>, Seq<char>>(qs.take(n)),
    decreases n,
{
    let items = Seq::new(qs.len(), |i: int| question_doc(qs[i]));
    if n > 0 {
        lemma_questions_read_back(qs, n - 1);
        assert(canonical_question(qs[n - 1]));
        lemma_question_reads_back(qs[n - 1]);
        assert(items[n - 1] == question_doc(qs[n - 1]));
        assert(qs.take(n - 1).push(qs[n - 1]) =~= qs.take(n));
    } else {
        assert(qs.take(0) =~= Seq::<QuestionView>::empty());
    }
}

/// A quiz of canonical questions, long enough to present, reads back from
/// its document unchanged.
pub proof fn lemma_quiz_doc_reads_back(qs: Seq<QuestionView>)
    requires
        forall|i: int| 0 <= i < qs.len() ==> canonical_question(#[trigger] qs[i]),
        qs.len() >= MIN_QUESTIONS,
    ensures
        quiz_from_doc(quiz_doc(qs)) == Ok::<Seq<QuestionView>, Seq<char>>(qs),
{
    lemma_questions_read_back(qs, qs.len() as int);
    assert(qs.take(qs.len() as int) =~= qs);
}

proof fn lemma_prefix_canonical(items: Seq<JsonView>, n: int)
    requires
        0 <= n,
        questions_prefix(items, n) is Ok,
    ensures
        questions_prefix(items, n)->Ok_0.len() == n,
        forall|k: int| 0 <= k < n ==> canonical_question(#[trigger] questions_prefix(items, n)->Ok_0[k]),
    decreases n,
{
    if n > 0 {
        lemma_prefix_canonical(items, n - 1);
        let prev = questions_prefix(items, n - 1)->Ok_0;
        let q = repair_of(items[n - 1])->Ok_0;
        assert(canonical_question(q));
        assert forall|k: int| 0 <= k < n implies canonical_question(#[trigger] questions_prefix(items, n)->Ok_0[k]) by {
            if k < n - 1 {
                assert(questions_prefix(items, n)->Ok_0[k] == prev[k]);
            }
        }
    }
}

/// What generation accepts is in canonical form, with at least
/// `MIN_QUESTIONS` questions.
proof fn lemma_generated_canonical(raw: Seq<char>)
    requires
        generated_quiz_of(raw) is Ok,
    ensures
        generated_quiz_of(raw)->Ok_0.len() >= MIN_QUESTIONS,
        forall|i: int|
            0 <= i < generated_quiz_of(raw)->Ok_0.len() ==> canonical_question(#[trigger] generated_quiz_of(raw)->Ok_0[i]),
{
    let v = json_parse(unfenced(raw))->Ok_0;
    let items = array_of(v)->Some_0;
    lemma_prefix_canonical(items, items.len() as int);
    let q0 = quiz_of(raw)->Ok_0;
    let qs = renumbered(q0);
    assert forall|i: int| 0 <= i < qs.len() implies canonical_question(#[trigger] qs[i]) by {
        assert(qs[i] == with_id(q0[i], canonical_id(i)));
        assert(canonical_question(q0[i]));
    }
}

/// A generated quiz survives storage: when the stored text parses to the
/// quiz's document, the strict grading parse reads back exactly the quiz
/// that generation produced (the same questions, ids and answer keys, and
/// no duplicate id).
pub proof fn lemma_stored_quiz_reads_back(raw: Seq<char>, stored: Seq<char>)
    requires
        generated_quiz_of(raw) is Ok,
        json_parse(unfenced(stored)) == Ok::<JsonView, Seq<char>>(quiz_doc(generated_quiz_of(raw)->Ok_0)),
    ensures
        strict_quiz_of(stored) == generated_quiz_of(raw),
{
    let qs = generated_quiz_of(raw)->Ok_0;
    lemma_generated_canonical(raw);
    lemma_quiz_doc_reads_back(qs);
    lemma_renumbered_ids_unique(quiz_of(raw)->Ok_0);
}

} // verus!
