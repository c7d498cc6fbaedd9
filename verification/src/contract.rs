//! The shared front-end / back-end contract: the plain data types that cross
//! the IPC boundary, and the canonical (answer-key carrying) quiz question.
//! Each type mirrors one TypeScript interface field for field.

use vstd::prelude::*;

verus! {

// ---- Gamification ----

#[derive(Debug, Clone, PartialEq)]
pub struct GamificationState {
    pub xp: i64,
    pub level: LevelInfo,
    pub streak: StreakInfo,
    pub recent_xp_events: Vec<XpEvent>,
    pub badges: Vec<Badge>,
}

#[derive(Debug, Clone, PartialEq)]
pub struct LevelInfo {
    pub level: i64,
    pub title: String,
    pub xp_into_level: i64,
    pub xp_for_next_level: i64,
}

#[derive(Debug, Clone, PartialEq)]
pub struct StreakInfo {
    pub current_streak: i64,
    pub longest_streak: i64,
    pub freezes_available: i64,
    pub last_active_date: String,
}

#[derive(Debug, Clone, PartialEq)]
pub struct XpEvent {
    pub amount: i64,
    pub source: String,
    pub description: String,
    pub created_at: String,
}

#[derive(Debug, Clone, PartialEq)]
pub struct Badge {
    pub id: String,
    pub name: String,
    pub icon_name: String,
    pub earned_at: Option<String>,
}

// ---- Concepts ----

#[derive(Debug, Clone, Copy, PartialEq, Eq, Structural)]
pub enum ConceptState {
    Completed,
    InProgress,
    Unlocked,
    Locked,
}

// ---- Quiz ----

#[derive(Debug, Clone, Copy, PartialEq, Eq, Structural)]
pub enum QuestionType {
    MultipleChoice,
    FillInBlank,
    FreeResponse,
}

/// Canonical quiz option, with its answer key. Server-side only.
#[derive(Debug, Clone, PartialEq)]
pub struct QuizOption {
    pub id: String,
    pub text: String,
    pub is_correct: bool,
}

/// Canonical question, with the full answer key (`options[].is_correct`,
/// accepted `blanks`, `rubric`, `explanation`). Server-side only: the webview
/// receives the redacted `WireQuestion`.
#[derive(Debug, Clone, PartialEq)]
pub struct Question {
    pub id: String,
    pub question_type: QuestionType,
    pub prompt: String,
    pub options: Option<Vec<QuizOption>>,
    pub blanks: Option<Vec<String>>,
    pub rubric: Option<String>,
    pub explanation: String,
    pub difficulty: i64,
    pub is_transfer: bool,
}

/// Redacted wire option: id and display text only.
#[derive(Debug, Clone, PartialEq)]
pub struct WireQuizOption {
    pub id: String,
    pub text: String,
}

/// The question shape the webview receives: what is needed to render and
/// answer it, nothing that reveals the answer.
#[derive(Debug, Clone, PartialEq)]
pub struct WireQuestion {
    pub id: String,
    pub question_type: QuestionType,
    pub prompt: String,
    pub options: Option<Vec<WireQuizOption>>,
    pub is_transfer: bool,
}

/// What quiz generation returns: the redacted questions plus the identity of
/// the quiz instance they came from.
#[derive(Debug, Clone, PartialEq)]
pub struct QuizPayload {
    pub quiz_id: String,
    pub questions: Vec<WireQuestion>,
}

/// One submitted answer and the time the learner took on it.
#[derive(Debug, Clone, PartialEq)]
pub struct AnswerSubmission {
    pub question_id: String,
    pub answer: String,
    pub latency_ms: Option<i64>,
}

// ---- Placement ----

/// The placement outcome: the starting concept and the score behind it.
#[derive(Debug, Clone, PartialEq)]
pub struct PlacementResult {
    pub concept_id: String,
    pub domain: String,
    pub title: String,
    pub correct_count: i64,
    pub total: i64,
}

// ---- Daily progress and session ----

#[derive(Debug, Clone, PartialEq)]
pub struct DailyProgress {
    pub minutes_today: i64,
    pub goal_minutes: i64,
}

#[derive(Debug, Clone, PartialEq)]
pub struct DailySession {
    pub concepts_new: Vec<String>,
    pub concepts_review: Vec<String>,
    pub interleaved_set: Vec<String>,
    pub estimated_minutes: i64,
}

// ---- Settings ----

#[derive(Debug, Clone, PartialEq)]
pub struct AppSettings {
    pub daily_goal_minutes: i64,
    pub theme: String,
    pub base_model: String,
    pub reasoning_model: String,
    pub new_concepts_per_session: i64,
    pub notifications_enabled: bool,
    pub api_key_present: bool,
}

// ---- Abstract views of the quiz types ----

pub struct OptionView {
    pub id: Seq<char>,
    pub text: Seq<char>,
    pub is_correct: bool,
}

pub struct QuestionView {
    pub id: Seq<char>,
    pub question_type: QuestionType,
    pub prompt: Seq<char>,
    pub options: Option<Seq<OptionView>>,
    pub blanks: Option<Seq<Seq<char>>>,
    pub rubric: Option<Seq<char>>,
    pub explanation: Seq<char>,
    pub difficulty: i64,
    pub is_transfer: bool,
}

pub struct WireOptionView {
    pub id: Seq<char>,
    pub text: Seq<char>,
}

pub struct WireQuestionView {
    pub id: Seq<char>,
    pub question_type: QuestionType,
    pub prompt: Seq<char>,
    pub options: Option<Seq<WireOptionView>>,
    pub is_transfer: bool,
}

impl View for QuizOption {
    type V = OptionView;

    open spec fn view(&self) -> OptionView {
        OptionView { id: self.id@, text: self.text@, is_correct: self.is_correct }
    }
}

pub open spec fn options_view(v: Seq<QuizOption>) -> Seq<OptionView> {
    Seq::new(v.len(), |i: int| v[i]@)
}

pub open spec fn strings_view(v: Seq<String>) -> Seq<Seq<char>> {
    Seq::new(v.len(), |i: int| v[i]@)
}

impl View for Question {
    type V = QuestionView;

    open spec fn view(&self) -> QuestionView {
        QuestionView {
            id: self.id@,
            question_type: self.question_type,
            prompt: self.prompt@,
            options: match self.options {
                Some(o) => Some(options_view(o@)),
                None => None,
            },
            blanks: match self.blanks {
                Some(b) => Some(strings_view(b@)),
                None => None,
            },
            rubric: match self.rubric {
                Some(r) => Some(r@),
                None => None,
            },
            explanation: self.explanation@,
            difficulty: self.difficulty,
            is_transfer: self.is_transfer,
        }
    }
}

pub open spec fn questions_view(v: Seq<Question>) -> Seq<QuestionView> {
    Seq::new(v.len(), |i: int| v[i]@)
}

impl View for WireQuizOption {
    type V = WireOptionView;

    open spec fn view(&self) -> WireOptionView {
        WireOptionView { id: self.id@, text: self.text@ }
    }
}

pub open spec fn wire_options_view(v: Seq<WireQuizOption>) -> Seq<WireOptionView> {
    Seq::new(v.len(), |i: int| v[i]@)
}

impl View for WireQuestion {
    type V = WireQuestionView;

    open spec fn view(&self) -> WireQuestionView {
        WireQuestionView {
            id: self.id@,
            question_type: self.question_type,
            prompt: self.prompt@,
            options: match self.options {
                Some(o) => Some(wire_options_view(o@)),
                None => None,
            },
            is_transfer: self.is_transfer,
        }
    }
}

/// The redaction of a canonical question: the answer key (correctness flags,
/// blanks, rubric, explanation) is dropped, the rest is kept.
pub open spec fn redacted(q: QuestionView) -> WireQuestionView {
    WireQuestionView {
        id: q.id,
        question_type: q.question_type,
        prompt: q.prompt,
        options: match q.options {
            Some(o) => Some(Seq::new(o.len(), |i: int| WireOptionView { id: o[i].id, text: o[i].text })),
            None => None,
        },
        is_transfer: q.is_transfer,
    }
}

/// A copy of a string (`String::clone`, whose result Verus knows nothing of).
pub fn copy_string(s: &String) -> (r: String)
    ensures
        r@ == s@,
{
    s.as_str().to_owned()
}

/// Redact a canonical question into its wire shape.
pub fn to_wire(q: &Question) -> (w: WireQuestion)
    ensures
        w@ == redacted(q@),
{
    let options = match &q.options {
        Some(opts) => {
            let mut out: Vec<WireQuizOption> = Vec::new();
            let mut i: usize = 0;
            while i < opts.len()
                invariant
                    i <= opts@.len(),
                    out@.len() == i,
                    forall|j: int| 0 <= j < i ==> (#[trigger] out@[j])@ == (WireOptionView { id: opts@[j]@.id, text: opts@[j]@.text }),
                decreases opts.len() - i,
            {
                out.push(WireQuizOption { id: copy_string(&opts[i].id), text: copy_string(&opts[i].text) });
                i = i + 1;
            }
            assert(wire_options_view(out@) =~= Seq::new(
                options_view(opts@).len(),
                |j: int| WireOptionView { id: options_view(opts@)[j].id, text: options_view(opts@)[j].text },
            ));
            Some(out)
        },
        None => None,
    };
    WireQuestion {
        id: copy_string(&q.id),
        question_type: q.question_type,
        prompt: copy_string(&q.prompt),
        options,
        is_transfer: q.is_transfer,
    }
}

} // verus!
