//! Canonical sample values of the wire contract types: realistic values
//! (populated optionals, mixed correctness) that the contract fixture is
//! written from. Each constructor states the exact value it builds.

use vstd::prelude::*;

use crate::contract::{
    AnswerSubmission, AppSettings, Badge, DailyProgress, DailySession, GamificationState,
    LevelInfo, PlacementResult, QuestionType, QuizPayload, StreakInfo, WireOptionView,
    WireQuestion, WireQuestionView, WireQuizOption, XpEvent, strings_view,
};
use crate::text::owned;

verus! {

/// A mid-game learner: level 5, a week-long streak, one recent XP event and
/// one earned badge.
pub fn gamification_state() -> (g: GamificationState)
    ensures
        g.xp == 1234,
        g.level.level == 5,
        g.level.title@ == "Stargazer"@,
        g.level.xp_into_level == 34,
        g.level.xp_for_next_level == 200,
        g.streak.current_streak == 7,
        g.streak.longest_streak == 12,
        g.streak.freezes_available == 2,
        g.streak.last_active_date@ == "2026-06-11"@,
        g.recent_xp_events@.len() == 1,
        g.recent_xp_events@[0].amount == 20,
        g.recent_xp_events@[0].source@ == "lesson_complete"@,
        g.recent_xp_events@[0].description@ == "Completed Real Number System"@,
        g.recent_xp_events@[0].created_at@ == "2026-06-11T09:30:00Z"@,
        g.badges@.len() == 1,
        g.badges@[0].id@ == "first_lesson"@,
        g.badges@[0].name@ == "First Lesson"@,
        g.badges@[0].icon_name@ == "icon-badge-first"@,
        g.badges@[0].earned_at matches Some(t) && t@ == "2026-06-10T12:00:00Z"@,
{
    let mut events: Vec<XpEvent> = Vec::new();
    events.push(XpEvent {
        amount: 20,
        source: owned("lesson_complete"),
        description: owned("Completed Real Number System"),
        created_at: owned("2026-06-11T09:30:00Z"),
    });
    let mut badges: Vec<Badge> = Vec::new();
    badges.push(Badge {
        id: owned("first_lesson"),
        name: owned("First Lesson"),
        icon_name: owned("icon-badge-first"),
        earned_at: Some(owned("2026-06-10T12:00:00Z")),
    });
    GamificationState {
        xp: 1234,
        level: LevelInfo {
            level: 5,
            title: owned("Stargazer"),
            xp_into_level: 34,
            xp_for_next_level: 200,
        },
        streak: StreakInfo {
            current_streak: 7,
            longest_streak: 12,
            freezes_available: 2,
            last_active_date: owned("2026-06-11"),
        },
        recent_xp_events: events,
        badges,
    }
}

/// The redacted shape of a two-option multiple-choice question.
pub open spec fn sample_wire_question() -> WireQuestionView {
    WireQuestionView {
        id: "q1"@,
        question_type: QuestionType::MultipleChoice,
        prompt: "Which set contains $\\sqrt{2}$?"@,
        options: Some(
            seq![
                WireOptionView { id: "a"@, text: "Rationals"@ },
                WireOptionView { id: "b"@, text: "Irrationals"@ },
            ],
        ),
        is_transfer: false,
    }
}

/// The question the webview receives: prompt and options, no answer key.
pub fn wire_question() -> (q: WireQuestion)
    ensures
        q@ == sample_wire_question(),
{
    let mut options: Vec<WireQuizOption> = Vec::new();
    options.push(WireQuizOption { id: owned("a"), text: owned("Rationals") });
    options.push(WireQuizOption { id: owned("b"), text: owned("Irrationals") });
    let q = WireQuestion {
        id: owned("q1"),
        question_type: QuestionType::MultipleChoice,
        prompt: owned("Which set contains $\\sqrt{2}$?"),
        options: Some(options),
        is_transfer: false,
    };
    assert(crate::contract::wire_options_view(q.options.unwrap()@) =~= seq![
        WireOptionView { id: "a"@, text: "Rationals"@ },
        WireOptionView { id: "b"@, text: "Irrationals"@ },
    ]);
    q
}

/// What a quiz generation hands the frontend: one question and its nonce.
pub fn quiz_payload() -> (p: QuizPayload)
    ensures
        p.quiz_id@ == "42"@,
        p.questions@.len() == 1,
        p.questions@[0]@ == sample_wire_question(),
{
    let mut questions: Vec<WireQuestion> = Vec::new();
    questions.push(wire_question());
    QuizPayload { quiz_id: owned("42"), questions }
}

/// One answered question with its latency.
pub fn answer_submission() -> (a: AnswerSubmission)
    ensures
        a.question_id@ == "q1"@,
        a.answer@ == "b"@,
        a.latency_ms == Some(6400i64),
{
    AnswerSubmission { question_id: owned("q1"), answer: owned("b"), latency_ms: Some(6400) }
}

/// A day's plan: one new concept, one review, interleaved.
pub fn daily_session() -> (s: DailySession)
    ensures
        strings_view(s.concepts_new@) == seq!["alg_002"@],
        strings_view(s.concepts_review@) == seq!["alg_001"@],
        strings_view(s.interleaved_set@) == seq!["alg_001"@, "alg_002"@],
        s.estimated_minutes == 30,
{
    let mut concepts_new: Vec<String> = Vec::new();
    concepts_new.push(owned("alg_002"));
    let mut concepts_review: Vec<String> = Vec::new();
    concepts_review.push(owned("alg_001"));
    let mut interleaved_set: Vec<String> = Vec::new();
    interleaved_set.push(owned("alg_001"));
    interleaved_set.push(owned("alg_002"));
    let s = DailySession { concepts_new, concepts_review, interleaved_set, estimated_minutes: 30 };
    assert(strings_view(s.concepts_new@) =~= seq!["alg_002"@]);
    assert(strings_view(s.concepts_review@) =~= seq!["alg_001"@]);
    assert(strings_view(s.interleaved_set@) =~= seq!["alg_001"@, "alg_002"@]);
    s
}

/// Twelve of thirty goal minutes studied today.
pub fn daily_progress() -> (p: DailyProgress)
    ensures
        p.minutes_today == 12,
        p.goal_minutes == 30,
{
    DailyProgress { minutes_today: 12, goal_minutes: 30 }
}

/// A placement that landed on systems of equations after 3 of 5 correct.
pub fn placement_result() -> (p: PlacementResult)
    ensures
        p.concept_id@ == "alg_017"@,
        p.domain@ == "algebra"@,
        p.title@ == "Systems of Linear Equations"@,
        p.correct_count == 3,
        p.total == 5,
{
    PlacementResult {
        concept_id: owned("alg_017"),
        domain: owned("algebra"),
        title: owned("Systems of Linear Equations"),
        correct_count: 3,
        total: 5,
    }
}

/// The settings a fresh install shows, with `vendor`'s default models.
pub fn app_settings(vendor: &str) -> (s: AppSettings)
    ensures
        s.daily_goal_minutes == 30,
        s.theme@ == "system"@,
        s.base_model@ == crate::models::model_id(vendor@, "sonnet-5"@),
        s.reasoning_model@ == crate::models::model_id(vendor@, "opus-4-8"@),
        s.new_concepts_per_session == 3,
        !s.notifications_enabled,
        !s.api_key_present,
{
    AppSettings {
        daily_goal_minutes: 30,
        theme: owned("system"),
        base_model: crate::models::vendor_model(vendor, "sonnet-5"),
        reasoning_model: crate::models::vendor_model(vendor, "opus-4-8"),
        new_concepts_per_session: 3,
        notifications_enabled: false,
        api_key_present: false,
    }
}

} // verus!
