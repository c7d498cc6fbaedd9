use etta::contract::{Question, QuestionType, QuizOption, XpEvent};
use etta::curriculum::{validate, LoadedConcept};
use etta::gamification::{
    clamp_xp, day_gap, lesson_source, quiz_source, snapshot, touch_streak, StoredStreak,
};
use etta::grading::{
    explanation_feedback, grade_fill_in_blank, grade_multiple_choice, needs_model,
    normalize_text, same_ignoring_ascii_case, text_equivalent,
};
use etta::record::{match_answers, schedule_decision};
use etta::settings::{
    check_setting, default_for, ensure_allowed, load_settings, onboarding_complete_of,
    parse_i64, placement_quiz_of, typed_bool, typed_i64, StoredSettings,
};
use etta::sm2::ResponseQuality;

fn concept(id: &str, prereqs: &[&str]) -> LoadedConcept {
    LoadedConcept {
        id: id.into(),
        domain: "algebra".into(),
        module: "alg_m01".into(),
        title: "T".into(),
        prerequisites: prereqs.iter().map(|s| s.to_string()).collect(),
        learning_objectives: vec!["o1".into(), "o2".into(), "o3".into()],
        error_patterns: vec!["e1".into(), "e2".into(), "e3".into()],
        difficulty_tier: 1,
    }
}

#[test]
fn rejects_cycle() {
    let c = vec![concept("alg_001", &["alg_002"]), concept("alg_002", &["alg_001"])];
    let err = validate(&c).unwrap_err();
    assert!(err.contains("cycle"), "got: {err}");
}

#[test]
fn rejects_dangling_prerequisite() {
    let c = vec![concept("alg_001", &["alg_999"])];
    let err = validate(&c).unwrap_err();
    assert!(err.contains("dangling prerequisite"), "got: {err}");
}

#[test]
fn accepts_valid_dag() {
    let c = vec![
        concept("alg_001", &[]),
        concept("alg_002", &["alg_001"]),
        concept("alg_003", &["alg_001", "alg_002"]),
    ];
    assert!(validate(&c).is_ok());
}

#[test]
fn rejects_self_loop_and_long_cycle() {
    let c = vec![concept("alg_001", &["alg_001"])];
    assert!(validate(&c).unwrap_err().contains("cycle"));
    let c = vec![
        concept("alg_001", &[]),
        concept("alg_002", &["alg_004"]),
        concept("alg_003", &["alg_002"]),
        concept("alg_004", &["alg_003"]),
    ];
    assert!(validate(&c).unwrap_err().contains("cycle"));
}

#[test]
fn rejects_malformed_concepts() {
    let mut bad_id = concept("Alg-1", &[]);
    bad_id.title = "x".into();
    assert!(validate(&[bad_id]).is_err());

    let mut thin = concept("alg_001", &[]);
    thin.learning_objectives = vec![];
    assert!(validate(&[thin]).is_err());

    let mut tier = concept("alg_001", &[]);
    tier.difficulty_tier = 9;
    assert!(validate(&[tier]).is_err());
}

fn mc() -> Question {
    Question {
        id: "q1".into(),
        question_type: QuestionType::MultipleChoice,
        prompt: "p".into(),
        options: Some(vec![
            QuizOption { id: "a".into(), text: "x".into(), is_correct: false },
            QuizOption { id: "b".into(), text: "y".into(), is_correct: true },
        ]),
        blanks: None,
        rubric: None,
        explanation: "Because y.".into(),
        difficulty: 1,
        is_transfer: false,
    }
}

fn fib() -> Question {
    Question {
        id: "q2".into(),
        question_type: QuestionType::FillInBlank,
        prompt: "x = ____".into(),
        options: None,
        blanks: Some(vec!["1/2".into(), "0.5".into()]),
        rubric: None,
        explanation: String::new(),
        difficulty: 1,
        is_transfer: false,
    }
}

#[test]
fn mc_correctness_from_canonical_not_frontend() {
    let g = grade_multiple_choice(&mc(), "b");
    assert!(g.is_correct);
    let g = grade_multiple_choice(&mc(), "a");
    assert!(!g.is_correct);
}

#[test]
fn mc_answer_is_trimmed_and_case_insensitive() {
    assert!(grade_multiple_choice(&mc(), "  B ").is_correct);
    assert!(same_ignoring_ascii_case("AbC", "aBc"));
    assert!(!same_ignoring_ascii_case("abc", "abd"));
}

#[test]
fn free_response_routes_to_async() {
    assert!(needs_model(QuestionType::FreeResponse));
    assert!(!needs_model(QuestionType::MultipleChoice));
    assert!(!needs_model(QuestionType::FillInBlank));
}

#[test]
fn mc_populates_correct_answer_text_and_feedback() {
    let wrong = grade_multiple_choice(&mc(), "a");
    assert_eq!(wrong.correct_answer.as_deref(), Some("y"));
    assert_eq!(wrong.feedback.as_deref(), Some("Because y."));
    let right = grade_multiple_choice(&mc(), "b");
    assert_eq!(right.correct_answer.as_deref(), Some("y"));
}

#[test]
fn fill_in_blank_populates_joined_blanks() {
    let g = grade_fill_in_blank(&fib(), "7", false);
    assert!(!g.is_correct);
    assert_eq!(g.correct_answer.as_deref(), Some("1/2 or 0.5"));
    assert_eq!(g.feedback, None, "empty explanation must not become Some(\"\")");
    let g = grade_fill_in_blank(&fib(), "0.5", true);
    assert!(g.is_correct);
    assert_eq!(g.user_answer, "0.5");
}

#[test]
fn explanation_feedback_is_trimmed_or_absent() {
    let mut q = mc();
    q.explanation = "  spaced  ".into();
    assert_eq!(explanation_feedback(&q).as_deref(), Some("spaced"));
    q.explanation = " \n ".into();
    assert_eq!(explanation_feedback(&q), None);
}

#[test]
fn text_normalization_ignores_dollars_spaces_case_and_trailing_equals() {
    assert_eq!(normalize_text(" $Undefined$ = "), "undefined");
    assert!(text_equivalent("undefined", "Undefined"));
    assert!(!text_equivalent("undefined", "infinity"));
}

fn answered(ids: &[&str]) -> Vec<Question> {
    ids.iter()
        .map(|id| {
            let mut q = mc();
            q.id = id.to_string();
            q
        })
        .collect()
}

#[test]
fn record_rejects_duplicate_question_ids() {
    let questions = answered(&["q1", "q2"]);
    let err = match_answers(&questions, &["q1", "q1"]).unwrap_err();
    assert!(err.contains("more than once"), "dup error: {err}");
}

#[test]
fn record_matches_answers_to_their_questions() {
    let questions = answered(&["q1", "q2", "q3"]);
    assert_eq!(match_answers(&questions, &["q3", "q1"]).unwrap(), vec![2, 0]);
    let err = match_answers(&questions, &["q1", "zz"]).unwrap_err();
    assert_eq!(err, "answer references unknown question \"zz\"");
}

#[test]
fn schedule_decision_extends_streak_only_when_all_correct() {
    let d = schedule_decision(&[true, true], &[Some(100), Some(300)], 2, 1);
    assert!(d.all_correct);
    assert_eq!(d.correct_count, 2);
    assert_eq!(d.new_streak, 3);
    assert_eq!(d.max_latency, Some(300));
    assert_eq!(d.quality, ResponseQuality::Easy);

    let d = schedule_decision(&[true, false], &[None, None], 5, 1);
    assert!(!d.all_correct);
    assert_eq!(d.new_streak, 0);
    assert_eq!(d.quality, ResponseQuality::Failed);

    let d = schedule_decision(&[true], &[Some(45_000)], 0, 2);
    assert_eq!(d.quality, ResponseQuality::Hard, "slower than the tier-2 threshold of 30s");
}

fn streak(cur: i64, longest: i64, freezes: i64, last: &str) -> StoredStreak {
    StoredStreak {
        current_streak: cur,
        longest_streak: longest,
        freezes_available: freezes,
        last_active_date: last.into(),
    }
}

#[test]
fn streak_advances_then_holds_same_day() {
    let (s1, w1) = touch_streak(&streak(0, 0, 0, ""), "2026-06-10");
    assert!(w1);
    assert_eq!(s1.current_streak, 1);
    let (s2, _) = touch_streak(&s1, "2026-06-11");
    assert_eq!(s2.current_streak, 2);
    let (s3, w3) = touch_streak(&s2, "2026-06-11");
    assert!(!w3, "same day writes nothing");
    assert_eq!(s3.current_streak, 2);
    assert_eq!(s3.longest_streak, 2);
}

#[test]
fn streak_resets_after_large_gap() {
    let (s0, _) = touch_streak(&streak(0, 0, 0, ""), "2026-06-01");
    let (s, _) = touch_streak(&s0, "2026-06-10");
    assert_eq!(s.current_streak, 1, "gap > freeze resets to 1");
    assert_eq!(s.longest_streak, 1);
}

#[test]
fn clock_rollback_neither_resets_nor_rewinds_the_streak() {
    let (s, wrote) = touch_streak(&streak(5, 7, 0, "2026-06-10"), "2026-06-08");
    assert!(!wrote, "an earlier day writes nothing");
    assert_eq!(s.current_streak, 5);
    assert_eq!(s.longest_streak, 7);
    assert_eq!(s.last_active_date, "2026-06-10");
    let (s, _) = touch_streak(&s, "2026-06-11");
    assert_eq!(s.current_streak, 6, "the next real day continues it");
}

#[test]
fn streak_freeze_covers_a_single_missed_day() {
    let (s, _) = touch_streak(&streak(4, 6, 1, "2026-06-08"), "2026-06-10");
    assert_eq!(s.current_streak, 5);
    assert_eq!(s.freezes_available, 0);
    assert_eq!(s.longest_streak, 6);
    let (s, _) = touch_streak(&streak(4, 4, 0, "2026-06-08"), "2026-06-10");
    assert_eq!(s.current_streak, 1, "no freeze left");
}

#[test]
fn day_gap_counts_whole_days_across_months() {
    assert_eq!(day_gap("2026-02-27", "2026-03-01"), Some(2));
    assert_eq!(day_gap("", "2026-03-01"), None);
    assert_eq!(day_gap("2026-13-01", "2026-03-01"), None);
}

#[test]
fn snapshot_has_fixed_level_and_no_badges() {
    let events = vec![XpEvent {
        amount: 15,
        source: "lesson:x".into(),
        description: "x".into(),
        created_at: "2026-06-11T09:30:00Z".into(),
    }];
    let snap = snapshot(15, &streak(1, 1, 0, "2026-06-11"), events);
    assert_eq!(snap.xp, 15);
    assert_eq!(snap.level.level, 1);
    assert_eq!(snap.level.title, "Learner");
    assert!(snap.badges.is_empty());
    assert_eq!(snap.recent_xp_events.len(), 1);
}

#[test]
fn xp_sources_and_clamp() {
    assert_eq!(lesson_source("alg_001"), "lesson:alg_001");
    assert_eq!(quiz_source("alg_001"), "quiz:alg_001");
    assert_eq!(clamp_xp(-5), 0);
    assert_eq!(clamp_xp(20), 20);
}

#[test]
fn unknown_key_is_rejected() {
    assert!(check_setting("evil_key", "x").is_err());
    assert!(ensure_allowed("evil_key").is_err());
    assert!(ensure_allowed("theme").is_ok());
}

#[test]
fn out_of_range_goal_rejected() {
    assert!(check_setting("daily_goal_minutes", "31").is_err());
    assert!(check_setting("daily_goal_minutes", "30").is_ok());
    assert!(check_setting("theme", "neon").is_err());
    assert!(check_setting("theme", "dark").is_ok());
}

#[test]
fn api_key_present_rejected_by_generic_setter_but_readable() {
    let err = check_setting("api_key_present", "true").unwrap_err();
    assert!(err.contains("managed automatically"), "got: {err}");
    assert_eq!(typed_bool("api_key_present", Some("true".into())), Ok(Some(true)));
}

#[test]
fn placement_quiz_clears_by_delete_and_empty_sentinel_reads_none() {
    assert_eq!(placement_quiz_of(Some("[{\"q\":1}]".into())).as_deref(), Some("[{\"q\":1}]"));
    assert_eq!(placement_quiz_of(None), None);
    assert_eq!(placement_quiz_of(Some("".into())), None);
    assert_eq!(placement_quiz_of(Some("  ".into())), None);
}

#[test]
fn onboarding_flag_reads_exactly_true() {
    assert!(onboarding_complete_of(Some("true".into())));
    assert!(!onboarding_complete_of(Some("TRUE".into())));
    assert!(!onboarding_complete_of(None));
}

fn no_settings() -> StoredSettings {
    StoredSettings {
        daily_goal_minutes: None,
        theme: None,
        base_model: None,
        reasoning_model: None,
        new_concepts_per_session: None,
        notifications_enabled: None,
        api_key_present: None,
    }
}

#[test]
fn load_settings_uses_defaults_then_reflects_writes() {
    let s = load_settings(no_settings(), "acme").unwrap();
    assert_eq!(s.daily_goal_minutes, 30);
    assert_eq!(s.base_model, "acme-sonnet-4-6");
    assert_eq!(s.reasoning_model, "acme-opus-4-8");
    assert_eq!(s.theme, "system");

    let mut stored = no_settings();
    stored.daily_goal_minutes = Some("45".into());
    stored.theme = Some("dark".into());
    let s = load_settings(stored, "acme").unwrap();
    assert_eq!(s.daily_goal_minutes, 45);
    assert_eq!(s.theme, "dark");
}

#[test]
fn load_settings_reports_a_mistyped_value() {
    let mut stored = no_settings();
    stored.daily_goal_minutes = Some("thirty".into());
    assert!(load_settings(stored, "acme").is_err());
}

#[test]
fn settings_integers_parse_like_std() {
    assert_eq!(parse_i64("30"), Some(30));
    assert_eq!(parse_i64("-7"), Some(-7));
    assert_eq!(parse_i64("+7"), Some(7));
    assert_eq!(parse_i64("9223372036854775807"), Some(i64::MAX));
    assert_eq!(parse_i64("-9223372036854775808"), Some(i64::MIN));
    assert_eq!(parse_i64("9223372036854775808"), None);
    assert_eq!(parse_i64(""), None);
    assert_eq!(parse_i64("-"), None);
    assert_eq!(parse_i64(" 3"), None);
    assert_eq!(typed_i64("daily_goal_minutes", Some("45".into())), Ok(Some(45)));
    assert!(typed_i64("daily_goal_minutes", Some("x".into())).is_err());
}

#[test]
fn defaults_cover_every_user_setting() {
    assert_eq!(default_for("daily_goal_minutes", "acme"), "30");
    assert_eq!(default_for("theme", "acme"), "system");
    assert_eq!(default_for("base_model", "acme"), "acme-sonnet-4-6");
    assert_eq!(default_for("reasoning_model", "acme"), "acme-opus-4-8");
    assert_eq!(default_for("new_concepts_per_session", "acme"), "3");
}
