use etta::backup::{backup_stamp, backups_to_prune, latest_backup_time, needs_backup, BACKUP_KEEP};
use etta::contract::{AnswerSubmission, Question, QuestionType};
use etta::lesson::{other_lesson_variant, stream_failure_action, worth_caching, StreamFailure};
use etta::curriculum::CURRICULUM_VERSION;
use etta::math_expr::{parse_math, MathExpr};
use etta::pending::PendingPersists;
use etta::placement::placement_item;
use etta::stream::{SseConsumer, STREAM_CANCELLED_MARKER};
use etta::submission::{check_answers, grading_rubric, needs_key, quiz_row_id, QUIZ_EXPIRED};

#[derive(Debug, Clone, PartialEq)]
struct Graded {
    concept_id: String,
    answers: Vec<(String, bool)>,
}

#[test]
fn pending_persists_are_one_shot_and_restorable() {
    let mut pending: PendingPersists<Graded> = PendingPersists::new();
    let entry = Graded { concept_id: "alg_001".into(), answers: vec![("q1".into(), true)] };

    let token = pending.stash("alg_001", entry.clone());
    assert_eq!(token.len(), 32, "opaque 16-byte hex token");
    assert!(token.chars().all(|c| c.is_ascii_hexdigit() && !c.is_ascii_uppercase()));

    let taken = pending.take(&token).expect("first take succeeds");
    assert_eq!(taken.concept_id, "alg_001");
    assert!(pending.take(&token).is_none(), "second take must find nothing (one-shot)");

    pending.put_back(&token, taken);
    assert!(pending.take(&token).is_some());

    let t2 = pending.stash("alg_001", entry);
    assert_ne!(token, t2);
}

#[test]
fn unknown_token_takes_nothing() {
    let mut pending: PendingPersists<u32> = PendingPersists::new();
    pending.stash("alg_002", 7);
    assert_eq!(pending.take("not-a-token"), None);
}

#[test]
fn backup_stamp_is_read_from_the_file_name() {
    assert_eq!(backup_stamp("etta-backup-20200101T000000Z.db"), Some(1_577_836_800));
    assert_eq!(backup_stamp("etta-backup-garbage.db"), None);
    assert_eq!(backup_stamp("etta.db"), None);
    assert_eq!(backup_stamp("etta-backup-20200101T000000Z.db-wal"), None);
}

#[test]
fn staleness_uses_filename_timestamp_not_mtime() {
    let names = vec!["etta.db".to_string(), "etta-backup-20200101T000000Z.db".to_string()];
    assert_eq!(latest_backup_time(&names), Some(1_577_836_800));
    let now = 1_780_000_000;
    assert!(needs_backup(&names, now), "an old-by-name backup must not suppress a new one");

    let fresh = vec![
        "etta-backup-20200101T000000Z.db".to_string(),
        "etta-backup-20260528T000000Z.db".to_string(),
    ];
    let stamp = backup_stamp("etta-backup-20260528T000000Z.db").unwrap();
    assert!(!needs_backup(&fresh, stamp + 3_600), "a fresh backup suppresses a rerun");
    assert!(needs_backup(&fresh, stamp + 86_400));
    assert!(needs_backup(&[], now), "no backup at all is due");
}

#[test]
fn prune_keeps_only_seven_newest_backups() {
    let mut names: Vec<String> = (1..=9).map(|day| format!("etta-backup-2026010{day}T000000Z.db")).collect();
    names.push("etta.db".to_string());
    names.reverse();
    let mut victims = backups_to_prune(&names);
    victims.sort();
    assert_eq!(
        victims,
        vec!["etta-backup-20260101T000000Z.db", "etta-backup-20260102T000000Z.db"],
        "the two OLDEST are pruned"
    );
    assert_eq!(names.len() - 1 - victims.len(), BACKUP_KEEP);
}

#[test]
fn prune_leaves_a_short_list_alone() {
    let names = vec!["etta-backup-20260101T000000Z.db".to_string()];
    assert!(backups_to_prune(&names).is_empty());
}

fn num(e: &MathExpr) -> Option<&str> {
    match e {
        MathExpr::Num(s) => Some(s.as_str()),
        _ => None,
    }
}

#[test]
fn math_answers_parse_with_precedence() {
    let e = parse_math("1 + 2*3").unwrap();
    match &e {
        MathExpr::Add(a, b) => {
            assert_eq!(num(a), Some("1"));
            assert!(matches!(**b, MathExpr::Mul(_, _)));
        }
        other => panic!("expected a sum, got {other:?}"),
    }
    match parse_math("2^3^2").unwrap() {
        MathExpr::Pow(a, b) => {
            assert_eq!(num(&a), Some("2"));
            assert!(matches!(*b, MathExpr::Pow(_, _)), "power is right-associative");
        }
        other => panic!("expected a power, got {other:?}"),
    }
    match parse_math("8-2-1").unwrap() {
        MathExpr::Sub(a, b) => {
            assert!(matches!(*a, MathExpr::Sub(_, _)), "minus is left-associative");
            assert_eq!(num(&b), Some("1"));
        }
        other => panic!("expected a difference, got {other:?}"),
    }
    assert!(matches!(parse_math("-(3-5)").unwrap(), MathExpr::Neg(_)));
    assert!(matches!(parse_math("sqrt(2)/2").unwrap(), MathExpr::Div(_, _)));
    assert_eq!(parse_math("2*pi"), Some(MathExpr::Mul(Box::new(MathExpr::Num("2".into())), Box::new(MathExpr::Pi))));
}

#[test]
fn math_answers_drop_trivial_formatting() {
    assert_eq!(parse_math("$1,000$"), Some(MathExpr::Num("1000".into())));
    assert_eq!(parse_math(" x=4 "), Some(MathExpr::Num("4".into())));
    assert_eq!(parse_math("x = 4"), Some(MathExpr::Num("4".into())));
    assert_eq!(parse_math(" 0.50 "), Some(MathExpr::Num("0.50".into())));
}

#[test]
fn non_math_answers_do_not_parse() {
    assert_eq!(parse_math("undefined"), None);
    assert_eq!(parse_math(""), None);
    assert_eq!(parse_math("   $ "), None);
    assert_eq!(parse_math("1.2.3"), None);
    assert_eq!(parse_math("."), None);
    assert_eq!(parse_math("(1+2"), None);
    assert_eq!(parse_math("1+"), None);
    assert_eq!(parse_math("1 2"), Some(MathExpr::Num("12".into())), "inner spaces are dropped");
    assert_eq!(parse_math("sqrt 2"), None);
    assert_eq!(parse_math("2 % 3"), None);
}

fn answer(text: &str, latency: Option<i64>) -> AnswerSubmission {
    AnswerSubmission { question_id: "q1".into(), answer: text.into(), latency_ms: latency }
}

#[test]
fn submissions_are_bounded_before_grading() {
    assert!(check_answers(&[answer("x = 3", Some(1200)), answer("4", None)]).is_ok());
    let err = check_answers(&[answer("ok", None), answer(&"a".repeat(4001), Some(-1))]).unwrap_err();
    assert!(err.contains("too long"), "the text bound is checked first: {err}");
    let err = check_answers(&[answer("ok", Some(600_001))]).unwrap_err();
    assert!(err.contains("timing"), "{err}");
}

#[test]
fn quiz_ids_must_name_a_row() {
    assert_eq!(quiz_row_id(" 42 "), Ok(42));
    assert_eq!(quiz_row_id("+7"), Ok(7));
    assert_eq!(quiz_row_id("forty-two"), Err(QUIZ_EXPIRED.to_string()));
    assert_eq!(quiz_row_id(""), Err(QUIZ_EXPIRED.to_string()));
}

fn question(t: QuestionType, rubric: Option<&str>) -> Question {
    Question {
        id: "q1".into(),
        question_type: t,
        prompt: "p".into(),
        options: None,
        blanks: None,
        rubric: rubric.map(str::to_string),
        explanation: String::new(),
        difficulty: 1,
        is_transfer: false,
    }
}

#[test]
fn only_free_response_needs_the_model() {
    assert!(!needs_key(&[question(QuestionType::MultipleChoice, None)]));
    assert!(needs_key(&[
        question(QuestionType::FillInBlank, None),
        question(QuestionType::FreeResponse, None)
    ]));
    assert_eq!(grading_rubric(&question(QuestionType::FreeResponse, None)), "Grade for correctness.");
    assert_eq!(grading_rubric(&question(QuestionType::FreeResponse, Some("cite it"))), "cite it");
}

#[test]
fn lesson_fallback_probes_other_cached_variant() {
    assert_eq!(other_lesson_variant("lesson"), "lesson_reinforced");
    assert_eq!(other_lesson_variant("lesson_reinforced"), "lesson");
}

#[test]
fn failed_generation_resolves_by_cancel_mode_and_live_deltas() {
    let cancelled = format!("{STREAM_CANCELLED_MARKER}: the stream was cancelled");
    assert_eq!(
        stream_failure_action(cancelled.clone(), false, Some("lesson"), false),
        StreamFailure::Surface(cancelled.clone())
    );
    match stream_failure_action("offline".into(), true, Some("lesson"), false) {
        StreamFailure::Surface(e) => assert!(e.starts_with(STREAM_CANCELLED_MARKER)),
        other => panic!("a raced cancel surfaces the marked error, got {other:?}"),
    }
    assert_eq!(
        stream_failure_action("offline".into(), false, None, false),
        StreamFailure::Surface("offline".into())
    );
    assert_eq!(
        stream_failure_action("offline".into(), false, Some("lesson"), true),
        StreamFailure::Fallback { error: "offline".into(), replay_through_channel: false }
    );
    assert_eq!(
        stream_failure_action("no API key configured".into(), false, Some("lesson"), false),
        StreamFailure::Fallback { error: "no API key configured".into(), replay_through_channel: true }
    );
}

#[test]
fn placement_items_take_the_first_question_and_a_slot_id() {
    let mut q1 = question(QuestionType::MultipleChoice, None);
    q1.id = "x7".into();
    let q2 = question(QuestionType::FreeResponse, None);
    let item = placement_item("algebra".into(), vec![q1, q2], 2).unwrap();
    assert_eq!(item.domain, "algebra");
    assert_eq!(item.question.id, "q3");
    assert_eq!(item.question.question_type, QuestionType::MultipleChoice);
    assert_eq!(
        placement_item("algebra".into(), vec![], 0).unwrap_err(),
        "placement question generation returned no questions"
    );
}

#[test]
fn chunk_boundaries_do_not_change_what_a_stream_yields() {
    let mut bytes = Vec::new();
    for line in [
        r#"data: {"type":"content_block_delta","delta":{"type":"text_delta","text":"π ≈ "}}"#,
        r#"data: {"type":"content_block_delta","delta":{"type":"text_delta","text":"3.14"}}"#,
        r#"data: {"type":"message_delta","delta":{"stop_reason":"end_turn"}}"#,
    ] {
        bytes.extend_from_slice(line.as_bytes());
        bytes.push(b'\n');
    }
    let mut whole = SseConsumer::new();
    let all = whole.on_chunk(false, &bytes);
    let expected_text = whole.finish();
    assert_eq!(expected_text, Ok("π ≈ 3.14".to_string()));
    for cut in 0..=bytes.len() {
        let mut c = SseConsumer::new();
        let a = c.on_chunk(false, &bytes[..cut]);
        let b = c.on_chunk(false, &bytes[cut..]);
        let mut deltas = a.deltas.clone();
        deltas.extend(b.deltas.clone());
        assert_eq!(deltas, all.deltas, "split at {cut}");
        assert_eq!(c.finish(), expected_text, "split at {cut}");
    }
}

#[test]
fn empty_lessons_are_never_cached() {
    assert!(!worth_caching(""));
    assert!(!worth_caching(" \n\t "));
    assert!(worth_caching("## Limits\nA limit is..."));
}

#[test]
fn curriculum_version_is_two() {
    assert_eq!(CURRICULUM_VERSION, 2);
}
