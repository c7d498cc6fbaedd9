//! Spaced-repetition response classification: how a graded attempt maps to an
//! SM-2 quality, and the per-tier "slow answer" threshold. (The ease/interval
//! arithmetic itself is floating point and lives with the application.)

use vstd::prelude::*;

verus! {

/// The learner's graded performance on a review, mapped to SM-2 quality.
#[derive(Debug, Clone, Copy, PartialEq, Eq, Structural)]
pub enum ResponseQuality {
    Failed,
    Hard,
    Good,
    Easy,
}

/// Quality for a review: a wrong answer fails; a correct one is Easy on a
/// streak of 3 or more, Hard when slower than the threshold, Good otherwise.
pub open spec fn quality_of(correct: bool, streak: int, latency_ms: Option<i64>, slow: int) -> ResponseQuality {
    if !correct {
        ResponseQuality::Failed
    } else if streak >= 3 {
        ResponseQuality::Easy
    } else if latency_ms matches Some(ms) && ms > slow {
        ResponseQuality::Hard
    } else {
        ResponseQuality::Good
    }
}

/// The answer took longer than the threshold (an unknown latency is not slow).
pub open spec fn is_slow(latency_ms: Option<i64>, slow: int) -> bool {
    match latency_ms {
        Some(ms) => ms > slow,
        None => false,
    }
}

/// The SM-2 quality rules: a wrong answer fails; a right one on a streak of
/// three or more is Easy whatever its speed; otherwise a slow right answer is
/// Hard and any other right answer Good.
pub proof fn lemma_quality_rules(correct: bool, streak: int, latency_ms: Option<i64>, slow: int)
    ensures
        !correct ==> quality_of(correct, streak, latency_ms, slow) == ResponseQuality::Failed,
        correct && streak >= 3 ==> quality_of(correct, streak, latency_ms, slow) == ResponseQuality::Easy,
        correct && streak < 3 && is_slow(latency_ms, slow) ==> quality_of(correct, streak, latency_ms, slow)
            == ResponseQuality::Hard,
        correct && streak < 3 && !is_slow(latency_ms, slow) ==> quality_of(correct, streak, latency_ms, slow)
            == ResponseQuality::Good,
{
}

/// Classify a graded response into an SM-2 quality.
pub fn classify_response(
    correct: bool,
    streak: i64,
    latency_ms: Option<i64>,
    slow_threshold_ms: i64,
) -> (q: ResponseQuality)
    ensures
        q == quality_of(correct, streak as int, latency_ms, slow_threshold_ms as int),
        !correct ==> q == ResponseQuality::Failed,
        correct && streak >= 3 ==> q == ResponseQuality::Easy,
        correct && streak < 3 && is_slow(latency_ms, slow_threshold_ms as int) ==> q == ResponseQuality::Hard,
        correct && streak < 3 && !is_slow(latency_ms, slow_threshold_ms as int) ==> q == ResponseQuality::Good,
{
    proof {
        lemma_quality_rules(correct, streak as int, latency_ms, slow_threshold_ms as int);
    }
    if !correct {
        return ResponseQuality::Failed;
    }
    if streak >= 3 {
        return ResponseQuality::Easy;
    }
    if let Some(ms) = latency_ms {
        if ms > slow_threshold_ms {
            return ResponseQuality::Hard;
        }
    }
    ResponseQuality::Good
}

/// Tier clamped to 1..=5.
pub open spec fn clamp_tier(t: int) -> int {
    if t < 1 {
        1
    } else if t > 5 {
        5
    } else {
        t
    }
}

/// Per-tier slow threshold: 20 s at tier 1, +10 s per tier (tier 5 → 60 s).
pub fn slow_threshold_for_tier(difficulty_tier: i64) -> (ms: i64)
    ensures
        ms == 20_000 + (clamp_tier(difficulty_tier as int) - 1) * 10_000,
        20_000 <= ms <= 60_000,
{
    let tier: i64 = if difficulty_tier < 1 {
        1
    } else if difficulty_tier > 5 {
        5
    } else {
        difficulty_tier
    };
    let t: i64 = 20_000 + (tier - 1) * 10_000;
    if t < 20_000 {
        20_000
    } else {
        t
    }
}

} // verus!
