//! The decisions of recording one graded quiz: which canonical question each
//! answer belongs to (unknown and repeated question ids abort the whole
//! record), and the one scheduling update the attempt earns: overall
//! correctness, the running correct-streak, the slowest answer, and the SM-2
//! quality they classify to.

use vstd::prelude::*;

use crate::contract::{questions_view, Question, QuestionView};
use crate::sm2::{classify_response, clamp_tier, quality_of, slow_threshold_for_tier, ResponseQuality};
use crate::text::{chars_of, debug_quoted, debug_str, push_str, str_eq, string_of};

verus! {

/// The index of the first question whose id is `id` (`qs.len()` when none).
pub open spec fn question_index(qs: Seq<QuestionView>, id: Seq<char>, i: int) -> int
    decreases qs.len() - i,
{
    if i < 0 || i >= qs.len() {
        qs.len() as int
    } else if qs[i].id == id {
        i
    } else {
        question_index(qs, id, i + 1)
    }
}

pub open spec fn unknown_question_msg(id: Seq<char>) -> Seq<char> {
    "answer references unknown question "@ + debug_str(id)
}

pub open spec fn repeated_answer_msg(id: Seq<char>) -> Seq<char> {
    "question "@ + debug_str(id) + " was answered more than once — please submit each question exactly once"@
}

/// The question of each of the first `n` answers, or the first problem: an
/// answer naming no question, or one naming a question already answered.
pub open spec fn matched_prefix(qs: Seq<QuestionView>, ids: Seq<Seq<char>>, n: int) -> Result<Seq<int>, Seq<char>>
    decreases n,
{
    if n <= 0 {
        Ok(Seq::empty())
    } else {
        match matched_prefix(qs, ids, n - 1) {
            Err(e) => Err(e),
            Ok(m) => {
                let id = ids[n - 1];
                let q = question_index(qs, id, 0);
                if q >= qs.len() {
                    Err(unknown_question_msg(id))
                } else if ids.take(n - 1).contains(id) {
                    Err(repeated_answer_msg(id))
                } else {
                    Ok(m.push(q))
                }
            },
        }
    }
}

proof fn lemma_matched_err_persists(qs: Seq<QuestionView>, ids: Seq<Seq<char>>, k: int, n: int)
    requires
        0 <= k <= n,
        matched_prefix(qs, ids, k) is Err,
    ensures
        matched_prefix(qs, ids, n) == matched_prefix(qs, ids, k),
    decreases n - k,
{
    if n > k {
        lemma_matched_err_persists(qs, ids, k, n - 1);
    }
}

pub open spec fn str_views(v: Seq<&str>) -> Seq<Seq<char>> {
    Seq::new(v.len(), |i: int| v[i]@)
}

fn find_question(questions: &[Question], id: &str) -> (r: usize)
    ensures
        r == question_index(questions_view(questions@), id@, 0),
{
    let ghost qs = questions_view(questions@);
    let mut i: usize = 0;
    while i < questions.len()
        invariant
            qs == questions_view(questions@),
            i <= questions@.len(),
            question_index(qs, id@, 0) == question_index(qs, id@, i as int),
        decreases questions.len() - i,
    {
        if str_eq(questions[i].id.as_str(), id) {
            return i;
        }
        i = i + 1;
    }
    i
}

fn seen_before(ids: &[&str], i: usize) -> (b: bool)
    requires
        i < ids@.len(),
    ensures
        b == str_views(ids@).take(i as int).contains(ids@[i as int]@),
{
    let ghost v = str_views(ids@);
    let mut j: usize = 0;
    while j < i
        invariant
            v == str_views(ids@),
            i < ids@.len(),
            j <= i,
            forall|k: int| 0 <= k < j ==> v[k] != ids@[i as int]@,
        decreases i - j,
    {
        if str_eq(ids[j], ids[i]) {
            assert(v.take(i as int)[j as int] == ids@[i as int]@);
            return true;
        }
        j = j + 1;
    }
    assert forall|k: int| 0 <= k < i implies v.take(i as int)[k] != ids@[i as int]@ by {
        assert(v.take(i as int)[k] == v[k]);
    }
    false
}

/// Match every graded answer (by its question id, in submission order) to its
/// canonical question. An unknown id or a question answered twice aborts.
pub fn match_answers(questions: &[Question], answer_ids: &[&str]) -> (r: Result<Vec<usize>, String>)
    ensures
        match r {
            Ok(m) => matched_prefix(questions_view(questions@), str_views(answer_ids@), answer_ids@.len() as int)
                == Ok::<Seq<int>, Seq<char>>(Seq::new(m@.len(), |i: int| m@[i] as int)),
            Err(e) => matched_prefix(questions_view(questions@), str_views(answer_ids@), answer_ids@.len() as int)
                == Err::<Seq<int>, Seq<char>>(e@),
        },
{
    let ghost qs = questions_view(questions@);
    let ghost ids = str_views(answer_ids@);
    let mut out: Vec<usize> = Vec::new();
    let mut i: usize = 0;
    assert(Seq::new(out@.len(), |k: int| out@[k] as int) =~= Seq::<int>::empty());
    while i < answer_ids.len()
        invariant
            qs == questions_view(questions@),
            ids == str_views(answer_ids@),
            i <= answer_ids@.len(),
            matched_prefix(qs, ids, i as int) == Ok::<Seq<int>, Seq<char>>(
                Seq::new(out@.len(), |k: int| out@[k] as int),
            ),
        decreases answer_ids.len() - i,
    {
        let id = answer_ids[i];
        assert(ids[i as int] == id@);
        let q = find_question(questions, id);
        if q >= questions.len() {
            let shown = debug_quoted(id);
            let mut msg = chars_of("answer references unknown question ");
            push_str(&mut msg, shown.as_str());
            proof {
                lemma_matched_err_persists(qs, ids, i + 1, ids.len() as int);
            }
            return Err(string_of(msg.as_slice()));
        }
        if seen_before(answer_ids, i) {
            let shown = debug_quoted(id);
            let mut msg = chars_of("question ");
            push_str(&mut msg, shown.as_str());
            push_str(
                &mut msg,
                " was answered more than once — please submit each question exactly once",
            );
            proof {
                assert(msg@ =~= repeated_answer_msg(id@));
                lemma_matched_err_persists(qs, ids, i + 1, ids.len() as int);
            }
            return Err(string_of(msg.as_slice()));
        }
        let ghost before = out@;
        out.push(q);
        assert(Seq::new(out@.len(), |k: int| out@[k] as int) =~= Seq::new(
            before.len(),
            |k: int| before[k] as int,
        ).push(q as int));
        i = i + 1;
    }
    Ok(out)
}

// ---- The scheduling decision ----

/// How many answers are correct.
pub open spec fn count_correct(flags: Seq<bool>) -> nat
    decreases flags.len(),
{
    if flags.len() == 0 {
        0
    } else {
        count_correct(flags.drop_last()) + if flags.last() {
            1nat
        } else {
            0nat
        }
    }
}

/// The slowest recorded latency (None when no answer has one).
pub open spec fn max_latency(ls: Seq<Option<i64>>) -> Option<i64>
    decreases ls.len(),
{
    if ls.len() == 0 {
        None
    } else {
        let rest = max_latency(ls.drop_last());
        match ls.last() {
            None => rest,
            Some(x) => match rest {
                None => Some(x),
                Some(y) => if x >= y {
                    Some(x)
                } else {
                    Some(y)
                },
            },
        }
    }
}

/// The one scheduling update a recorded attempt earns.
#[derive(Debug, Clone, Copy, PartialEq, Eq, Structural)]
pub struct ScheduleDecision {
    pub correct_count: u64,
    pub all_correct: bool,
    pub new_streak: i64,
    pub max_latency: Option<i64>,
    pub quality: ResponseQuality,
}

/// The decision for an attempt: all answers correct extends the correct-streak
/// (anything else resets it), and the SM-2 quality is classified from that,
/// the new streak and the slowest answer against the tier's threshold.
pub open spec fn decision_of(flags: Seq<bool>, ls: Seq<Option<i64>>, streak: i64, tier: i64) -> ScheduleDecision {
    let all = count_correct(flags) == flags.len();
    let new_streak: i64 = if all {
        (streak + 1) as i64
    } else {
        0
    };
    ScheduleDecision {
        correct_count: count_correct(flags) as u64,
        all_correct: all,
        new_streak,
        max_latency: max_latency(ls),
        quality: quality_of(
            all,
            new_streak as int,
            max_latency(ls),
            20_000 + (clamp_tier(tier as int) - 1) * 10_000,
        ),
    }
}

/// Decide the scheduling update of one recorded attempt from each answer's
/// correctness and latency, the concept's running correct-streak and its
/// difficulty tier.
pub fn schedule_decision(
    correct: &[bool],
    latencies_ms: &[Option<i64>],
    streak_correct: i64,
    difficulty_tier: i64,
) -> (d: ScheduleDecision)
    requires
        streak_correct < i64::MAX,
    ensures
        d == decision_of(correct@, latencies_ms@, streak_correct, difficulty_tier),
{
    let mut count: u64 = 0;
    let mut i: usize = 0;
    while i < correct.len()
        invariant
            i <= correct@.len(),
            count == count_correct(correct@.take(i as int)),
            count <= i,
        decreases correct.len() - i,
    {
        assert(correct@.take(i + 1).drop_last() =~= correct@.take(i as int));
        if correct[i] {
            count = count + 1;
        }
        i = i + 1;
    }
    assert(correct@.take(correct@.len() as int) =~= correct@);
    let all_correct = count == correct.len() as u64;
    let new_streak: i64 = if all_correct {
        streak_correct + 1
    } else {
        0
    };
    let mut max: Option<i64> = None;
    let mut k: usize = 0;
    while k < latencies_ms.len()
        invariant
            k <= latencies_ms@.len(),
            max == max_latency(latencies_ms@.take(k as int)),
        decreases latencies_ms.len() - k,
    {
        assert(latencies_ms@.take(k + 1).drop_last() =~= latencies_ms@.take(k as int));
        match latencies_ms[k] {
            Some(x) => {
                max = match max {
                    None => Some(x),
                    Some(y) => if x >= y {
                        Some(x)
                    } else {
                        Some(y)
                    },
                };
            },
            None => {},
        }
        k = k + 1;
    }
    assert(latencies_ms@.take(latencies_ms@.len() as int) =~= latencies_ms@);
    let slow = slow_threshold_for_tier(difficulty_tier);
    let quality = classify_response(all_correct, new_streak, max, slow);
    ScheduleDecision { correct_count: count, all_correct, new_streak, max_latency: max, quality }
}

} // verus!
