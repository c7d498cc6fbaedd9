//! XP and streak rules. XP enters only through recorded grants (each clamped
//! to 0..=100; a lesson or quiz grants once per concept), the total is their
//! sum, and the level is a fixed placeholder. The streak advances once per
//! active day: the next day continues it, one missed day is bridged by a
//! freeze when one is available, any larger gap restarts it at 1.

use vstd::prelude::*;

use chrono::Datelike;

use crate::contract::{Badge, GamificationState, LevelInfo, StreakInfo, XpEvent};
use crate::text::{chars_of, concat2, owned, str_eq, string_of};

verus! {

/// XP for completing a lesson (granted once per concept).
pub const LESSON_XP: i64 = 10;
/// XP for completing a quiz (granted once per concept).
pub const QUIZ_XP: i64 = 20;

/// A grant's amount, clamped to the 0..=100 the ledger accepts.
pub fn clamp_xp(amount: i64) -> (r: i64)
    ensures
        r == (if amount < 0 {
            0
        } else if amount > 100 {
            100
        } else {
            amount
        }),
{
    if amount < 0 {
        0
    } else if amount > 100 {
        100
    } else {
        amount
    }
}

/// The one-shot marker of a lesson's XP grant: `lesson:<concept id>`.
pub fn lesson_source(concept_id: &str) -> (r: String)
    ensures
        r@ == "lesson:"@ + concept_id@,
{
    concat2("lesson:", concept_id)
}

/// The one-shot marker of a quiz's XP grant: `quiz:<concept id>`.
pub fn quiz_source(concept_id: &str) -> (r: String)
    ensures
        r@ == "quiz:"@ + concept_id@,
{
    concat2("quiz:", concept_id)
}

/// The one-shot markers tell grants apart: two concepts never share a lesson
/// marker or a quiz marker, and no lesson marker is a quiz marker, so each
/// concept's lesson XP and quiz XP are guarded separately.
pub proof fn lemma_sources_distinct(a: Seq<char>, b: Seq<char>)
    ensures
        "lesson:"@ + a == "lesson:"@ + b ==> a == b,
        "quiz:"@ + a == "quiz:"@ + b ==> a == b,
        "lesson:"@ + a != "quiz:"@ + b,
{
    reveal_strlit("lesson:");
    reveal_strlit("quiz:");
    if "lesson:"@ + a == "lesson:"@ + b {
        assert(a =~= ("lesson:"@ + a).skip(7));
        assert(b =~= ("lesson:"@ + b).skip(7));
    }
    if "quiz:"@ + a == "quiz:"@ + b {
        assert(a =~= ("quiz:"@ + a).skip(5));
        assert(b =~= ("quiz:"@ + b).skip(5));
    }
    assert(("lesson:"@ + a)[0] == 'l');
    assert(("quiz:"@ + b)[0] == 'q');
}

/// The persisted streak.
#[derive(Debug, Clone, PartialEq)]
pub struct StoredStreak {
    pub current_streak: i64,
    pub longest_streak: i64,
    pub freezes_available: i64,
    pub last_active_date: String,
}

/// The streak as the contract reports it.
pub fn to_streak_info(s: &StoredStreak) -> (r: StreakInfo)
    ensures
        r.current_streak == s.current_streak,
        r.longest_streak == s.longest_streak,
        r.freezes_available == s.freezes_available,
        r.last_active_date@ == s.last_active_date@,
{
    StreakInfo {
        current_streak: s.current_streak,
        longest_streak: s.longest_streak,
        freezes_available: s.freezes_available,
        last_active_date: crate::contract::copy_string(&s.last_active_date),
    }
}

/// The calendar format stored dates are written in.
pub const DATE_FORMAT: &'static str = "%Y-%m-%d";

/// The day number (days from the common era) of `date` read with the chrono
/// format `fmt`; None when the text does not parse as a date in that format.
pub uninterp spec fn day_number(date: Seq<char>, fmt: Seq<char>) -> Option<i64>;

/// `NaiveDate::parse_from_str(date, fmt)`, as a day number
/// (`Datelike::num_days_from_ce`, an `i32`).
#[verifier::external_body]
fn parse_day(date: &str, fmt: &str) -> (r: Option<i64>)
    ensures
        r == day_number(date@, fmt@),
        r matches Some(d) ==> i32::MIN <= d <= i32::MAX,
{
    match chrono::NaiveDate::parse_from_str(date, fmt) {
        Ok(d) => Some(i64::from(d.num_days_from_ce())),
        Err(_) => None,
    }
}

/// Whole days from `from` to `to`; None when `from` is empty or either is not
/// a date.
pub open spec fn gap_of(from: Seq<char>, to: Seq<char>) -> Option<int> {
    if from.len() == 0 {
        None
    } else {
        match (day_number(from, DATE_FORMAT@), day_number(to, DATE_FORMAT@)) {
            (Some(a), Some(b)) => Some(b - a),
            _ => None,
        }
    }
}

/// Whole-day gap between two `YYYY-MM-DD` dates.
pub fn day_gap(from: &str, to: &str) -> (r: Option<i64>)
    ensures
        match r {
            Some(g) => gap_of(from@, to@) == Some(g as int),
            None => gap_of(from@, to@) is None,
        },
{
    let f = chars_of(from);
    if f.len() == 0 {
        return None;
    }
    match (parse_day(from, DATE_FORMAT), parse_day(to, DATE_FORMAT)) {
        (Some(a), Some(b)) => Some(b - a),
        _ => None,
    }
}

/// The streak (current, longest, freezes, last active day) after activity
/// on `today`, given the whole-day gap from the last active day, and whether
/// it changed. Activity on the same day changes nothing, and neither does a
/// `today` before the last active day (the clock was set back): the streak
/// is not reset and the last active day is not rewound.
pub open spec fn advanced(
    cur: int,
    longest: int,
    freezes: int,
    last: Seq<char>,
    today: Seq<char>,
    gap: Option<int>,
) -> (int, int, int, Seq<char>, bool) {
    if last == today || (gap matches Some(g) && g < 0) {
        (cur, longest, freezes, last, false)
    } else {
        let (c, f) = if gap == Some(1int) {
            (cur + 1, freezes)
        } else if gap == Some(2int) && freezes > 0 {
            (cur + 1, freezes - 1)
        } else if gap == Some(0int) {
            (cur, freezes)
        } else {
            (1, freezes)
        };
        (c, if longest >= c { longest } else { c }, f, today, true)
    }
}

/// A second activity on the same day changes nothing: touching the streak is
/// idempotent within a day.
pub proof fn lemma_touch_idempotent(cur: int, longest: int, freezes: int, last: Seq<char>, today: Seq<char>)
    ensures
        ({
            let (c, l, f, d, _) = advanced(cur, longest, freezes, last, today, gap_of(last, today));
            advanced(c, l, f, d, today, gap_of(d, today)) == (c, l, f, d, false)
        }),
{
}

/// Activity on a day no earlier than the last active one, from any streak
/// that touching can produce (current at most longest, and at least one once
/// a day is recorded): the day becomes the last active day, the streak is at
/// least one and never above the longest, the longest never shrinks, freezes
/// never grow, the very next day adds exactly one, and the result is again
/// such a streak, which a second touch that day leaves unchanged.
pub proof fn lemma_touch_advances(cur: int, longest: int, freezes: int, last: Seq<char>, today: Seq<char>)
    requires
        0 <= cur <= longest,
        0 <= freezes,
        last.len() > 0 ==> cur >= 1,
        today.len() > 0,
        !(gap_of(last, today) matches Some(g) && g < 0),
    ensures
        ({
            let (c, l, f, d, _) = advanced(cur, longest, freezes, last, today, gap_of(last, today));
            &&& d == today
            &&& 1 <= c <= l
            &&& longest <= l
            &&& 0 <= f <= freezes
            &&& gap_of(last, today) == Some(1int) ==> c == cur + 1
            &&& advanced(c, l, f, d, today, gap_of(d, today)) == (c, l, f, d, false)
        }),
{
}

/// A clock set back never costs the learner: a day before the last active
/// one leaves the streak and the last active day as they were.
pub proof fn lemma_clock_rollback_keeps_streak(cur: int, longest: int, freezes: int, last: Seq<char>, today: Seq<char>, g: int)
    requires
        g < 0,
    ensures
        advanced(cur, longest, freezes, last, today, Some(g)) == (cur, longest, freezes, last, false),
{
}

/// After any activity the longest streak is at least the current one.
pub proof fn lemma_longest_covers_current(cur: int, longest: int, freezes: int, last: Seq<char>, today: Seq<char>, gap: Option<int>)
    requires
        longest >= cur,
    ensures
        advanced(cur, longest, freezes, last, today, gap).1 >= advanced(cur, longest, freezes, last, today, gap).0,
{
}

/// Record activity on `today` (`YYYY-MM-DD`): the updated streak, and whether
/// it must be written back.
pub fn touch_streak(s: &StoredStreak, today: &str) -> (r: (StoredStreak, bool))
    requires
        s.current_streak < i64::MAX,
    ensures
        advanced(
            s.current_streak as int,
            s.longest_streak as int,
            s.freezes_available as int,
            s.last_active_date@,
            today@,
            gap_of(s.last_active_date@, today@),
        ) == (
            r.0.current_streak as int,
            r.0.longest_streak as int,
            r.0.freezes_available as int,
            r.0.last_active_date@,
            r.1,
        ),
{
    if str_eq(s.last_active_date.as_str(), today) {
        return (
            StoredStreak {
                current_streak: s.current_streak,
                longest_streak: s.longest_streak,
                freezes_available: s.freezes_available,
                last_active_date: crate::contract::copy_string(&s.last_active_date),
            },
            false,
        );
    }
    let gap = day_gap(s.last_active_date.as_str(), today);
    if let Some(g) = gap {
        if g < 0 {
            return (
                StoredStreak {
                    current_streak: s.current_streak,
                    longest_streak: s.longest_streak,
                    freezes_available: s.freezes_available,
                    last_active_date: crate::contract::copy_string(&s.last_active_date),
                },
                false,
            );
        }
    }
    let mut cur = s.current_streak;
    let mut fr = s.freezes_available;
    match gap {
        Some(0) => {},
        Some(1) => {
            cur = cur + 1;
        },
        Some(2) if fr > 0 => {
            fr = fr - 1;
            cur = cur + 1;
        },
        _ => {
            cur = 1;
        },
    }
    let longest = if s.longest_streak >= cur { s.longest_streak } else { cur };
    (StoredStreak { current_streak: cur, longest_streak: longest, freezes_available: fr, last_active_date: owned(today) }, true)
}

/// The gamification snapshot: the XP total, a fixed level placeholder, the
/// streak, the recent grants, and no badges.
pub fn snapshot(xp: i64, streak: &StoredStreak, recent_xp_events: Vec<XpEvent>) -> (r: GamificationState)
    requires
        xp < i64::MAX,
    ensures
        r.xp == xp,
        r.level.level == 1,
        r.level.title@ == "Learner"@,
        r.level.xp_into_level == xp,
        r.level.xp_for_next_level == xp + 1,
        r.streak.current_streak == streak.current_streak,
        r.streak.longest_streak == streak.longest_streak,
        r.streak.freezes_available == streak.freezes_available,
        r.streak.last_active_date@ == streak.last_active_date@,
        r.recent_xp_events@ == recent_xp_events@,
        r.badges@.len() == 0,
{
    GamificationState {
        xp,
        level: LevelInfo { level: 1, title: owned("Learner"), xp_into_level: xp, xp_for_next_level: xp + 1 },
        streak: to_streak_info(streak),
        recent_xp_events,
        badges: Vec::new(),
    }
}

} // verus!
