//! Session sizing and ordering: how many new concepts a session introduces,
//! the total queue cap derived from the daily goal, the curriculum phase rank
//! of a domain, and the new/review interleaving.

use vstd::prelude::*;

use crate::text::str_eq;

verus! {

/// Approximate minutes one concept costs in a session.
pub const MINUTES_PER_CONCEPT: i64 = 8;
/// Hard cap on total session size.
pub const MAX_SESSION_CONCEPTS: usize = 12;
/// Floor on the goal-derived queue cap.
pub const MIN_SESSION_CONCEPTS: usize = 3;

/// Phase-order rank of a domain: its 1-based position in the curriculum
/// order (phase 1: algebra .. phase 4: astrophysics), or 0 for a domain not listed.
pub open spec fn rank_of(d: Seq<char>) -> nat {
    if d == "algebra"@ {
        1
    } else if d == "trigonometry"@ {
        2
    } else if d == "precalculus"@ {
        3
    } else if d == "single_variable_calculus"@ {
        4
    } else if d == "multivariable_calculus"@ {
        5
    } else if d == "linear_algebra"@ {
        6
    } else if d == "differential_equations"@ {
        7
    } else if d == "classical_mechanics"@ {
        8
    } else if d == "electromagnetism"@ {
        9
    } else if d == "thermodynamics"@ {
        10
    } else if d == "quantum_mechanics"@ {
        11
    } else if d == "astrophysics"@ {
        12
    } else {
        0
    }
}

/// Phase-order rank of a domain (1-based; unknown domains rank 0).
pub fn domain_rank(domain: &str) -> (r: usize)
    ensures
        r == rank_of(domain@),
{
    if str_eq(domain, "algebra") {
        1
    } else if str_eq(domain, "trigonometry") {
        2
    } else if str_eq(domain, "precalculus") {
        3
    } else if str_eq(domain, "single_variable_calculus") {
        4
    } else if str_eq(domain, "multivariable_calculus") {
        5
    } else if str_eq(domain, "linear_algebra") {
        6
    } else if str_eq(domain, "differential_equations") {
        7
    } else if str_eq(domain, "classical_mechanics") {
        8
    } else if str_eq(domain, "electromagnetism") {
        9
    } else if str_eq(domain, "thermodynamics") {
        10
    } else if str_eq(domain, "quantum_mechanics") {
        11
    } else if str_eq(domain, "astrophysics") {
        12
    } else {
        0
    }
}

/// Queue cap from the daily goal: clamp(goal / 8, 3, 12).
pub open spec fn cap_for_goal(goal: int) -> nat {
    if goal < 24 {
        3
    } else if goal >= 96 {
        12
    } else {
        (goal / 8) as nat
    }
}

/// Total interleaved-queue cap derived from the daily goal at ~8 minutes per
/// concept, clamped to 3..=12.
pub fn session_cap(daily_goal_minutes: i64) -> (r: usize)
    ensures
        r == cap_for_goal(daily_goal_minutes as int),
        3 <= r <= 12,
{
    if daily_goal_minutes < 24 {
        3
    } else if daily_goal_minutes >= 96 {
        12
    } else {
        (daily_goal_minutes / MINUTES_PER_CONCEPT) as usize
    }
}

/// New-concept budget: the setting clamped to 1..=10, plus one per extra
/// 15 minutes of goal over 15, capped at 12.
pub open spec fn budget_for(new_per_session: int, goal: int) -> nat {
    let base = if new_per_session < 1 {
        1
    } else if new_per_session > 10 {
        10
    } else {
        new_per_session
    };
    let bonus = if goal - 15 > 0 {
        (goal - 15) / 15
    } else {
        0
    };
    if base + bonus > 12 {
        12
    } else {
        (base + bonus) as nat
    }
}

/// How many NEW concepts to introduce this session.
pub fn new_concept_budget(new_per_session: i64, daily_goal_minutes: i64) -> (r: usize)
    requires
        daily_goal_minutes >= i64::MIN + 15,
    ensures
        r == budget_for(new_per_session as int, daily_goal_minutes as int),
        1 <= r <= MAX_SESSION_CONCEPTS,
{
    let base: i64 = if new_per_session < 1 {
        1
    } else if new_per_session > 10 {
        10
    } else {
        new_per_session
    };
    let over: i64 = daily_goal_minutes - 15;
    let goal_bonus: i64 = if over > 0 {
        over / 15
    } else {
        0
    };
    let total: i64 = base + goal_bonus;
    if total > 12 {
        12
    } else {
        total as usize
    }
}

/// New and review items woven alternately, the longer list's tail after.
pub open spec fn interleaved<A>(n: Seq<A>, r: Seq<A>) -> Seq<A> {
    let m = if n.len() <= r.len() {
        n.len()
    } else {
        r.len()
    };
    Seq::new(2 * m, |k: int| if k % 2 == 0 {
        n[k / 2]
    } else {
        r[k / 2]
    }) + n.skip(m as int) + r.skip(m as int)
}

/// Interleave new and review concepts so the queue alternates.
pub fn interleave(new: &[String], review: &[String]) -> (out: Vec<String>)
    ensures
        out@ == interleaved(new@, review@),
        out@.len() == new@.len() + review@.len(),
{
    let m: usize = if new.len() <= review.len() {
        new.len()
    } else {
        review.len()
    };
    let mut out: Vec<String> = Vec::new();
    let mut i: usize = 0;
    while i < m
        invariant
            i <= m,
            m <= new@.len(),
            m <= review@.len(),
            out@.len() == 2 * i,
            forall|k: int| 0 <= k < 2 * i ==> out@[k] == (if k % 2 == 0 {
                new@[k / 2]
            } else {
                review@[k / 2]
            }),
        decreases m - i,
    {
        out.push(new[i].clone());
        out.push(review[i].clone());
        i = i + 1;
    }
    let ghost zipped = out@;
    let mut j = m;
    while j < new.len()
        invariant
            m <= j <= new@.len(),
            out@ == zipped + new@.subrange(m as int, j as int),
        decreases new.len() - j,
    {
        out.push(new[j].clone());
        j = j + 1;
        assert(out@ =~= zipped + new@.subrange(m as int, j as int));
    }
    let ghost with_new = out@;
    let mut k = m;
    while k < review.len()
        invariant
            m <= k <= review@.len(),
            out@ == with_new + review@.subrange(m as int, k as int),
        decreases review.len() - k,
    {
        out.push(review[k].clone());
        k = k + 1;
        assert(out@ =~= with_new + review@.subrange(m as int, k as int));
    }
    proof {
        let mm = if new@.len() <= review@.len() { new@.len() } else { review@.len() };
        assert(mm == m);
        let z = Seq::new(2 * mm, |t: int| if t % 2 == 0 {
            new@[t / 2]
        } else {
            review@[t / 2]
        });
        assert(zipped =~= z);
        assert(new@.subrange(m as int, new@.len() as int) =~= new@.skip(m as int));
        assert(review@.subrange(m as int, review@.len() as int) =~= review@.skip(m as int));
        assert(out@ =~= interleaved(new@, review@));
    }
    out
}

} // verus!
