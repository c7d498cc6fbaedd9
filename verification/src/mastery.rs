//! The counting half of the mastery composite: over a rolling window of graded
//! attempts, how many there are, how many were right, and the same two counts
//! restricted to transfer questions. The weighting of accuracy, consistency and
//! transfer is floating-point arithmetic and is done by the caller from these
//! counts.

use vstd::prelude::*;

verus! {

/// Rolling window: the most recent N graded answers per concept feed mastery.
pub const WINDOW: i64 = 20;

/// One graded attempt as it feeds the composite.
#[derive(Clone, Copy, Debug)]
pub struct Attempt {
    pub is_correct: bool,
    pub is_transfer: bool,
}

/// The four counts the composite is computed from.
#[derive(Clone, Copy, Debug)]
pub struct AttemptTally {
    pub total: u64,
    pub correct: u64,
    pub transfers: u64,
    pub transfer_correct: u64,
}

/// How many attempts of `s` were answered correctly.
pub open spec fn correct_count(s: Seq<Attempt>) -> nat
    decreases s.len(),
{
    if s.len() == 0 {
        0
    } else {
        correct_count(s.drop_last()) + if s.last().is_correct { 1nat } else { 0nat }
    }
}

/// How many attempts of `s` are on transfer questions.
pub open spec fn transfer_count(s: Seq<Attempt>) -> nat
    decreases s.len(),
{
    if s.len() == 0 {
        0
    } else {
        transfer_count(s.drop_last()) + if s.last().is_transfer { 1nat } else { 0nat }
    }
}

/// How many transfer questions of `s` were answered correctly.
pub open spec fn transfer_correct_count(s: Seq<Attempt>) -> nat
    decreases s.len(),
{
    if s.len() == 0 {
        0
    } else {
        transfer_correct_count(s.drop_last()) + if s.last().is_transfer
            && s.last().is_correct { 1nat } else { 0nat }
    }
}

/// The tally of a window of attempts.
pub open spec fn tally_of(s: Seq<Attempt>) -> (nat, nat, nat, nat) {
    (s.len(), correct_count(s), transfer_count(s), transfer_correct_count(s))
}

/// Count a window of attempts.
pub fn tally(attempts: &[Attempt]) -> (t: AttemptTally)
    requires
        attempts@.len() < u64::MAX,
    ensures
        (t.total as nat, t.correct as nat, t.transfers as nat, t.transfer_correct as nat)
            == tally_of(attempts@),
{
    let mut t = AttemptTally { total: 0, correct: 0, transfers: 0, transfer_correct: 0 };
    let mut i: usize = 0;
    while i < attempts.len()
        invariant
            i <= attempts@.len() < u64::MAX,
            (t.total as nat, t.correct as nat, t.transfers as nat, t.transfer_correct as nat)
                == tally_of(attempts@.take(i as int)),
        decreases attempts.len() - i,
    {
        let a = attempts[i];
        proof {
            let s = attempts@.take(i + 1);
            assert(s.drop_last() =~= attempts@.take(i as int));
            lemma_counts_bounded(attempts@.take(i as int));
        }
        t.total = t.total + 1;
        if a.is_correct {
            t.correct = t.correct + 1;
        }
        if a.is_transfer {
            t.transfers = t.transfers + 1;
            if a.is_correct {
                t.transfer_correct = t.transfer_correct + 1;
            }
        }
        i = i + 1;
    }
    assert(attempts@.take(attempts@.len() as int) =~= attempts@);
    t
}

/// Every count is bounded by the ones it refines: right transfer answers by
/// transfer answers and by right answers, and each by the window's size.
pub proof fn lemma_counts_bounded(s: Seq<Attempt>)
    ensures
        correct_count(s) <= s.len(),
        transfer_count(s) <= s.len(),
        transfer_correct_count(s) <= transfer_count(s),
        transfer_correct_count(s) <= correct_count(s),
    decreases s.len(),
{
    if s.len() > 0 {
        lemma_counts_bounded(s.drop_last());
    }
}

proof fn lemma_counts_concat(a: Seq<Attempt>, b: Seq<Attempt>)
    ensures
        tally_of(a + b) == ((a.len() + b.len()) as nat, correct_count(a) + correct_count(b),
            transfer_count(a) + transfer_count(b), transfer_correct_count(a)
            + transfer_correct_count(b)),
    decreases b.len(),
{
    if b.len() > 0 {
        lemma_counts_concat(a, b.drop_last());
        assert((a + b).drop_last() =~= a + b.drop_last());
        assert((a + b).last() == b.last());
    } else {
        assert(a + b =~= a);
    }
}

/// The tally does not depend on the order the window is read in: newest-first
/// and oldest-first give the same counts.
pub proof fn lemma_tally_order_independent(s: Seq<Attempt>)
    ensures
        tally_of(s.reverse()) == tally_of(s),
    decreases s.len(),
{
    if s.len() > 0 {
        let x = s.last();
        let rest = s.drop_last();
        lemma_tally_order_independent(rest);
        assert(s.reverse() =~= seq![x] + rest.reverse());
        lemma_counts_concat(seq![x], rest.reverse());
        let one = seq![x];
        assert(one.drop_last() =~= Seq::<Attempt>::empty());
        assert(one.last() == x);
        assert(correct_count(one) == correct_count(Seq::<Attempt>::empty()) + if x.is_correct { 1nat } else { 0nat });
        assert(transfer_count(one) == transfer_count(Seq::<Attempt>::empty()) + if x.is_transfer { 1nat } else { 0nat });
        assert(transfer_correct_count(one) == transfer_correct_count(Seq::<Attempt>::empty())
            + if x.is_transfer && x.is_correct { 1nat } else { 0nat });
    } else {
        assert(s.reverse() =~= s);
    }
}

/// The whole days a stored mastery decays over: a concept never reviewed, or
/// reviewed today (or with a date in the future), does not decay.
pub fn decay_days(days_since_review: Option<i64>) -> (d: Option<i64>)
    ensures
        d == (match days_since_review {
            Some(n) => if n > 0 { Some(n) } else { None },
            None => None,
        }),
{
    match days_since_review {
        Some(n) => if n > 0 { Some(n) } else { None },
        None => None,
    }
}

} // verus!
