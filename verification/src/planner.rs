//! Today's session plan.
//!
//! New concepts (unlocked, never attempted, not placement-seeded) are taken
//! frontier-domain first, then by curriculum phase rank, then by id; the
//! frontier is the highest-ranked domain showing any progress. Reviews (an
//! attempted concept that is due, force-scheduled or decayed) go to the
//! domains of today's new concepts first, then most-decayed first. Reviews
//! fill what the goal-derived cap leaves after new work, an empty session is
//! seeded with one not-yet-completed unlocked concept, and the two lists are
//! interleaved. Per-concept facts that rest on dates and decayed mastery
//! (unlocked, completed, due, decay order) arrive precomputed.

use vstd::prelude::*;

use crate::contract::DailySession;
use crate::session::{
    budget_for, cap_for_goal, domain_rank, interleave, interleaved, new_concept_budget, rank_of,
    session_cap, MINUTES_PER_CONCEPT,
};
use crate::text::{
    lemma_lex_asymmetric, lemma_lex_irreflexive, lemma_lex_total, lemma_lex_transitive, lex_lt,
    str_eq, str_less,
};

verus! {

/// What the planner needs to know of one concept.
#[derive(Debug, Clone)]
pub struct SessionRow {
    pub id: String,
    pub domain: String,
    /// Has at least one recorded attempt.
    pub attempted: bool,
    /// Marked mastered by the placement decision rather than by attempts.
    pub placement_seeded: bool,
    /// Shows any progress: an attempt, a placement seed, or seeded mastery.
    pub progress_signal: bool,
    /// Every prerequisite's decayed mastery reaches the unlock threshold.
    pub unlocked: bool,
    /// Its own decayed mastery reaches that threshold (a completed concept).
    pub completed: bool,
    /// Due, force-scheduled, or decayed below the re-entry threshold.
    pub needs_review: bool,
    /// Position in ascending order of decayed mastery (ties share a value).
    pub decay_rank: u64,
}

// ---- Choosing the k smallest keys ----

/// A sort key: two integers, then a text, compared lexicographically; equal
/// keys keep their input order.
pub open spec fn key_lt(keys: Seq<(u64, u64, Seq<char>)>, i: int, j: int) -> bool {
    let a = keys[i];
    let b = keys[j];
    a.0 < b.0 || (a.0 == b.0 && (a.1 < b.1 || (a.1 == b.1 && (lex_lt(a.2, b.2) || (a.2 == b.2 && i
        < j)))))
}

proof fn lemma_key_order(keys: Seq<(u64, u64, Seq<char>)>, i: int, j: int, k: int)
    ensures
        !key_lt(keys, i, i),
        i != j ==> key_lt(keys, i, j) || key_lt(keys, j, i),
        key_lt(keys, i, j) ==> !key_lt(keys, j, i),
        key_lt(keys, i, j) && key_lt(keys, j, k) ==> key_lt(keys, i, k),
{
    lemma_lex_irreflexive(keys[i].2);
    lemma_lex_total(keys[i].2, keys[j].2);
    if lex_lt(keys[i].2, keys[j].2) {
        lemma_lex_asymmetric(keys[i].2, keys[j].2);
    }
    if lex_lt(keys[j].2, keys[i].2) {
        lemma_lex_asymmetric(keys[j].2, keys[i].2);
    }
    if lex_lt(keys[i].2, keys[j].2) && lex_lt(keys[j].2, keys[k].2) {
        lemma_lex_transitive(keys[i].2, keys[j].2, keys[k].2);
    }
    if key_lt(keys, i, j) && key_lt(keys, j, k) {
        if keys[i].2 == keys[j].2 && lex_lt(keys[j].2, keys[k].2) {
        } else if lex_lt(keys[i].2, keys[j].2) && keys[j].2 == keys[k].2 {
        }
    }
}

/// `r` lists the `min(k, n)` smallest of the `n` keys, smallest first.
pub open spec fn is_top(keys: Seq<(u64, u64, Seq<char>)>, k: int, r: Seq<int>) -> bool {
    &&& r.len() == (if k <= keys.len() { k } else { keys.len() as int })
    &&& forall|a: int| 0 <= a < r.len() ==> 0 <= #[trigger] r[a] < keys.len()
    &&& forall|a: int, b: int| 0 <= a < b < r.len() ==> key_lt(keys, #[trigger] r[a], #[trigger] r[b])
    &&& forall|j: int, a: int|
        0 <= j < keys.len() && !r.contains(j) && 0 <= a < r.len() ==> #[trigger] key_lt(keys, r[a], j)
}

pub open spec fn keys_view(keys: Seq<(u64, u64, String)>) -> Seq<(u64, u64, Seq<char>)> {
    Seq::new(keys.len(), |i: int| (keys[i].0, keys[i].1, keys[i].2@))
}

pub open spec fn usizes(v: Seq<usize>) -> Seq<int> {
    Seq::new(v.len(), |i: int| v[i] as int)
}

fn key_less(keys: &Vec<(u64, u64, String)>, i: usize, j: usize) -> (b: bool)
    requires
        i < keys@.len(),
        j < keys@.len(),
    ensures
        b == key_lt(keys_view(keys@), i as int, j as int),
{
    let a = &keys[i];
    let c = &keys[j];
    if a.0 != c.0 {
        return a.0 < c.0;
    }
    if a.1 != c.1 {
        return a.1 < c.1;
    }
    if str_less(a.2.as_str(), c.2.as_str()) {
        return true;
    }
    str_eq(a.2.as_str(), c.2.as_str()) && i < j
}

/// At most one sequence lists the `k` smallest keys in order.
pub proof fn lemma_top_unique(keys: Seq<(u64, u64, Seq<char>)>, k: int, r1: Seq<int>, r2: Seq<int>)
    requires
        is_top(keys, k, r1),
        is_top(keys, k, r2),
    ensures
        r1 == r2,
{
    if r1.len() > 0 {
        lemma_top_agree(keys, k, r1, r2, r1.len() - 1);
    }
    assert(r1 =~= r2);
}

proof fn lemma_top_agree(keys: Seq<(u64, u64, Seq<char>)>, k: int, r1: Seq<int>, r2: Seq<int>, a: int)
    requires
        is_top(keys, k, r1),
        is_top(keys, k, r2),
        0 <= a < r1.len(),
    ensures
        forall|b: int| 0 <= b <= a ==> r1[b] == r2[b],
    decreases a,
{
    if a > 0 {
        lemma_top_agree(keys, k, r1, r2, a - 1);
    }
    let x = r1[a];
    let y = r2[a];
    if x != y {
        lemma_key_order(keys, x, y, x);
        // the smaller of the two is missing from, or later in, the other list
        if key_lt(keys, x, y) {
            lemma_top_position(keys, k, r1, r2, a, x);
        } else {
            lemma_top_position(keys, k, r2, r1, a, y);
        }
    }
}

/// When two tops agree before position `a`, `r1[a]` does not sort before `r2[a]`.
proof fn lemma_top_position(keys: Seq<(u64, u64, Seq<char>)>, k: int, r1: Seq<int>, r2: Seq<int>, a: int, x: int)
    requires
        is_top(keys, k, r1),
        is_top(keys, k, r2),
        0 <= a < r1.len(),
        r1[a] == x,
        forall|b: int| 0 <= b < a ==> r1[b] == r2[b],
    ensures
        !key_lt(keys, x, r2[a]),
{
    let y = r2[a];
    lemma_key_order(keys, x, y, x);
    if !key_lt(keys, x, y) {
    } else if r2.contains(x) {
        let c = choose|c: int| 0 <= c < r2.len() && r2[c] == x;
        if c < a {
            assert(r1[c] == r2[c]);
            assert(r1[c] == x);
            assert(key_lt(keys, r1[c], r1[a]));
        } else if c == a {
        } else {
            assert(key_lt(keys, r2[a], r2[c]));
        }
    } else {
        assert(0 <= x < keys.len());
        assert(key_lt(keys, r2[a], x));
    }
}

/// The `k` smallest keys, smallest first.
pub open spec fn top(keys: Seq<(u64, u64, Seq<char>)>, k: int) -> Seq<int> {
    choose|r: Seq<int>| is_top(keys, k, r)
}

/// The positions of the `k` smallest keys (all of them when fewer), smallest
/// first.
pub fn select_smallest(keys: &Vec<(u64, u64, String)>, k: usize) -> (r: Vec<usize>)
    ensures
        is_top(keys_view(keys@), k as int, usizes(r@)),
        usizes(r@) == top(keys_view(keys@), k as int),
{
    let ghost kv = keys_view(keys@);
    let n = keys.len();
    let mut taken: Vec<bool> = Vec::new();
    let mut i: usize = 0;
    while i < n
        invariant
            n == keys@.len(),
            i <= n,
            taken@.len() == i,
            forall|j: int| 0 <= j < i ==> !taken@[j],
        decreases n - i,
    {
        taken.push(false);
        i = i + 1;
    }
    let mut r: Vec<usize> = Vec::new();
    while r.len() < k && r.len() < n
        invariant
            kv == keys_view(keys@),
            n == keys@.len(),
            taken@.len() == n,
            r@.len() <= n,
            r@.len() <= k,
            forall|a: int| 0 <= a < r@.len() ==> #[trigger] r@[a] < n,
            forall|j: int| 0 <= j < n ==> (taken@[j] <==> usizes(r@).contains(j)),
            forall|a: int, b: int| 0 <= a < b < r@.len() ==> key_lt(kv, #[trigger] r@[a] as int, #[trigger] r@[b] as int),
            forall|j: int, a: int|
                0 <= j < n && !taken@[j] && 0 <= a < r@.len() ==> #[trigger] key_lt(kv, r@[a] as int, j),
        decreases n - r@.len(),
    {
        // Some index is still free: r holds fewer than n distinct indices.
        proof {
            lemma_free_exists(taken@, usizes(r@), n as int);
        }
        let mut best: usize = n;
        let mut j: usize = 0;
        while j < n
            invariant
                kv == keys_view(keys@),
                n == keys@.len(),
                taken@.len() == n,
                j <= n,
                best == n || (best < j && !taken@[best as int]),
                best == n ==> forall|q: int| 0 <= q < j ==> taken@[q],
                best < n ==> forall|q: int|
                    0 <= q < j && !taken@[q] && q != best ==> key_lt(kv, best as int, q),
            decreases n - j,
        {
            if !taken[j] {
                if best == n {
                    best = j;
                } else if key_less(keys, j, best) {
                    proof {
                        assert forall|q: int| 0 <= q < j && !taken@[q] && q != j implies key_lt(kv, j as int, q) by {
                            lemma_key_order(kv, j as int, best as int, q);
                        }
                    }
                    best = j;
                } else {
                    proof {
                        lemma_key_order(kv, j as int, best as int, 0);
                    }
                }
            }
            j = j + 1;
        }
        assert(best < n) by {
            if best == n {
                let q = choose|q: int| 0 <= q < n && !taken@[q];
                assert(taken@[q]);
            }
        }
        let ghost before = r@;
        let ghost tb = taken@;
        taken.set(best, true);
        r.push(best);
        proof {
            assert forall|q: int| 0 <= q < n implies (taken@[q] <==> usizes(r@).contains(q)) by {
                if q == best as int {
                    assert(usizes(r@)[r@.len() - 1] == q);
                } else {
                    if usizes(r@).contains(q) {
                        let a = choose|a: int| 0 <= a < usizes(r@).len() && usizes(r@)[a] == q;
                        assert(a < before.len());
                        assert(usizes(before)[a] == q);
                    }
                    if usizes(before).contains(q) {
                        let a = choose|a: int| 0 <= a < usizes(before).len() && usizes(before)[a] == q;
                        assert(usizes(r@)[a] == q);
                    }
                }
            }
            assert forall|a: int, b: int| 0 <= a < b < r@.len() implies key_lt(kv, #[trigger] r@[a] as int, #[trigger] r@[b] as int) by {
                if b == r@.len() - 1 {
                    assert(!tb[best as int]);
                }
            }
            assert forall|q: int, a: int| 0 <= q < n && !taken@[q] && 0 <= a < r@.len() implies #[trigger] key_lt(kv, r@[a] as int, q) by {
                if a == r@.len() - 1 {
                    assert(!tb[q]);
                }
            }
        }
    }
    proof {
        assert forall|a: int| 0 <= a < usizes(r@).len() implies 0 <= #[trigger] usizes(r@)[a] < kv.len() by {
            assert(r@[a] < n);
        }
        assert forall|j: int, a: int|
            0 <= j < kv.len() && !usizes(r@).contains(j) && 0 <= a < usizes(r@).len() implies #[trigger] key_lt(
            kv,
            usizes(r@)[a],
            j,
        ) by {
            assert(!taken@[j]);
        }
        assert forall|a: int, b: int| 0 <= a < b < usizes(r@).len() implies key_lt(kv, #[trigger] usizes(r@)[a], #[trigger] usizes(r@)[b]) by {
            assert(usizes(r@)[a] == r@[a] as int);
            assert(usizes(r@)[b] == r@[b] as int);
        }
        assert(is_top(kv, k as int, usizes(r@)));
        lemma_top_unique(kv, k as int, usizes(r@), top(kv, k as int));
    }
    r
}

/// Fewer than `n` distinct taken indices leave a free one.
proof fn lemma_free_exists(taken: Seq<bool>, r: Seq<int>, n: int)
    requires
        taken.len() == n,
        r.len() < n,
        forall|j: int| 0 <= j < n ==> (taken[j] <==> r.contains(j)),
    ensures
        exists|q: int| 0 <= q < n && !taken[q],
{
    if forall|q: int| 0 <= q < n ==> taken[q] {
        let s = Set::new(|q: int| 0 <= q < n);
        assert(s.subset_of(r.to_set())) by {
            assert forall|q: int| s.contains(q) implies r.to_set().contains(q) by {
                assert(taken[q]);
            }
        }
        vstd::set_lib::lemma_int_range(0, n);
        assert(s =~= vstd::set_lib::set_int_range(0, n));
        r.lemma_cardinality_of_set();
        vstd::set_lib::lemma_len_subset(s, r.to_set());
    }
}

// ---- The plan ----

/// Domain `d` outranks `e` as a frontier: a later phase, or the same rank and
/// a later name.
pub open spec fn frontier_better(d: Seq<char>, e: Seq<char>) -> bool {
    rank_of(d) > rank_of(e) || (rank_of(d) == rank_of(e) && lex_lt(e, d))
}

/// The frontier domain among the first `n` rows: the best-ranked domain of a
/// row showing progress (a later row wins a tie).
pub open spec fn frontier_prefix(rows: Seq<SessionRow>, n: int) -> Option<Seq<char>>
    decreases n,
{
    if n <= 0 {
        None
    } else {
        let f = frontier_prefix(rows, n - 1);
        let r = rows[n - 1];
        if !r.progress_signal {
            f
        } else {
            match f {
                Some(d) => if frontier_better(d, r.domain@) {
                    Some(d)
                } else {
                    Some(r.domain@)
                },
                None => Some(r.domain@),
            }
        }
    }
}

pub open spec fn is_new_candidate(r: SessionRow) -> bool {
    !r.attempted && !r.placement_seeded && r.unlocked
}

pub open spec fn is_review_candidate(r: SessionRow) -> bool {
    r.attempted && r.needs_review
}

pub open spec fn is_fallback_candidate(r: SessionRow) -> bool {
    !r.placement_seeded && r.unlocked && !r.completed
}

/// The indices among the first `n` rows of the rows `which` selects
/// (0: new candidates, 1: review candidates, otherwise fallback candidates).
pub open spec fn candidates(rows: Seq<SessionRow>, which: int, n: int) -> Seq<int>
    decreases n,
{
    if n <= 0 {
        Seq::empty()
    } else {
        let rest = candidates(rows, which, n - 1);
        let r = rows[n - 1];
        let pick = if which == 0 {
            is_new_candidate(r)
        } else if which == 1 {
            is_review_candidate(r)
        } else {
            is_fallback_candidate(r)
        };
        if pick {
            rest.push(n - 1)
        } else {
            rest
        }
    }
}

/// New-concept order: frontier domain first, then phase rank, then id.
pub open spec fn new_key(rows: Seq<SessionRow>, f: Option<Seq<char>>, i: int) -> (u64, u64, Seq<char>) {
    (if f == Some(rows[i].domain@) {
        0u64
    } else {
        1u64
    }, rank_of(rows[i].domain@) as u64, rows[i].id@)
}

/// Review order: a domain of today's new concepts first, then most decayed.
pub open spec fn review_key(rows: Seq<SessionRow>, nd: Seq<Seq<char>>, i: int) -> (u64, u64, Seq<char>) {
    (if nd.contains(rows[i].domain@) {
        0u64
    } else {
        1u64
    }, rows[i].decay_rank, Seq::empty())
}

pub open spec fn new_keys(rows: Seq<SessionRow>, f: Option<Seq<char>>, c: Seq<int>) -> Seq<(u64, u64, Seq<char>)> {
    Seq::new(c.len(), |p: int| new_key(rows, f, c[p]))
}

pub open spec fn review_keys(rows: Seq<SessionRow>, nd: Seq<Seq<char>>, c: Seq<int>) -> Seq<(u64, u64, Seq<char>)> {
    Seq::new(c.len(), |p: int| review_key(rows, nd, c[p]))
}

/// The ids of the chosen candidates.
pub open spec fn chosen_ids(rows: Seq<SessionRow>, c: Seq<int>, t: Seq<int>) -> Seq<Seq<char>> {
    Seq::new(t.len(), |a: int| rows[c[t[a]]].id@)
}

/// The domains of the first `n` rows whose id is among `ids`.
pub open spec fn domains_of(rows: Seq<SessionRow>, ids: Seq<Seq<char>>, n: int) -> Seq<Seq<char>>
    decreases n,
{
    if n <= 0 {
        Seq::empty()
    } else if ids.contains(rows[n - 1].id@) {
        domains_of(rows, ids, n - 1).push(rows[n - 1].domain@)
    } else {
        domains_of(rows, ids, n - 1)
    }
}

pub open spec fn min_int(a: int, b: int) -> int {
    if a <= b {
        a
    } else {
        b
    }
}

/// Every candidate index is a row the selection admits.
proof fn lemma_candidates_sound(rows: Seq<SessionRow>, which: int, n: int)
    requires
        n <= rows.len(),
    ensures
        forall|p: int|
            0 <= p < candidates(rows, which, n).len() ==> {
                let i = #[trigger] candidates(rows, which, n)[p];
                &&& 0 <= i < n
                &&& which == 0 ==> is_new_candidate(rows[i])
                &&& which == 1 ==> is_review_candidate(rows[i])
                &&& which != 0 && which != 1 ==> is_fallback_candidate(rows[i])
            },
    decreases n,
{
    if n > 0 {
        lemma_candidates_sound(rows, which, n - 1);
        let rest = candidates(rows, which, n - 1);
        let all = candidates(rows, which, n);
        assert forall|p: int| 0 <= p < all.len() implies {
            let i = #[trigger] all[p];
            &&& 0 <= i < n
            &&& which == 0 ==> is_new_candidate(rows[i])
            &&& which == 1 ==> is_review_candidate(rows[i])
            &&& which != 0 && which != 1 ==> is_fallback_candidate(rows[i])
        } by {
            if p < rest.len() {
                assert(all[p] == rest[p]);
            }
        }
    }
}

/// Every row the selection admits is among the candidates.
proof fn lemma_review_candidate_listed(rows: Seq<SessionRow>, n: int, k: int) -> (p: int)
    requires
        0 <= k < n <= rows.len(),
        is_review_candidate(rows[k]),
    ensures
        0 <= p < candidates(rows, 1, n).len(),
        candidates(rows, 1, n)[p] == k,
    decreases n,
{
    let rest = candidates(rows, 1, n - 1);
    if k == n - 1 {
        assert(candidates(rows, 1, n) == rest.push(n - 1));
        rest.len() as int
    } else {
        let q = lemma_review_candidate_listed(rows, n - 1, k);
        if is_review_candidate(rows[n - 1]) {
            assert(candidates(rows, 1, n) == rest.push(n - 1));
        }
        assert(candidates(rows, 1, n)[q] == rest[q]);
        q
    }
}

/// `d` is the domain of some row whose id is among `ids`.
pub open spec fn in_new_domain(rows: Seq<SessionRow>, ids: Seq<Seq<char>>, d: Seq<char>) -> bool {
    exists|k: int| #![trigger rows[k]] 0 <= k < rows.len() && ids.contains(rows[k].id@) && rows[k].domain@ == d
}

/// No two rows share an id (as in the curriculum, where ids are unique).
pub open spec fn distinct_ids(rows: Seq<SessionRow>) -> bool {
    forall|i: int, j: int| 0 <= i < j < rows.len() ==> #[trigger] rows[i].id@ != #[trigger] rows[j].id@
}

proof fn lemma_domains_of_iff(rows: Seq<SessionRow>, ids: Seq<Seq<char>>, n: int, d: Seq<char>)
    requires
        0 <= n <= rows.len(),
    ensures
        domains_of(rows, ids, n).contains(d) <==> exists|k: int|
            #![trigger rows[k]]
            0 <= k < n && ids.contains(rows[k].id@) && rows[k].domain@ == d,
    decreases n,
{
    if n > 0 {
        lemma_domains_of_iff(rows, ids, n - 1, d);
        let prev = domains_of(rows, ids, n - 1);
        if ids.contains(rows[n - 1].id@) {
            let cur = prev.push(rows[n - 1].domain@);
            assert(cur[cur.len() - 1] == rows[n - 1].domain@);
            if cur.contains(d) && !prev.contains(d) {
                let x = choose|x: int| 0 <= x < cur.len() && cur[x] == d;
                if x < prev.len() {
                    assert(prev[x] == cur[x]);
                }
            }
            if prev.contains(d) {
                let x = choose|x: int| 0 <= x < prev.len() && prev[x] == d;
                assert(cur[x] == prev[x]);
            }
        }
    } else {
        assert(domains_of(rows, ids, n) =~= Seq::<Seq<char>>::empty());
    }
}

/// Reviews go to today's new-concept domains first: whenever a review in one
/// of those domains is left out, no review outside them is taken.
pub proof fn lemma_related_reviews_first(rows: Seq<SessionRow>, news: Seq<Seq<char>>, room: int, t: Seq<int>)
    requires
        distinct_ids(rows),
        is_top(
            review_keys(rows, domains_of(rows, news, rows.len() as int), candidates(rows, 1, rows.len() as int)),
            room,
            t,
        ),
    ensures
        forall|i: int, j: int|
            0 <= i < rows.len() && 0 <= j < rows.len() && is_review_candidate(#[trigger] rows[i])
                && is_review_candidate(#[trigger] rows[j]) && in_new_domain(rows, news, rows[i].domain@)
                && !in_new_domain(rows, news, rows[j].domain@) && chosen_ids(
                rows,
                candidates(rows, 1, rows.len() as int),
                t,
            ).contains(rows[j].id@) ==> chosen_ids(rows, candidates(rows, 1, rows.len() as int), t).contains(
                rows[i].id@,
            ),
{
    let n = rows.len() as int;
    let c = candidates(rows, 1, n);
    let nd = domains_of(rows, news, n);
    let keys = review_keys(rows, nd, c);
    let ch = chosen_ids(rows, c, t);
    lemma_candidates_sound(rows, 1, n);
    assert forall|i: int, j: int|
        0 <= i < rows.len() && 0 <= j < rows.len() && is_review_candidate(#[trigger] rows[i])
            && is_review_candidate(#[trigger] rows[j]) && in_new_domain(rows, news, rows[i].domain@)
            && !in_new_domain(rows, news, rows[j].domain@) && ch.contains(rows[j].id@) implies ch.contains(
        rows[i].id@,
    ) by {
        let a = choose|a: int| 0 <= a < ch.len() && ch[a] == rows[j].id@;
        assert(0 <= t[a] < keys.len());
        assert(keys.len() == c.len());
        let cj = c[t[a]];
        assert(0 <= cj < n);
        assert(rows[cj].id@ == rows[j].id@);
        assert(cj == j) by {
            if cj < j {
                assert(rows[cj].id@ != rows[j].id@);
            } else if j < cj {
                assert(rows[j].id@ != rows[cj].id@);
            }
        }
        let p = lemma_review_candidate_listed(rows, n, i);
        lemma_domains_of_iff(rows, news, n, rows[i].domain@);
        lemma_domains_of_iff(rows, news, n, rows[j].domain@);
        assert(nd.contains(rows[i].domain@));
        assert(!nd.contains(rows[j].domain@));
        assert(keys[p] == review_key(rows, nd, i));
        assert(keys[t[a]] == review_key(rows, nd, j));
        if t.contains(p) {
            let b = choose|b: int| 0 <= b < t.len() && t[b] == p;
            assert(ch[b] == rows[i].id@);
        } else {
            assert(key_lt(keys, t[a], p));
        }
    }
}

/// `x` is the id of a row that may be offered as new work: unlocked, not
/// placement-seeded, and never attempted or (the fallback) not yet completed.
pub open spec fn offerable_as_new(rows: Seq<SessionRow>, x: Seq<char>) -> bool {
    exists|i: int| 0 <= i < rows.len() && rows[i].id@ == x && (is_new_candidate(rows[i]) || is_fallback_candidate(rows[i]))
}

/// `x` is the id of an attempted row that needs review.
pub open spec fn reviewable(rows: Seq<SessionRow>, x: Seq<char>) -> bool {
    exists|i: int| 0 <= i < rows.len() && rows[i].id@ == x && is_review_candidate(rows[i])
}

/// The new concepts the regular pick introduces.
pub open spec fn picked_new(rows: Seq<SessionRow>, nps: i64, goal: i64) -> Seq<Seq<char>> {
    let c = candidates(rows, 0, rows.len() as int);
    let budget = min_int(budget_for(nps as int, goal as int) as int, cap_for_goal(goal as int) as int);
    chosen_ids(rows, c, top(new_keys(rows, frontier_prefix(rows, rows.len() as int), c), budget))
}

/// The reviews: what the cap leaves after the new concepts.
pub open spec fn picked_reviews(rows: Seq<SessionRow>, nps: i64, goal: i64) -> Seq<Seq<char>> {
    let news = picked_new(rows, nps, goal);
    let c = candidates(rows, 1, rows.len() as int);
    let nd = domains_of(rows, news, rows.len() as int);
    let room = cap_for_goal(goal as int) as int - news.len();
    chosen_ids(rows, c, top(review_keys(rows, nd, c), if room < 0 { 0 } else { room }))
}

/// The one concept seeded into an otherwise empty session (none if no
/// unlocked, unfinished concept exists).
pub open spec fn fallback_pick(rows: Seq<SessionRow>) -> Seq<Seq<char>> {
    let c = candidates(rows, 2, rows.len() as int);
    chosen_ids(rows, c, top(new_keys(rows, frontier_prefix(rows, rows.len() as int), c), 1))
}

/// The new concepts of the session.
pub open spec fn session_new(rows: Seq<SessionRow>, nps: i64, goal: i64) -> Seq<Seq<char>> {
    if picked_new(rows, nps, goal).len() == 0 && picked_reviews(rows, nps, goal).len() == 0 {
        fallback_pick(rows)
    } else {
        picked_new(rows, nps, goal)
    }
}

fn frontier_of(rows: &[SessionRow]) -> (r: Option<usize>)
    ensures
        match r {
            Some(b) => b < rows@.len() && frontier_prefix(rows@, rows@.len() as int) == Some(rows@[b as int].domain@),
            None => frontier_prefix(rows@, rows@.len() as int) is None,
        },
{
    let mut best: Option<usize> = None;
    let mut i: usize = 0;
    while i < rows.len()
        invariant
            i <= rows@.len(),
            match best {
                Some(b) => b < i && frontier_prefix(rows@, i as int) == Some(rows@[b as int].domain@),
                None => frontier_prefix(rows@, i as int) is None,
            },
        decreases rows.len() - i,
    {
        let r = &rows[i];
        if r.progress_signal {
            best = match best {
                None => Some(i),
                Some(b) => {
                    let d = rows[b].domain.as_str();
                    let e = r.domain.as_str();
                    let rd = domain_rank(d);
                    let re = domain_rank(e);
                    if rd > re || (rd == re && str_less(e, d)) {
                        Some(b)
                    } else {
                        Some(i)
                    }
                },
            };
        }
        i = i + 1;
    }
    best
}

/// Candidate rows and their sort keys.
fn gather(
    rows: &[SessionRow],
    which: u8,
    frontier: Option<&str>,
    new_domains: &Vec<String>,
) -> (r: (Vec<usize>, Vec<(u64, u64, String)>))
    ensures
        usizes(r.0@) == candidates(rows@, which as int, rows@.len() as int),
        forall|a: int| 0 <= a < r.0@.len() ==> #[trigger] r.0@[a] < rows@.len(),
        which != 1 ==> keys_view(r.1@) == new_keys(
            rows@,
            match frontier {
                Some(f) => Some(f@),
                None => None,
            },
            usizes(r.0@),
        ),
        which == 1 ==> keys_view(r.1@) == review_keys(rows@, crate::contract::strings_view(new_domains@), usizes(r.0@)),
{
    let ghost fv = match frontier {
        Some(f) => Some(f@),
        None => None::<Seq<char>>,
    };
    let ghost nd = crate::contract::strings_view(new_domains@);
    let mut c: Vec<usize> = Vec::new();
    let mut k: Vec<(u64, u64, String)> = Vec::new();
    let mut i: usize = 0;
    assert(usizes(c@) =~= Seq::<int>::empty());
    assert(keys_view(k@) =~= new_keys(rows@, fv, usizes(c@)));
    assert(keys_view(k@) =~= review_keys(rows@, nd, usizes(c@)));
    while i < rows.len()
        invariant
            fv == match frontier {
                Some(f) => Some(f@),
                None => None::<Seq<char>>,
            },
            nd == crate::contract::strings_view(new_domains@),
            i <= rows@.len(),
            usizes(c@) == candidates(rows@, which as int, i as int),
            forall|a: int| 0 <= a < c@.len() ==> #[trigger] c@[a] < i,
            which != 1 ==> keys_view(k@) == new_keys(rows@, fv, usizes(c@)),
            which == 1 ==> keys_view(k@) == review_keys(rows@, nd, usizes(c@)),
        decreases rows.len() - i,
    {
        let r = &rows[i];
        let pick = if which == 0 {
            !r.attempted && !r.placement_seeded && r.unlocked
        } else if which == 1 {
            r.attempted && r.needs_review
        } else {
            !r.placement_seeded && r.unlocked && !r.completed
        };
        if pick {
            let ghost c0 = c@;
            let ghost k0 = k@;
            let key = if which == 1 {
                let related = contains_string(new_domains, r.domain.as_str());
                (if related { 0u64 } else { 1u64 }, r.decay_rank, String::new())
            } else {
                let in_frontier = match frontier {
                    Some(f) => str_eq(f, r.domain.as_str()),
                    None => false,
                };
                (if in_frontier { 0u64 } else { 1u64 }, domain_rank(r.domain.as_str()) as u64, crate::contract::copy_string(&r.id))
            };
            c.push(i);
            k.push(key);
            proof {
                assert(usizes(c@) =~= usizes(c0).push(i as int));
                assert(keys_view(k@) =~= keys_view(k0).push((key.0, key.1, key.2@)));
                assert(*r == rows@[i as int]);
                if which == 1 {
                    assert((key.0, key.1, key.2@) == review_key(rows@, nd, i as int));
                    assert(keys_view(k@) =~= review_keys(rows@, nd, usizes(c@)));
                } else {
                    assert((key.0, key.1, key.2@) == new_key(rows@, fv, i as int));
                    assert(keys_view(k@) =~= new_keys(rows@, fv, usizes(c@)));
                }
            }
        }
        i = i + 1;
    }
    (c, k)
}

/// Whether `s` is one of `v`.
pub fn contains_string(v: &Vec<String>, s: &str) -> (b: bool)
    ensures
        b == crate::contract::strings_view(v@).contains(s@),
{
    let mut i: usize = 0;
    while i < v.len()
        invariant
            i <= v@.len(),
            forall|j: int| 0 <= j < i ==> v@[j]@ != s@,
        decreases v.len() - i,
    {
        if str_eq(v[i].as_str(), s) {
            assert(crate::contract::strings_view(v@)[i as int] == s@);
            return true;
        }
        i = i + 1;
    }
    assert forall|j: int| 0 <= j < v@.len() implies crate::contract::strings_view(v@)[j] != s@ by {
        assert(crate::contract::strings_view(v@)[j] == v@[j]@);
    }
    false
}

/// The ids of the chosen candidate rows.
fn ids_at(rows: &[SessionRow], c: &Vec<usize>, t: &Vec<usize>) -> (r: Vec<String>)
    requires
        forall|a: int| 0 <= a < c@.len() ==> #[trigger] c@[a] < rows@.len(),
        forall|a: int| 0 <= a < t@.len() ==> #[trigger] t@[a] < c@.len(),
    ensures
        crate::contract::strings_view(r@) == chosen_ids(rows@, usizes(c@), usizes(t@)),
{
    let mut out: Vec<String> = Vec::new();
    let mut a: usize = 0;
    while a < t.len()
        invariant
            forall|q: int| 0 <= q < c@.len() ==> #[trigger] c@[q] < rows@.len(),
            forall|q: int| 0 <= q < t@.len() ==> #[trigger] t@[q] < c@.len(),
            a <= t@.len(),
            crate::contract::strings_view(out@) == chosen_ids(rows@, usizes(c@), usizes(t@)).take(a as int),
        decreases t.len() - a,
    {
        let ghost o0 = out@;
        let id = crate::contract::copy_string(&rows[c[t[a]]].id);
        out.push(id);
        assert(crate::contract::strings_view(out@) =~= crate::contract::strings_view(o0).push(id@));
        assert(crate::contract::strings_view(out@) =~= chosen_ids(rows@, usizes(c@), usizes(t@)).take(a + 1));
        a = a + 1;
    }
    assert(chosen_ids(rows@, usizes(c@), usizes(t@)).take(t@.len() as int) =~= chosen_ids(rows@, usizes(c@), usizes(t@)));
    out
}

/// The domains of the rows whose id is among `ids`.
fn domains_for(rows: &[SessionRow], ids: &Vec<String>) -> (r: Vec<String>)
    ensures
        crate::contract::strings_view(r@) == domains_of(rows@, crate::contract::strings_view(ids@), rows@.len() as int),
{
    let mut out: Vec<String> = Vec::new();
    let mut i: usize = 0;
    while i < rows.len()
        invariant
            i <= rows@.len(),
            crate::contract::strings_view(out@) == domains_of(rows@, crate::contract::strings_view(ids@), i as int),
        decreases rows.len() - i,
    {
        if contains_string(ids, rows[i].id.as_str()) {
            let ghost o0 = out@;
            out.push(crate::contract::copy_string(&rows[i].domain));
            assert(crate::contract::strings_view(out@) =~= crate::contract::strings_view(o0).push(rows@[i as int].domain@));
        }
        i = i + 1;
    }
    out
}

/// Plan today's session from the concept rows, the new-concepts-per-session
/// setting and the daily goal.
pub fn plan_session(rows: &[SessionRow], new_per_session: i64, daily_goal_minutes: i64) -> (s: DailySession)
    requires
        daily_goal_minutes >= i64::MIN + 15,
    ensures
        crate::contract::strings_view(s.concepts_new@) == session_new(rows@, new_per_session, daily_goal_minutes),
        crate::contract::strings_view(s.concepts_review@) == picked_reviews(rows@, new_per_session, daily_goal_minutes),
        s.interleaved_set@ == interleaved(s.concepts_new@, s.concepts_review@),
        s.estimated_minutes == s.interleaved_set@.len() * MINUTES_PER_CONCEPT,
        s.interleaved_set@.len() <= cap_for_goal(daily_goal_minutes as int),
        s.concepts_new@.len() <= budget_for(new_per_session as int, daily_goal_minutes as int),
        forall|a: int| 0 <= a < s.concepts_new@.len() ==> offerable_as_new(rows@, #[trigger] s.concepts_new@[a]@),
        forall|a: int| 0 <= a < s.concepts_review@.len() ==> reviewable(rows@, #[trigger] s.concepts_review@[a]@),
        distinct_ids(rows@) ==> forall|i: int, j: int|
            0 <= i < rows@.len() && 0 <= j < rows@.len() && is_review_candidate(#[trigger] rows@[i])
                && is_review_candidate(#[trigger] rows@[j]) && in_new_domain(
                rows@,
                crate::contract::strings_view(s.concepts_new@),
                rows@[i].domain@,
            ) && !in_new_domain(rows@, crate::contract::strings_view(s.concepts_new@), rows@[j].domain@)
                && crate::contract::strings_view(s.concepts_review@).contains(rows@[j].id@)
                ==> crate::contract::strings_view(s.concepts_review@).contains(rows@[i].id@),
{
    let front = frontier_of(rows);
    let frontier: Option<&str> = match front {
        Some(b) => Some(rows[b].domain.as_str()),
        None => None,
    };
    let ghost fv = frontier_prefix(rows@, rows@.len() as int);
    let total_cap = session_cap(daily_goal_minutes);
    let nb = new_concept_budget(new_per_session, daily_goal_minutes);
    let budget = if nb <= total_cap { nb } else { total_cap };
    let no_domains: Vec<String> = Vec::new();
    let (nc, nk) = gather(rows, 0, frontier, &no_domains);
    assert(nk@.len() == nc@.len()) by {
        assert(keys_view(nk@).len() == nk@.len());
    }
    let nt = select_smallest(&nk, budget);
    assert forall|a: int| 0 <= a < nt@.len() implies #[trigger] nt@[a] < nc@.len() by {
        assert(usizes(nt@)[a] == nt@[a] as int);
    }
    let concepts_new = ids_at(rows, &nc, &nt);
    proof {
        assert(crate::contract::strings_view(concepts_new@).len() == concepts_new@.len());
        lemma_candidates_sound(rows@, 0, rows@.len() as int);
        assert forall|a: int| 0 <= a < concepts_new@.len() implies offerable_as_new(rows@, #[trigger] concepts_new@[a]@) by {
            assert(crate::contract::strings_view(concepts_new@)[a] == concepts_new@[a]@);
            assert(usizes(nt@)[a] == nt@[a] as int);
            let j = nt@[a] as int;
            assert(usizes(nc@)[j] == nc@[j] as int);
            let i = candidates(rows@, 0, rows@.len() as int)[j];
            assert(rows@[i].id@ == concepts_new@[a]@);
        }
    }
    assert(usizes(nt@).len() <= budget);
    assert(crate::contract::strings_view(concepts_new@).len() == concepts_new@.len());
    assert(crate::contract::strings_view(concepts_new@) == picked_new(rows@, new_per_session, daily_goal_minutes));
    let new_domains = domains_for(rows, &concepts_new);
    let (rc, rk) = gather(rows, 1, frontier, &new_domains);
    let room = if concepts_new.len() <= total_cap { total_cap - concepts_new.len() } else { 0 };
    assert(rk@.len() == rc@.len()) by {
        assert(keys_view(rk@).len() == rk@.len());
    }
    let rt = select_smallest(&rk, room);
    assert forall|a: int| 0 <= a < rt@.len() implies #[trigger] rt@[a] < rc@.len() by {
        assert(usizes(rt@)[a] == rt@[a] as int);
    }
    let concepts_review = ids_at(rows, &rc, &rt);
    proof {
        assert(crate::contract::strings_view(concepts_review@).len() == concepts_review@.len());
        lemma_candidates_sound(rows@, 1, rows@.len() as int);
        assert forall|a: int| 0 <= a < concepts_review@.len() implies reviewable(rows@, #[trigger] concepts_review@[a]@) by {
            assert(crate::contract::strings_view(concepts_review@)[a] == concepts_review@[a]@);
            assert(usizes(rt@)[a] == rt@[a] as int);
            let j = rt@[a] as int;
            assert(usizes(rc@)[j] == rc@[j] as int);
            let i = candidates(rows@, 1, rows@.len() as int)[j];
            assert(rows@[i].id@ == concepts_review@[a]@);
        }
    }
    proof {
        if distinct_ids(rows@) {
            lemma_related_reviews_first(rows@, crate::contract::strings_view(concepts_new@), room as int, usizes(rt@));
        }
    }
    assert(distinct_ids(rows@) ==> forall|i: int, j: int|
            0 <= i < rows@.len() && 0 <= j < rows@.len() && is_review_candidate(#[trigger] rows@[i])
                && is_review_candidate(#[trigger] rows@[j]) && in_new_domain(
                rows@,
                crate::contract::strings_view(concepts_new@),
                rows@[i].domain@,
            ) && !in_new_domain(rows@, crate::contract::strings_view(concepts_new@), rows@[j].domain@)
                && crate::contract::strings_view(concepts_review@).contains(rows@[j].id@)
                ==> crate::contract::strings_view(concepts_review@).contains(rows@[i].id@));
    assert(usizes(rt@).len() <= room);
    assert(crate::contract::strings_view(concepts_review@).len() == concepts_review@.len());
    assert(crate::contract::strings_view(concepts_review@) == picked_reviews(rows@, new_per_session, daily_goal_minutes));
    let concepts_new = if concepts_new.len() == 0 && concepts_review.len() == 0 {
        let (fc, fk) = gather(rows, 2, frontier, &no_domains);
        assert(fk@.len() == fc@.len()) by {
            assert(keys_view(fk@).len() == fk@.len());
        }
        let ft = select_smallest(&fk, 1);
        assert forall|a: int| 0 <= a < ft@.len() implies #[trigger] ft@[a] < fc@.len() by {
            assert(usizes(ft@)[a] == ft@[a] as int);
        }
        let f = ids_at(rows, &fc, &ft);
        proof {
            assert(crate::contract::strings_view(f@).len() == f@.len());
            lemma_candidates_sound(rows@, 2, rows@.len() as int);
            assert forall|a: int| 0 <= a < f@.len() implies offerable_as_new(rows@, #[trigger] f@[a]@) by {
                assert(crate::contract::strings_view(f@)[a] == f@[a]@);
                assert(usizes(ft@)[a] == ft@[a] as int);
                let j = ft@[a] as int;
                assert(usizes(fc@)[j] == fc@[j] as int);
                let i = candidates(rows@, 2, rows@.len() as int)[j];
                assert(rows@[i].id@ == f@[a]@);
            }
        }
        assert(usizes(ft@).len() <= 1);
        assert(crate::contract::strings_view(f@).len() == f@.len());
        f
    } else {
        concepts_new
    };
    let interleaved_set = interleave(concepts_new.as_slice(), concepts_review.as_slice());
    let n = interleaved_set.len();
    assert(n <= 25) by {
        assert(concepts_review@.len() <= 12);
    }
    let estimated_minutes = (n as i64) * MINUTES_PER_CONCEPT;
    DailySession { concepts_new, concepts_review, interleaved_set, estimated_minutes }
}

} // verus!
