//! Placement: the five sampled concepts, the starting concept chosen from the
//! correct-count (fewer than 2 correct: foundational algebra; 2 or 3:
//! intermediate algebra; 4 or more: precalculus), the placement question ids,
//! and the transitive prerequisites that seeding the target unlocks.

use vstd::prelude::*;

use crate::contract::{copy_string, strings_view, PlacementResult, Question};
use crate::quiz_schema::{canonical_id, canonical_id_string, with_id};
use crate::text::{owned, str_eq};

verus! {

/// Foundational (intro) algebra.
pub const FOUNDATIONAL_ALGEBRA: &'static str = "alg_001";
/// Intermediate algebra.
pub const INTERMEDIATE_ALGEBRA: &'static str = "alg_017";
/// The start of precalculus.
pub const PRECALCULUS_START: &'static str = "prec_001";

/// The concept a placement score leads to.
pub open spec fn target_for(correct: nat) -> Seq<char> {
    if correct < 2 {
        "alg_001"@
    } else if correct < 4 {
        "alg_017"@
    } else {
        "prec_001"@
    }
}

/// Decide the placement target from the correct-count.
pub fn decide_target(correct: usize) -> (r: &'static str)
    ensures
        r@ == target_for(correct as nat),
{
    if correct < 2 {
        FOUNDATIONAL_ALGEBRA
    } else if correct < 4 {
        INTERMEDIATE_ALGEBRA
    } else {
        PRECALCULUS_START
    }
}

/// More correct answers never place a learner lower: the foundational start
/// is only ever reached with fewer correct answers, and precalculus once
/// reached stays reached.
pub proof fn lemma_placement_monotone(fewer: nat, more: nat)
    requires
        fewer <= more,
    ensures
        target_for(more) == "alg_001"@ ==> target_for(fewer) == "alg_001"@,
        target_for(fewer) == "prec_001"@ ==> target_for(more) == "prec_001"@,
{
    reveal_strlit("alg_001");
    reveal_strlit("alg_017");
    reveal_strlit("prec_001");
}

/// How many days out a seeded prerequisite's next review is pushed.
pub const SEED_REVIEW_DAYS: i64 = 60;

/// One canonical placement question, with the domain its concept is in.
#[derive(Debug, Clone, PartialEq)]
pub struct PlacementItem {
    pub domain: String,
    pub question: Question,
}

/// The placement question of slot `slot`: the first question generated for
/// that slot's concept, re-identified `q{slot + 1}` so the grader and the
/// frontend agree.
pub fn placement_item(domain: String, generated: Vec<Question>, slot: usize) -> (r: Result<
    PlacementItem,
    String,
>)
    requires
        slot < usize::MAX,
    ensures
        match r {
            Ok(it) => generated@.len() > 0 && it.domain@ == domain@ && it.question@ == with_id(
                generated@[0]@,
                canonical_id(slot as int),
            ),
            Err(e) => generated@.len() == 0 && e@
                == "placement question generation returned no questions"@,
        },
{
    let mut g = generated;
    if g.len() == 0 {
        return Err(owned("placement question generation returned no questions"));
    }
    let mut q = g.remove(0);
    q.id = canonical_id_string(slot);
    Ok(PlacementItem { domain, question: q })
}

/// The five concepts the placement quiz samples, in question order.
pub fn placement_concepts() -> (r: Vec<&'static str>)
    ensures
        r@.len() == 5,
        r@[0]@ == "alg_001"@,
        r@[1]@ == "alg_013"@,
        r@[2]@ == "alg_024"@,
        r@[3]@ == "prec_001"@,
        r@[4]@ == "trig_007"@,
{
    vec!["alg_001", "alg_013", "alg_024", "prec_001", "trig_007"]
}

/// How many of the graded placement answers are correct.
pub fn count_correct(graded: &[bool]) -> (n: usize)
    ensures
        n == crate::record::count_correct(graded@),
        n <= graded@.len(),
{
    let mut n: usize = 0;
    let mut i: usize = 0;
    while i < graded.len()
        invariant
            i <= graded@.len(),
            n == crate::record::count_correct(graded@.take(i as int)),
            n <= i,
        decreases graded.len() - i,
    {
        assert(graded@.take(i + 1).drop_last() =~= graded@.take(i as int));
        if graded[i] {
            n = n + 1;
        }
        i = i + 1;
    }
    assert(graded@.take(graded@.len() as int) =~= graded@);
    n
}

/// The placement outcome: the target, where it sits, and the score over the
/// canonical question count.
pub fn placement_outcome(target: &str, domain: &str, title: &str, correct: usize, total: usize) -> (r: PlacementResult)
    requires
        correct <= total,
        total <= i64::MAX,
    ensures
        r.concept_id@ == target@,
        r.domain@ == domain@,
        r.title@ == title@,
        r.correct_count == correct,
        r.total == total,
{
    PlacementResult {
        concept_id: owned(target),
        domain: owned(domain),
        title: owned(title),
        correct_count: correct as i64,
        total: total as i64,
    }
}

// ---- Transitive prerequisites ----

/// The prerequisite graph as (concept id, prerequisite ids) entries.
pub open spec fn graph_view(g: Seq<(String, Vec<String>)>) -> Seq<(Seq<char>, Seq<Seq<char>>)> {
    Seq::new(g.len(), |i: int| (g[i].0@, strings_view(g[i].1@)))
}

/// The prerequisites of `id`: those of its first entry, none when it has none.
pub open spec fn prereqs_in(g: Seq<(Seq<char>, Seq<Seq<char>>)>, id: Seq<char>, i: int) -> Seq<Seq<char>>
    decreases g.len() - i,
{
    if i < 0 || i >= g.len() {
        Seq::empty()
    } else if g[i].0 == id {
        g[i].1
    } else {
        prereqs_in(g, id, i + 1)
    }
}

pub open spec fn prereqs_of(g: Seq<(Seq<char>, Seq<Seq<char>>)>, id: Seq<char>) -> Seq<Seq<char>> {
    prereqs_in(g, id, 0)
}

/// `path` walks prerequisite edges: each step names a prerequisite of the one
/// before.
pub open spec fn is_path(g: Seq<(Seq<char>, Seq<Seq<char>>)>, path: Seq<Seq<char>>) -> bool {
    forall|i: int| #![trigger path[i]] 0 <= i < path.len() - 1 ==> prereqs_of(g, path[i]).contains(path[i + 1])
}

/// `to` is a (direct or indirect) prerequisite of `from`.
pub open spec fn reachable(g: Seq<(Seq<char>, Seq<Seq<char>>)>, from: Seq<char>, to: Seq<char>) -> bool {
    exists|path: Seq<Seq<char>>|
        path.len() >= 2 && path[0] == from && path.last() == to && #[trigger] is_path(g, path)
}

/// Every prerequisite name mentioned anywhere in the graph.
pub open spec fn all_names(g: Seq<(Seq<char>, Seq<Seq<char>>)>) -> Set<Seq<char>> {
    Set::new(|x: Seq<char>| exists|i: int, j: int| 0 <= i < g.len() && 0 <= j < g[i].1.len() && #[trigger] g[i].1[j] == x)
}

proof fn lemma_prereqs_named(g: Seq<(Seq<char>, Seq<Seq<char>>)>, id: Seq<char>, i: int, x: Seq<char>)
    requires
        0 <= i,
        prereqs_in(g, id, i).contains(x),
    ensures
        all_names(g).contains(x),
    decreases g.len() - i,
{
    if i < g.len() && g[i].0 != id {
        lemma_prereqs_named(g, id, i + 1, x);
    } else if i < g.len() {
        let j = choose|j: int| 0 <= j < g[i].1.len() && g[i].1[j] == x;
        assert(g[i].1[j] == x);
    }
}

proof fn lemma_all_names_finite(g: Seq<(Seq<char>, Seq<Seq<char>>)>)
    ensures
        all_names(g).finite(),
    decreases g.len(),
{
    if g.len() == 0 {
        assert(all_names(g) =~= Set::<Seq<char>>::empty());
    } else {
        let h = g.drop_last();
        lemma_all_names_finite(h);
        let last = g.last().1.to_set();
        vstd::seq_lib::seq_to_set_is_finite(g.last().1);
        assert(all_names(g) =~= all_names(h).union(last)) by {
            assert forall|x: Seq<char>| all_names(g).contains(x) <==> all_names(h).union(last).contains(x) by {
                if all_names(g).contains(x) {
                    let (i, j) = choose|i: int, j: int| 0 <= i < g.len() && 0 <= j < g[i].1.len() && #[trigger] g[i].1[j] == x;
                    if i < h.len() {
                        assert(h[i].1[j] == x);
                    } else {
                        assert(g.last().1[j] == x);
                    }
                }
                if all_names(h).contains(x) {
                    let (i, j) = choose|i: int, j: int| 0 <= i < h.len() && 0 <= j < h[i].1.len() && #[trigger] h[i].1[j] == x;
                    assert(g[i].1[j] == x);
                }
                if last.contains(x) {
                    let j = choose|j: int| 0 <= j < g.last().1.len() && g.last().1[j] == x;
                    assert(g[g.len() - 1].1[j] == x);
                }
            }
        }
    }
}

fn prereqs_lookup<'a>(graph: &'a [(String, Vec<String>)], id: &str) -> (r: Option<&'a Vec<String>>)
    ensures
        match r {
            Some(v) => strings_view(v@) == prereqs_of(graph_view(graph@), id@),
            None => prereqs_of(graph_view(graph@), id@) == Seq::<Seq<char>>::empty(),
        },
{
    let ghost g = graph_view(graph@);
    let mut i: usize = 0;
    while i < graph.len()
        invariant
            g == graph_view(graph@),
            i <= graph@.len(),
            prereqs_of(g, id@) == prereqs_in(g, id@, i as int),
        decreases graph.len() - i,
    {
        if str_eq(graph[i].0.as_str(), id) {
            return Some(&graph[i].1);
        }
        i = i + 1;
    }
    None
}

/// Append to `out` every prerequisite of `cur` not already in it, in order.
fn add_prereqs(graph: &[(String, Vec<String>)], cur: &str, out: &mut Vec<String>, Ghost(id): Ghost<Seq<char>>)
    requires
        all_names(graph_view(graph@)).finite(),
        cur@ == id || reachable(graph_view(graph@), id, cur@),
        strings_view(old(out)@).no_duplicates(),
        strings_view(old(out)@).to_set().subset_of(all_names(graph_view(graph@))),
        forall|x: Seq<char>| #[trigger] strings_view(old(out)@).contains(x) ==> reachable(graph_view(graph@), id, x),
    ensures
        old(out)@.len() <= final(out)@.len() <= all_names(graph_view(graph@)).len(),
        forall|k: int| 0 <= k < old(out)@.len() ==> #[trigger] strings_view(final(out)@)[k] == strings_view(old(out)@)[k],
        strings_view(final(out)@).no_duplicates(),
        strings_view(final(out)@).to_set().subset_of(all_names(graph_view(graph@))),
        forall|x: Seq<char>| #[trigger] strings_view(final(out)@).contains(x) ==> reachable(graph_view(graph@), id, x),
        forall|x: Seq<char>| prereqs_of(graph_view(graph@), cur@).contains(x) ==> #[trigger] strings_view(final(out)@).contains(x),
{
    let ghost g = graph_view(graph@);
    let ghost start = strings_view(out@);
    proof {
        lemma_len_bound(start, all_names(g));
    }
    match prereqs_lookup(graph, cur) {
        Some(ps) => {
            let mut j: usize = 0;
            while j < ps.len()
                invariant
                    g == graph_view(graph@),
                    all_names(g).finite(),
                    cur@ == id || reachable(g, id, cur@),
                    strings_view(ps@) == prereqs_of(g, cur@),
                    j <= ps@.len(),
                    start.len() <= out@.len() <= all_names(g).len(),
                    forall|k: int| 0 <= k < start.len() ==> #[trigger] strings_view(out@)[k] == start[k],
                    strings_view(out@).no_duplicates(),
                    strings_view(out@).to_set().subset_of(all_names(g)),
                    forall|x: Seq<char>| #[trigger] strings_view(out@).contains(x) ==> reachable(g, id, x),
                    forall|q: int| 0 <= q < j ==> strings_view(out@).contains(#[trigger] strings_view(ps@)[q]),
                decreases ps.len() - j,
            {
                let p = ps[j].as_str();
                proof {
                    assert(strings_view(ps@)[j as int] == p@);
                }
                let present = crate::planner::contains_string(out, p);
                if !present {
                    let ghost before = out@;
                    proof {
                        assert(prereqs_of(g, cur@).contains(p@)) by {
                            assert(strings_view(ps@)[j as int] == p@);
                        }
                        lemma_reach_step(g, id, cur@, p@, cur@ == id);
                        lemma_prereqs_named(g, cur@, 0, p@);
                    }
                    out.push(owned(p));
                    proof {
                        let sv = strings_view(out@);
                        let sb = strings_view(before);
                        assert(sv =~= sb.push(p@));
                        assert(sv.no_duplicates()) by {
                            assert forall|a: int, b: int| 0 <= a < sv.len() && 0 <= b < sv.len() && a != b implies sv[a] != sv[b] by {
                                if a == sv.len() - 1 {
                                    assert(!sb.contains(p@));
                                    assert(sb[b] == sv[b]);
                                } else if b == sv.len() - 1 {
                                    assert(!sb.contains(p@));
                                    assert(sb[a] == sv[a]);
                                } else {
                                    assert(sb[a] == sv[a] && sb[b] == sv[b]);
                                }
                            }
                        }
                        assert forall|x: Seq<char>| #[trigger] sv.contains(x) implies reachable(g, id, x) by {
                            if x != p@ {
                                let a = choose|a: int| 0 <= a < sv.len() && sv[a] == x;
                                assert(sb[a] == x);
                                assert(sb.contains(x));
                            }
                        }
                        assert forall|x: Seq<char>| sb.contains(x) implies #[trigger] sv.contains(x) by {
                            let a = choose|a: int| 0 <= a < sb.len() && sb[a] == x;
                            assert(sv[a] == x);
                        }
                        assert(sv.to_set().subset_of(all_names(g))) by {
                            assert forall|x: Seq<char>| sv.to_set().contains(x) implies all_names(g).contains(x) by {
                                if x != p@ {
                                    let a = choose|a: int| 0 <= a < sv.len() && sv[a] == x;
                                    assert(sb[a] == x);
                                    assert(sb.to_set().contains(x));
                                }
                            }
                        }
                        assert(sv[sv.len() - 1] == p@);
                        assert(sv.contains(p@));
                        lemma_len_bound(sv, all_names(g));
                    }
                }
                j = j + 1;
            }
            proof {
                assert forall|x: Seq<char>| prereqs_of(g, cur@).contains(x) implies #[trigger] strings_view(out@).contains(x) by {
                    let q = choose|q: int| 0 <= q < prereqs_of(g, cur@).len() && prereqs_of(g, cur@)[q] == x;
                    assert(strings_view(ps@)[q] == x);
                }
            }
        },
        None => {},
    }
}

/// Every transitive prerequisite of `id` in the graph, each once, in
/// breadth-first order.
pub fn transitive_prerequisites(graph: &[(String, Vec<String>)], id: &str) -> (r: Vec<String>)
    ensures
        strings_view(r@).no_duplicates(),
        forall|x: Seq<char>| strings_view(r@).contains(x) <==> reachable(graph_view(graph@), id@, x),
{
    let ghost g = graph_view(graph@);
    let mut out: Vec<String> = Vec::new();
    proof {
        lemma_all_names_finite(g);
        assert(strings_view(out@) =~= Seq::<Seq<char>>::empty());
        assert(strings_view(out@).to_set() =~= Set::<Seq<char>>::empty());
    }
    add_prereqs(graph, id, &mut out, Ghost(id@));
    // `head` counts the processed entries of `out` (breadth-first queue order).
    let mut head: usize = 0;
    while head < out.len()
        invariant
            g == graph_view(graph@),
            all_names(g).finite(),
            head <= out@.len() <= all_names(g).len(),
            strings_view(out@).no_duplicates(),
            strings_view(out@).to_set().subset_of(all_names(g)),
            forall|x: Seq<char>| #[trigger] strings_view(out@).contains(x) ==> reachable(g, id@, x),
            forall|x: Seq<char>| prereqs_of(g, id@).contains(x) ==> #[trigger] strings_view(out@).contains(x),
            forall|k: int, x: Seq<char>|
                0 <= k < head && #[trigger] prereqs_of(g, strings_view(out@)[k]).contains(x) ==> strings_view(out@).contains(x),
        decreases all_names(g).len() - head,
    {
        let cur = copy_string(&out[head]);
        let ghost before = out@;
        proof {
            assert(cur@ == strings_view(out@)[head as int]);
            assert(strings_view(out@).contains(cur@));
        }
        add_prereqs(graph, cur.as_str(), &mut out, Ghost(id@));
        proof {
            let sv = strings_view(out@);
            let sb = strings_view(before);
            assert forall|x: Seq<char>| sb.contains(x) implies #[trigger] sv.contains(x) by {
                let a = choose|a: int| 0 <= a < sb.len() && sb[a] == x;
                assert(sv[a] == sb[a]);
            }
            assert forall|k: int, x: Seq<char>|
                0 <= k < head + 1 && #[trigger] prereqs_of(g, sv[k]).contains(x) implies sv.contains(x) by {
                assert(sv[k] == sb[k]);
                if k < head {
                    assert(prereqs_of(g, sb[k]).contains(x));
                    assert(sb.contains(x));
                }
            }
            assert forall|x: Seq<char>| prereqs_of(g, id@).contains(x) implies #[trigger] sv.contains(x) by {
                assert(sb.contains(x));
            }
        }
        head = head + 1;
    }
    proof {
        let sv = strings_view(out@);
        assert forall|x: Seq<char>| reachable(g, id@, x) implies sv.contains(x) by {
            let path = choose|path: Seq<Seq<char>>| path.len() >= 2 && path[0] == id@ && path.last() == x && #[trigger] is_path(g, path);
            lemma_path_closed(g, id@, sv, path, path.len() - 1);
        }
    }
    out
}

proof fn lemma_len_bound(s: Seq<Seq<char>>, names: Set<Seq<char>>)
    requires
        s.no_duplicates(),
        s.to_set().subset_of(names),
        names.finite(),
    ensures
        s.len() <= names.len(),
{
    s.unique_seq_to_set();
    vstd::set_lib::lemma_len_subset(s.to_set(), names);
}

/// One more prerequisite edge from a reachable node (or from `id`) reaches.
proof fn lemma_reach_step(g: Seq<(Seq<char>, Seq<Seq<char>>)>, id: Seq<char>, cur: Seq<char>, p: Seq<char>, from_root: bool)
    requires
        from_root ==> cur == id,
        !from_root ==> reachable(g, id, cur),
        prereqs_of(g, cur).contains(p),
    ensures
        reachable(g, id, p),
{
    if from_root {
        let path = seq![id, p];
        assert(is_path(g, path)) by {
            assert forall|i: int| #![trigger path[i]] 0 <= i < path.len() - 1 implies prereqs_of(g, path[i]).contains(path[i + 1]) by {
                assert(i == 0);
            }
        }
        assert(path.last() == p);
    } else {
        let path0 = choose|path: Seq<Seq<char>>| path.len() >= 2 && path[0] == id && path.last() == cur && #[trigger] is_path(g, path);
        let path = path0.push(p);
        assert(is_path(g, path)) by {
            assert forall|i: int| #![trigger path[i]] 0 <= i < path.len() - 1 implies prereqs_of(g, path[i]).contains(path[i + 1]) by {
                if i < path0.len() - 1 {
                    assert(path[i] == path0[i] && path[i + 1] == path0[i + 1]);
                    assert(prereqs_of(g, path0[i]).contains(path0[i + 1]));
                } else {
                    assert(path[i] == cur);
                }
            }
        }
    }
}

/// Along a path from `id`, every node after the first is in a set that holds
/// the prerequisites of `id` and is closed under taking prerequisites.
proof fn lemma_path_closed(g: Seq<(Seq<char>, Seq<Seq<char>>)>, id: Seq<char>, sv: Seq<Seq<char>>, path: Seq<Seq<char>>, n: int)
    requires
        path.len() >= 2,
        path[0] == id,
        is_path(g, path),
        1 <= n < path.len(),
        forall|x: Seq<char>| prereqs_of(g, id).contains(x) ==> #[trigger] sv.contains(x),
        forall|k: int, x: Seq<char>|
            0 <= k < sv.len() && #[trigger] prereqs_of(g, sv[k]).contains(x) ==> sv.contains(x),
    ensures
        sv.contains(path[n]),
    decreases n,
{
    assert(prereqs_of(g, path[n - 1]).contains(path[n]));
    if n > 1 {
        lemma_path_closed(g, id, sv, path, n - 1);
        let k = choose|k: int| 0 <= k < sv.len() && sv[k] == path[n - 1];
        assert(prereqs_of(g, sv[k]).contains(path[n]));
    }
}

} // verus!
