//! The curriculum graph: the shape of the bundled domain files, their
//! flattening into one concept list, and the validation of that list.
//!
//! Validation hard-fails on a concept id not matching `^[a-z]{2,4}_[0-9]{3}$`,
//! a duplicate id, a concept without learning objectives or error patterns, a
//! difficulty tier outside 1..=5, a prerequisite that resolves to no concept
//! (cross-domain included), or a cycle. The graph is data only.

use vstd::prelude::*;

use crate::contract::{copy_string, strings_view};
use crate::text::{
    chars_of, debug_quoted, debug_str, decimal, digits_nat, push_digits, push_i64, push_str, str_eq,
    string_of,
};
use crate::validate::{concept_id_ok, is_valid_concept_id};

verus! {

/// Bumped when the bundled curriculum content changes so the loader re-imports.
pub const CURRICULUM_VERSION: i64 = 2;

/// One bundled domain file.
#[derive(Debug, Clone)]
pub struct DomainFile {
    pub domain: String,
    pub display_name: String,
    pub phase: i64,
    pub modules: Vec<Module>,
}

/// One module of a domain file.
#[derive(Debug, Clone)]
pub struct Module {
    pub id: String,
    pub title: String,
    pub concepts: Vec<RawConcept>,
}

/// A concept as authored in a domain file.
#[derive(Debug, Clone)]
pub struct RawConcept {
    pub id: String,
    pub title: String,
    pub prerequisites: Vec<String>,
    pub learning_objectives: Vec<String>,
    pub error_patterns: Vec<String>,
    pub difficulty_tier: i64,
}

/// A resolved concept ready to persist (it carries its domain and module id).
#[derive(Debug, Clone)]
pub struct LoadedConcept {
    pub id: String,
    pub domain: String,
    pub module: String,
    pub title: String,
    pub prerequisites: Vec<String>,
    pub learning_objectives: Vec<String>,
    pub error_patterns: Vec<String>,
    pub difficulty_tier: i64,
}

/// The abstract value of a loaded concept.
pub struct ConceptView {
    pub id: Seq<char>,
    pub domain: Seq<char>,
    pub module: Seq<char>,
    pub title: Seq<char>,
    pub prerequisites: Seq<Seq<char>>,
    pub learning_objectives: Seq<Seq<char>>,
    pub error_patterns: Seq<Seq<char>>,
    pub difficulty_tier: i64,
}

impl View for LoadedConcept {
    type V = ConceptView;

    open spec fn view(&self) -> ConceptView {
        ConceptView {
            id: self.id@,
            domain: self.domain@,
            module: self.module@,
            title: self.title@,
            prerequisites: strings_view(self.prerequisites@),
            learning_objectives: strings_view(self.learning_objectives@),
            error_patterns: strings_view(self.error_patterns@),
            difficulty_tier: self.difficulty_tier,
        }
    }
}

pub open spec fn concepts_view(cs: Seq<LoadedConcept>) -> Seq<ConceptView> {
    Seq::new(cs.len(), |i: int| cs[i]@)
}

/// The ids of a concept list, in order.
pub open spec fn ids_of(cs: Seq<ConceptView>) -> Seq<Seq<char>> {
    Seq::new(cs.len(), |i: int| cs[i].id)
}

// ---- Flattening the domain files ----

/// A copy of a list of strings.
pub fn copy_strings(v: &Vec<String>) -> (r: Vec<String>)
    ensures
        strings_view(r@) == strings_view(v@),
{
    let mut out: Vec<String> = Vec::new();
    let mut i: usize = 0;
    while i < v.len()
        invariant
            i <= v@.len(),
            strings_view(out@) == strings_view(v@).take(i as int),
        decreases v.len() - i,
    {
        let ghost before = out@;
        out.push(copy_string(&v[i]));
        assert(strings_view(out@) =~= strings_view(before).push(v@[i as int]@));
        assert(strings_view(v@).take(i + 1) =~= strings_view(v@).take(i as int).push(v@[i as int]@));
        i = i + 1;
    }
    assert(strings_view(v@).take(v@.len() as int) =~= strings_view(v@));
    out
}

/// The concepts of one module, tagged with the domain and module id.
pub open spec fn module_concepts(domain: Seq<char>, m: Module) -> Seq<ConceptView> {
    Seq::new(
        m.concepts@.len(),
        |j: int|
            ConceptView {
                id: m.concepts@[j].id@,
                domain,
                module: m.id@,
                title: m.concepts@[j].title@,
                prerequisites: strings_view(m.concepts@[j].prerequisites@),
                learning_objectives: strings_view(m.concepts@[j].learning_objectives@),
                error_patterns: strings_view(m.concepts@[j].error_patterns@),
                difficulty_tier: m.concepts@[j].difficulty_tier,
            },
    )
}

/// The concepts of the first `n` modules of a domain, in order.
pub open spec fn flattened_prefix(d: DomainFile, n: int) -> Seq<ConceptView>
    decreases n,
{
    if n <= 0 {
        Seq::empty()
    } else {
        flattened_prefix(d, n - 1) + module_concepts(d.domain@, d.modules@[n - 1])
    }
}

/// A domain's concepts, module by module.
pub open spec fn flattened(d: DomainFile) -> Seq<ConceptView> {
    flattened_prefix(d, d.modules@.len() as int)
}

/// Flatten one parsed domain file into concepts, appending them to `out`.
pub fn flatten_domain(d: &DomainFile, out: &mut Vec<LoadedConcept>)
    ensures
        concepts_view(final(out)@) == concepts_view(old(out)@) + flattened(*d),
{
    let ghost start = concepts_view(out@);
    let mut m: usize = 0;
    assert(start + flattened_prefix(*d, 0) =~= start);
    while m < d.modules.len()
        invariant
            m <= d.modules@.len(),
            concepts_view(out@) == start + flattened_prefix(*d, m as int),
        decreases d.modules.len() - m,
    {
        let module = &d.modules[m];
        let ghost mid = concepts_view(out@);
        let mut k: usize = 0;
        assert(mid + module_concepts(d.domain@, *module).take(0) =~= mid);
        while k < module.concepts.len()
            invariant
                k <= module.concepts@.len(),
                concepts_view(out@) == mid + module_concepts(d.domain@, *module).take(k as int),
            decreases module.concepts.len() - k,
        {
            let c = &module.concepts[k];
            let ghost before = out@;
            out.push(
                LoadedConcept {
                    id: copy_string(&c.id),
                    domain: copy_string(&d.domain),
                    module: copy_string(&module.id),
                    title: copy_string(&c.title),
                    prerequisites: copy_strings(&c.prerequisites),
                    learning_objectives: copy_strings(&c.learning_objectives),
                    error_patterns: copy_strings(&c.error_patterns),
                    difficulty_tier: c.difficulty_tier,
                },
            );
            assert(concepts_view(out@) =~= concepts_view(before).push(out@[out@.len() - 1]@));
            assert(module_concepts(d.domain@, *module).take(k + 1) =~= module_concepts(
                d.domain@,
                *module,
            ).take(k as int).push(out@[out@.len() - 1]@));
            k = k + 1;
        }
        assert(module_concepts(d.domain@, *module).take(k as int) =~= module_concepts(
            d.domain@,
            *module,
        ));
        assert(start + flattened_prefix(*d, m + 1) =~= start + flattened_prefix(*d, m as int)
            + module_concepts(d.domain@, *module));
        m = m + 1;
    }
}

// ---- Validation: ids and per-concept fields ----

pub open spec fn bad_id_msg(id: Seq<char>) -> Seq<char> {
    "concept id "@ + debug_str(id) + " does not match ^[a-z]{2,4}_[0-9]{3}$"@
}

/// What is wrong with concept `i`, given that every concept before it passed.
pub open spec fn concept_problem(cs: Seq<ConceptView>, i: int) -> Option<Seq<char>> {
    let c = cs[i];
    if !concept_id_ok(c.id) {
        Some(bad_id_msg(c.id))
    } else if ids_of(cs).take(i).contains(c.id) {
        Some("duplicate concept id: "@ + c.id)
    } else if c.learning_objectives.len() == 0 {
        Some("concept "@ + c.id + " has no learning_objectives"@)
    } else if c.error_patterns.len() == 0 {
        Some("concept "@ + c.id + " has no error_patterns"@)
    } else if !(1 <= c.difficulty_tier <= 5) {
        Some("concept "@ + c.id + " difficulty_tier "@ + decimal(c.difficulty_tier as int) + " out of 1..=5"@)
    } else {
        None
    }
}

/// The first problem among the first `n` concepts.
pub open spec fn first_problem(cs: Seq<ConceptView>, n: int) -> Option<Seq<char>>
    decreases n,
{
    if n <= 0 {
        None
    } else {
        match first_problem(cs, n - 1) {
            Some(e) => Some(e),
            None => concept_problem(cs, n - 1),
        }
    }
}

proof fn lemma_first_problem_persists(cs: Seq<ConceptView>, k: int, n: int)
    requires
        0 <= k <= n,
        first_problem(cs, k) is Some,
    ensures
        first_problem(cs, n) == first_problem(cs, k),
    decreases n - k,
{
    if n > k {
        lemma_first_problem_persists(cs, k, n - 1);
    }
}

// ---- Validation: prerequisites resolve ----

pub open spec fn dangling_msg(id: Seq<char>, p: Seq<char>) -> Seq<char> {
    "concept "@ + id + " has dangling prerequisite "@ + debug_str(p)
}

/// The first of the first `m` prerequisites of concept `i` that names no concept.
pub open spec fn dangling_in(cs: Seq<ConceptView>, i: int, m: int) -> Option<Seq<char>>
    decreases m,
{
    if m <= 0 {
        None
    } else {
        match dangling_in(cs, i, m - 1) {
            Some(e) => Some(e),
            None => {
                let p = cs[i].prerequisites[m - 1];
                if ids_of(cs).contains(p) {
                    None
                } else {
                    Some(dangling_msg(cs[i].id, p))
                }
            },
        }
    }
}

/// The first dangling prerequisite among the first `n` concepts.
pub open spec fn first_dangling(cs: Seq<ConceptView>, n: int) -> Option<Seq<char>>
    decreases n,
{
    if n <= 0 {
        None
    } else {
        match first_dangling(cs, n - 1) {
            Some(e) => Some(e),
            None => dangling_in(cs, n - 1, cs[n - 1].prerequisites.len() as int),
        }
    }
}

proof fn lemma_dangling_in_persists(cs: Seq<ConceptView>, i: int, k: int, m: int)
    requires
        0 <= k <= m,
        dangling_in(cs, i, k) is Some,
    ensures
        dangling_in(cs, i, m) == dangling_in(cs, i, k),
    decreases m - k,
{
    if m > k {
        lemma_dangling_in_persists(cs, i, k, m - 1);
    }
}

proof fn lemma_first_dangling_persists(cs: Seq<ConceptView>, k: int, n: int)
    requires
        0 <= k <= n,
        first_dangling(cs, k) is Some,
    ensures
        first_dangling(cs, n) == first_dangling(cs, k),
    decreases n - k,
{
    if n > k {
        lemma_first_dangling_persists(cs, k, n - 1);
    }
}

// ---- Validation: no cycle ----

/// The first index at or after `i` holding `p` (`ids.len()` when none does).
pub open spec fn find_from(ids: Seq<Seq<char>>, p: Seq<char>, i: int) -> int
    decreases ids.len() - i,
{
    if i < 0 || i >= ids.len() {
        ids.len() as int
    } else if ids[i] == p {
        i
    } else {
        find_from(ids, p, i + 1)
    }
}

/// The concept that the `j`-th prerequisite of concept `i` names.
pub open spec fn prereq_index(cs: Seq<ConceptView>, i: int, j: int) -> int {
    find_from(ids_of(cs), cs[i].prerequisites[j], 0)
}

/// Concept `i` can be ordered once every prerequisite is marked ordered.
pub open spec fn ready(cs: Seq<ConceptView>, m: Seq<bool>, i: int) -> bool {
    forall|j: int| 0 <= j < cs[i].prerequisites.len() ==> #[trigger] prereq_marked(cs, m, i, j)
}

/// The `j`-th prerequisite of concept `i` names a concept that is marked.
pub open spec fn prereq_marked(cs: Seq<ConceptView>, m: Seq<bool>, i: int, j: int) -> bool {
    let q = prereq_index(cs, i, j);
    0 <= q < cs.len() && m[q]
}

/// The concepts orderable after `k` rounds: none at first, then in each round
/// every concept whose prerequisites were all orderable in the round before.
pub open spec fn marks(cs: Seq<ConceptView>, k: nat) -> Seq<bool>
    decreases k,
{
    if k == 0 {
        Seq::new(cs.len(), |i: int| false)
    } else {
        let prev = marks(cs, (k - 1) as nat);
        Seq::new(cs.len(), |i: int| ready(cs, prev, i))
    }
}

/// How many entries are true.
pub open spec fn count_true(s: Seq<bool>) -> nat
    decreases s.len(),
{
    if s.len() == 0 {
        0
    } else {
        count_true(s.drop_last()) + if s.last() {
            1nat
        } else {
            0nat
        }
    }
}

/// How many concepts a topological sort can order: those orderable after as
/// many rounds as there are concepts.
pub open spec fn orderable_count(cs: Seq<ConceptView>) -> nat {
    count_true(marks(cs, cs.len()))
}

pub open spec fn cycle_msg(visited: nat, total: nat) -> Seq<char> {
    "curriculum contains a cycle ("@ + decimal(visited as int) + " of "@ + decimal(total as int)
        + " concepts orderable)"@
}

/// The verdict of curriculum validation.
pub open spec fn validation_of(cs: Seq<ConceptView>) -> Result<(), Seq<char>> {
    match first_problem(cs, cs.len() as int) {
        Some(e) => Err(e),
        None => match first_dangling(cs, cs.len() as int) {
            Some(e) => Err(e),
            None => if orderable_count(cs) != cs.len() {
                Err(cycle_msg(orderable_count(cs), cs.len()))
            } else {
                Ok(())
            },
        },
    }
}

/// Does `id` equal one of the first `k` concept ids?
fn id_in_prefix(concepts: &[LoadedConcept], k: usize, id: &str) -> (b: bool)
    requires
        k <= concepts@.len(),
    ensures
        b == ids_of(concepts_view(concepts@)).take(k as int).contains(id@),
{
    let ghost ids = ids_of(concepts_view(concepts@));
    let mut j: usize = 0;
    while j < k
        invariant
            ids == ids_of(concepts_view(concepts@)),
            k <= concepts@.len(),
            j <= k,
            forall|q: int| 0 <= q < j ==> ids[q] != id@,
        decreases k - j,
    {
        if str_eq(concepts[j].id.as_str(), id) {
            assert(ids.take(k as int)[j as int] == id@);
            return true;
        }
        j = j + 1;
    }
    assert forall|q: int| 0 <= q < k implies ids.take(k as int)[q] != id@ by {
        assert(ids.take(k as int)[q] == ids[q]);
    }
    false
}

/// The index of the first concept with id `p` (`concepts.len()` when none).
fn find_index(concepts: &[LoadedConcept], p: &str) -> (r: usize)
    ensures
        r == find_from(ids_of(concepts_view(concepts@)), p@, 0),
{
    let ghost ids = ids_of(concepts_view(concepts@));
    let mut j: usize = 0;
    while j < concepts.len()
        invariant
            ids == ids_of(concepts_view(concepts@)),
            j <= concepts@.len(),
            find_from(ids, p@, 0) == find_from(ids, p@, j as int),
        decreases concepts.len() - j,
    {
        if str_eq(concepts[j].id.as_str(), p) {
            return j;
        }
        j = j + 1;
    }
    j
}

/// Each prerequisite resolved to the index of the concept it names.
fn prereq_indices(concepts: &[LoadedConcept]) -> (r: Vec<Vec<usize>>)
    ensures
        r@.len() == concepts@.len(),
        forall|i: int|
            0 <= i < concepts@.len() ==> (#[trigger] r@[i])@.len()
                == concepts_view(concepts@)[i].prerequisites.len(),
        forall|i: int, j: int|
            0 <= i < concepts@.len() && 0 <= j < r@[i]@.len() ==> #[trigger] r@[i]@[j]
                == prereq_index(concepts_view(concepts@), i, j),
{
    let ghost cs = concepts_view(concepts@);
    let mut out: Vec<Vec<usize>> = Vec::new();
    let mut i: usize = 0;
    while i < concepts.len()
        invariant
            cs == concepts_view(concepts@),
            i <= concepts@.len(),
            out@.len() == i,
            forall|a: int| 0 <= a < i ==> (#[trigger] out@[a])@.len() == cs[a].prerequisites.len(),
            forall|a: int, b: int|
                0 <= a < i && 0 <= b < out@[a]@.len() ==> #[trigger] out@[a]@[b]
                    == prereq_index(cs, a, b),
        decreases concepts.len() - i,
    {
        let c = &concepts[i];
        let mut row: Vec<usize> = Vec::new();
        let mut j: usize = 0;
        while j < c.prerequisites.len()
            invariant
                cs == concepts_view(concepts@),
                i < concepts@.len(),
                *c == concepts@[i as int],
                j <= c.prerequisites@.len(),
                row@.len() == j,
                forall|b: int| 0 <= b < j ==> #[trigger] row@[b] == prereq_index(cs, i as int, b),
            decreases c.prerequisites.len() - j,
        {
            assert(cs[i as int].prerequisites[j as int] == c.prerequisites@[j as int]@);
            row.push(find_index(concepts, c.prerequisites[j].as_str()));
            j = j + 1;
        }
        out.push(row);
        i = i + 1;
    }
    out
}

/// One round: mark every concept whose prerequisites are all marked.
fn next_marks(idx: &Vec<Vec<usize>>, m: &Vec<bool>, Ghost(cs): Ghost<Seq<ConceptView>>) -> (r: Vec<bool>)
    requires
        m@.len() == cs.len(),
        idx@.len() == cs.len(),
        forall|i: int| 0 <= i < cs.len() ==> (#[trigger] idx@[i])@.len() == cs[i].prerequisites.len(),
        forall|i: int, j: int|
            0 <= i < cs.len() && 0 <= j < idx@[i]@.len() ==> #[trigger] idx@[i]@[j]
                == prereq_index(cs, i, j),
    ensures
        r@ == Seq::new(cs.len(), |i: int| ready(cs, m@, i)),
{
    let mut out: Vec<bool> = Vec::new();
    let mut i: usize = 0;
    while i < m.len()
        invariant
            m@.len() == cs.len(),
            idx@.len() == cs.len(),
            forall|a: int| 0 <= a < cs.len() ==> (#[trigger] idx@[a])@.len() == cs[a].prerequisites.len(),
            forall|a: int, b: int|
                0 <= a < cs.len() && 0 <= b < idx@[a]@.len() ==> #[trigger] idx@[a]@[b]
                    == prereq_index(cs, a, b),
            i <= m@.len(),
            out@.len() == i,
            forall|a: int| 0 <= a < i ==> #[trigger] out@[a] == ready(cs, m@, a),
        decreases m.len() - i,
    {
        let row = &idx[i];
        let mut ok = true;
        let mut j: usize = 0;
        while j < row.len()
            invariant
                m@.len() == cs.len(),
                i < cs.len(),
                *row == idx@[i as int],
                row@.len() == cs[i as int].prerequisites.len(),
                forall|b: int| 0 <= b < row@.len() ==> #[trigger] row@[b] == prereq_index(cs, i as int, b),
                j <= row@.len(),
                ok == (forall|b: int| 0 <= b < j ==> #[trigger] prereq_marked(cs, m@, i as int, b)),
            decreases row.len() - j,
        {
            let q = row[j];
            if q >= m.len() || !m[q] {
                ok = false;
            }
            assert(prereq_marked(cs, m@, i as int, j as int) == (q < m@.len() && m@[q as int]));
            j = j + 1;
        }
        out.push(ok);
        i = i + 1;
    }
    assert(out@ =~= Seq::new(cs.len(), |i: int| ready(cs, m@, i)));
    out
}

/// How many marks are set.
fn count_marks(m: &Vec<bool>) -> (r: usize)
    ensures
        r == count_true(m@),
        r <= m@.len(),
{
    let mut c: usize = 0;
    let mut i: usize = 0;
    while i < m.len()
        invariant
            i <= m@.len(),
            c == count_true(m@.take(i as int)),
            c <= i,
        decreases m.len() - i,
    {
        assert(m@.take(i + 1).drop_last() =~= m@.take(i as int));
        if m[i] {
            c = c + 1;
        }
        i = i + 1;
    }
    assert(m@.take(m@.len() as int) =~= m@);
    c
}

/// Whether every concept can be ordered (no prerequisite cycle): the Err
/// reports how many could.
fn topo_sort_ok(concepts: &[LoadedConcept]) -> (r: Result<(), String>)
    ensures
        match r {
            Ok(()) => orderable_count(concepts_view(concepts@)) == concepts@.len(),
            Err(e) => orderable_count(concepts_view(concepts@)) != concepts@.len() && e@ == cycle_msg(
                orderable_count(concepts_view(concepts@)),
                concepts@.len(),
            ),
        },
{
    let ghost cs = concepts_view(concepts@);
    let n = concepts.len();
    let idx = prereq_indices(concepts);
    let mut m: Vec<bool> = Vec::new();
    let mut i: usize = 0;
    while i < n
        invariant
            n == cs.len(),
            i <= n,
            m@ == Seq::new(i as nat, |a: int| false),
        decreases n - i,
    {
        m.push(false);
        i = i + 1;
        assert(m@ =~= Seq::new(i as nat, |a: int| false));
    }
    assert(m@ == marks(cs, 0));
    let mut k: usize = 0;
    while k < n
        invariant
            cs == concepts_view(concepts@),
            n == cs.len(),
            k <= n,
            m@ == marks(cs, k as nat),
            idx@.len() == cs.len(),
            forall|a: int| 0 <= a < cs.len() ==> (#[trigger] idx@[a])@.len() == cs[a].prerequisites.len(),
            forall|a: int, b: int|
                0 <= a < cs.len() && 0 <= b < idx@[a]@.len() ==> #[trigger] idx@[a]@[b]
                    == prereq_index(cs, a, b),
        decreases n - k,
    {
        m = next_marks(&idx, &m, Ghost(cs));
        k = k + 1;
    }
    let visited = count_marks(&m);
    if visited != n {
        let mut msg = chars_of("curriculum contains a cycle (");
        push_digits(&mut msg, visited as u64);
        push_str(&mut msg, " of ");
        push_digits(&mut msg, n as u64);
        push_str(&mut msg, " concepts orderable)");
        proof {
            assert(decimal(visited as int) == digits_nat(visited as nat));
            assert(decimal(n as int) == digits_nat(n as nat));
            assert(msg@ =~= cycle_msg(visited as nat, n as nat));
        }
        return Err(string_of(msg.as_slice()));
    }
    Ok(())
}

/// The abstract reading of an exec verdict.
pub open spec fn verdict(r: Result<(), String>) -> Result<(), Seq<char>> {
    match r {
        Ok(()) => Ok(()),
        Err(e) => Err(e@),
    }
}

/// Validate the curriculum graph: ids well formed and unique, every concept
/// with objectives, error patterns and a tier in 1..=5, every prerequisite
/// resolving to a concept, and no cycle. Fails with the first problem found.
pub fn validate(concepts: &[LoadedConcept]) -> (r: Result<(), String>)
    ensures
        verdict(r) == validation_of(concepts_view(concepts@)),
        r is Ok ==> forall|i: int, j: int|
            0 <= i < j < concepts@.len() ==> #[trigger] concepts@[i].id@ != #[trigger] concepts@[j].id@,
{
    proof {
        let cs0 = concepts_view(concepts@);
        if validation_of(cs0) is Ok {
            lemma_accepted_ids_unique(cs0);
            assert forall|i: int, j: int| 0 <= i < j < concepts@.len() implies #[trigger] concepts@[i].id@
                != #[trigger] concepts@[j].id@ by {
                assert(cs0[i].id != cs0[j].id);
            }
        }
    }
    let ghost cs = concepts_view(concepts@);
    let n = concepts.len();
    let mut i: usize = 0;
    while i < n
        invariant
            cs == concepts_view(concepts@),
            n == cs.len(),
            i <= n,
            first_problem(cs, i as int) is None,
        decreases n - i,
    {
        let c = &concepts[i];
        assert(cs[i as int] == c@);
        let id = c.id.as_str();
        let problem: Option<String> = if !is_valid_concept_id(id) {
            let shown = debug_quoted(id);
            let mut msg = chars_of("concept id ");
            push_str(&mut msg, shown.as_str());
            push_str(&mut msg, " does not match ^[a-z]{2,4}_[0-9]{3}$");
            assert(msg@ =~= bad_id_msg(id@));
            Some(string_of(msg.as_slice()))
        } else if id_in_prefix(concepts, i, id) {
            Some(concat_strs("duplicate concept id: ", id, ""))
        } else if c.learning_objectives.len() == 0 {
            Some(concat_strs("concept ", id, " has no learning_objectives"))
        } else if c.error_patterns.len() == 0 {
            Some(concat_strs("concept ", id, " has no error_patterns"))
        } else if c.difficulty_tier < 1 || c.difficulty_tier > 5 {
            let mut msg = chars_of("concept ");
            push_str(&mut msg, id);
            push_str(&mut msg, " difficulty_tier ");
            push_i64(&mut msg, c.difficulty_tier);
            push_str(&mut msg, " out of 1..=5");
            Some(string_of(msg.as_slice()))
        } else {
            None
        };
        match problem {
            Some(e) => {
                proof {
                    reveal_strlit("");
                    assert(concept_problem(cs, i as int) == Some(e@));
                    lemma_first_problem_persists(cs, i + 1, n as int);
                }
                return Err(e);
            },
            None => {},
        }
        i = i + 1;
    }
    let mut i: usize = 0;
    while i < n
        invariant
            cs == concepts_view(concepts@),
            n == cs.len(),
            first_problem(cs, n as int) is None,
            i <= n,
            first_dangling(cs, i as int) is None,
        decreases n - i,
    {
        let c = &concepts[i];
        assert(cs[i as int] == c@);
        let mut j: usize = 0;
        while j < c.prerequisites.len()
            invariant
                cs == concepts_view(concepts@),
                n == cs.len(),
                i < n,
                *c == concepts@[i as int],
                j <= c.prerequisites@.len(),
                first_problem(cs, n as int) is None,
                first_dangling(cs, i as int) is None,
                dangling_in(cs, i as int, j as int) is None,
            decreases c.prerequisites.len() - j,
        {
            let p = c.prerequisites[j].as_str();
            assert(cs[i as int].prerequisites[j as int] == p@);
            if !id_in_prefix(concepts, n, p) {
                let shown = debug_quoted(p);
                let mut msg = chars_of("concept ");
                push_str(&mut msg, c.id.as_str());
                push_str(&mut msg, " has dangling prerequisite ");
                push_str(&mut msg, shown.as_str());
                proof {
                    assert(ids_of(cs).take(n as int) =~= ids_of(cs));
                    assert(msg@ =~= dangling_msg(c.id@, p@));
                    lemma_dangling_in_persists(
                        cs,
                        i as int,
                        j + 1,
                        cs[i as int].prerequisites.len() as int,
                    );
                    lemma_first_dangling_persists(cs, i + 1, n as int);
                }
                return Err(string_of(msg.as_slice()));
            }
            proof {
                assert(ids_of(cs).take(n as int) =~= ids_of(cs));
            }
            j = j + 1;
        }
        i = i + 1;
    }
    topo_sort_ok(concepts)
}

/// `a`, then `b`, then `c`.
fn concat_strs(a: &str, b: &str, c: &str) -> (r: String)
    ensures
        r@ == a@ + b@ + c@,
{
    let mut v = chars_of(a);
    push_str(&mut v, b);
    push_str(&mut v, c);
    string_of(v.as_slice())
}

// ---- Laws: orderability is acyclicity ----

/// Every prerequisite names one of the concepts.
pub open spec fn prereqs_resolve(cs: Seq<ConceptView>) -> bool {
    forall|i: int, j: int|
        0 <= i < cs.len() && 0 <= j < cs[i].prerequisites.len() ==> 0 <= #[trigger] prereq_index(
            cs,
            i,
            j,
        ) < cs.len()
}

/// `rank` puts every prerequisite strictly before the concept that needs it.
pub open spec fn ranks_prerequisites_first(cs: Seq<ConceptView>, rank: spec_fn(int) -> nat) -> bool {
    forall|i: int, j: int|
        0 <= i < cs.len() && 0 <= j < cs[i].prerequisites.len() ==> rank(
            #[trigger] prereq_index(cs, i, j),
        ) < rank(i)
}

/// The prerequisite graph has no cycle: some ranking orders every edge.
pub open spec fn acyclic(cs: Seq<ConceptView>) -> bool {
    exists|rank: spec_fn(int) -> nat| ranks_prerequisites_first(cs, rank)
}

proof fn lemma_marks_len(cs: Seq<ConceptView>, k: nat)
    ensures
        marks(cs, k).len() == cs.len(),
{
}

/// A concept that is orderable stays orderable in every later round.
proof fn lemma_marks_monotone(cs: Seq<ConceptView>, a: nat, b: nat, i: int)
    requires
        a <= b,
        0 <= i < cs.len(),
        marks(cs, a)[i],
    ensures
        marks(cs, b)[i],
    decreases b,
{
    if a < b {
        lemma_marks_step(cs, (b - 1) as nat);
        lemma_marks_monotone(cs, a, (b - 1) as nat, i);
    }
}

/// `marks(k)` is pointwise below `marks(k + 1)`.
proof fn lemma_marks_step(cs: Seq<ConceptView>, k: nat)
    ensures
        forall|i: int| 0 <= i < cs.len() && #[trigger] marks(cs, k)[i] ==> marks(cs, k + 1)[i],
    decreases k,
{
    if k > 0 {
        lemma_marks_step(cs, (k - 1) as nat);
        assert forall|i: int| 0 <= i < cs.len() && #[trigger] marks(cs, k)[i] implies marks(
            cs,
            k + 1,
        )[i] by {
            let prev = marks(cs, (k - 1) as nat);
            assert(ready(cs, prev, i));
            assert forall|j: int| 0 <= j < cs[i].prerequisites.len() implies #[trigger] prereq_marked(
                cs,
                marks(cs, k),
                i,
                j,
            ) by {
                assert(prereq_marked(cs, prev, i, j));
            }
        }
    }
}

proof fn lemma_count_le(s: Seq<bool>)
    ensures
        count_true(s) <= s.len(),
    decreases s.len(),
{
    if s.len() > 0 {
        lemma_count_le(s.drop_last());
    }
}

/// Every entry is true exactly when the count is the length.
proof fn lemma_count_full(s: Seq<bool>)
    ensures
        count_true(s) == s.len() <==> forall|i: int| 0 <= i < s.len() ==> s[i],
    decreases s.len(),
{
    if s.len() > 0 {
        let t = s.drop_last();
        lemma_count_full(t);
        lemma_count_le(t);
        if forall|i: int| 0 <= i < s.len() ==> s[i] {
            assert forall|i: int| 0 <= i < t.len() implies t[i] by {
                assert(t[i] == s[i]);
            }
        }
        if count_true(s) == s.len() {
            assert forall|i: int| 0 <= i < s.len() implies s[i] by {
                if i < t.len() {
                    assert(t[i] == s[i]);
                }
            }
        }
    }
}

/// A pointwise larger sequence with one more true entry counts at least one more.
proof fn lemma_count_grows(s: Seq<bool>, t: Seq<bool>, u: int)
    requires
        s.len() == t.len(),
        forall|i: int| 0 <= i < s.len() && s[i] ==> t[i],
        0 <= u < s.len(),
        !s[u],
        t[u],
    ensures
        count_true(t) >= count_true(s) + 1,
    decreases s.len(),
{
    let n = s.len();
    if u == n - 1 {
        lemma_count_mono(s.drop_last(), t.drop_last());
    } else {
        lemma_count_grows(s.drop_last(), t.drop_last(), u);
    }
}

proof fn lemma_count_mono(s: Seq<bool>, t: Seq<bool>)
    requires
        s.len() == t.len(),
        forall|i: int| 0 <= i < s.len() && s[i] ==> t[i],
    ensures
        count_true(t) >= count_true(s),
    decreases s.len(),
{
    if s.len() > 0 {
        lemma_count_mono(s.drop_last(), t.drop_last());
    }
}

/// The first round, searching upward from `r`, in which concept `i` is
/// orderable (`cs.len()` when none up to it is).
pub open spec fn first_round(cs: Seq<ConceptView>, i: int, r: nat) -> nat
    decreases cs.len() - r,
{
    if r >= cs.len() {
        cs.len()
    } else if marks(cs, r)[i] {
        r
    } else {
        first_round(cs, i, r + 1)
    }
}

proof fn lemma_first_round(cs: Seq<ConceptView>, i: int, r: nat)
    requires
        0 <= i < cs.len(),
        r <= cs.len(),
        marks(cs, cs.len())[i],
    ensures
        r <= first_round(cs, i, r) <= cs.len(),
        marks(cs, first_round(cs, i, r))[i],
        forall|q: nat| r <= q < first_round(cs, i, r) ==> !#[trigger] marks(cs, q)[i],
    decreases cs.len() - r,
{
    if r < cs.len() && !marks(cs, r)[i] {
        lemma_first_round(cs, i, r + 1);
    }
}

/// An unmarked index of least rank among the first `n`.
proof fn least_unmarked(m: Seq<bool>, rank: spec_fn(int) -> nat, n: int) -> (u: int)
    requires
        0 <= n <= m.len(),
        exists|v: int| 0 <= v < n && !m[v],
    ensures
        0 <= u < n,
        !m[u],
        forall|v: int| 0 <= v < n && !m[v] ==> rank(u) <= rank(v),
    decreases n,
{
    if exists|v: int| 0 <= v < n - 1 && !m[v] {
        let w = least_unmarked(m, rank, n - 1);
        if !m[n - 1] && rank(n - 1) < rank(w) {
            n - 1
        } else {
            w
        }
    } else {
        n - 1
    }
}

/// With every prerequisite resolving, all concepts can be ordered exactly when
/// the prerequisite graph has no cycle.
pub proof fn lemma_orderable_iff_acyclic(cs: Seq<ConceptView>)
    requires
        prereqs_resolve(cs),
    ensures
        orderable_count(cs) == cs.len() <==> acyclic(cs),
{
    let n = cs.len();
    lemma_marks_len(cs, n);
    lemma_count_full(marks(cs, n));
    if orderable_count(cs) == n {
        let rank = |i: int| first_round(cs, i, 0);
        assert forall|i: int, j: int|
            0 <= i < cs.len() && 0 <= j < cs[i].prerequisites.len() implies rank(
            #[trigger] prereq_index(cs, i, j),
        ) < rank(i) by {
            let q = prereq_index(cs, i, j);
            lemma_first_round(cs, i, 0);
            lemma_first_round(cs, q, 0);
            let r = first_round(cs, i, 0);
            assert(r > 0);
            let prev = marks(cs, (r - 1) as nat);
            assert(ready(cs, prev, i));
            assert(prereq_marked(cs, prev, i, j));
            if first_round(cs, q, 0) > r - 1 {
                assert(!marks(cs, (r - 1) as nat)[q]);
            }
        }
        assert(ranks_prerequisites_first(cs, rank));
        assert(acyclic(cs));
    }
    if acyclic(cs) {
        let rank = choose|rank: spec_fn(int) -> nat| ranks_prerequisites_first(cs, rank);
        lemma_acyclic_rounds(cs, rank, n);
        lemma_count_le(marks(cs, n));
    }
}

/// Under an acyclic ranking, after `k` rounds either every concept is
/// orderable or at least `k` are.
proof fn lemma_acyclic_rounds(cs: Seq<ConceptView>, rank: spec_fn(int) -> nat, k: nat)
    requires
        prereqs_resolve(cs),
        ranks_prerequisites_first(cs, rank),
    ensures
        count_true(marks(cs, k)) == cs.len() || count_true(marks(cs, k)) >= k,
    decreases k,
{
    let n = cs.len();
    lemma_marks_len(cs, k);
    if k > 0 {
        let km = (k - 1) as nat;
        lemma_acyclic_rounds(cs, rank, km);
        lemma_marks_len(cs, km);
        let prev = marks(cs, km);
        let cur = marks(cs, k);
        lemma_marks_step(cs, km);
        lemma_count_mono(prev, cur);
        lemma_count_full(prev);
        lemma_count_full(cur);
        lemma_count_le(cur);
        if count_true(prev) != n {
            let u = least_unmarked(prev, rank, n as int);
            assert forall|j: int| 0 <= j < cs[u].prerequisites.len() implies #[trigger] prereq_marked(
                cs,
                prev,
                u,
                j,
            ) by {
                let q = prereq_index(cs, u, j);
                assert(0 <= q < n);
                assert(rank(q) < rank(u));
            }
            assert(ready(cs, prev, u));
            assert(cur[u]);
            lemma_count_grows(prev, cur, u);
        }
    }
}

/// A prerequisite that names some concept resolves to that concept's index.
proof fn lemma_find_from(ids: Seq<Seq<char>>, p: Seq<char>, i: int)
    requires
        0 <= i <= ids.len(),
        ids.subrange(i, ids.len() as int).contains(p),
    ensures
        i <= find_from(ids, p, i) < ids.len(),
        ids[find_from(ids, p, i)] == p,
    decreases ids.len() - i,
{
    if ids[i] != p {
        let k = choose|k: int| 0 <= k < ids.len() - i && #[trigger] ids.subrange(i, ids.len() as int)[k] == p;
        assert(k != 0);
        assert(ids.subrange(i + 1, ids.len() as int)[k - 1] == p);
        lemma_find_from(ids, p, i + 1);
    }
}

proof fn lemma_no_dangling_resolves(cs: Seq<ConceptView>)
    requires
        first_dangling(cs, cs.len() as int) is None,
    ensures
        prereqs_resolve(cs),
{
    assert forall|i: int, j: int|
        0 <= i < cs.len() && 0 <= j < cs[i].prerequisites.len() implies 0 <= #[trigger] prereq_index(
        cs,
        i,
        j,
    ) < cs.len() by {
        lemma_no_dangling_prefix(cs, i, cs.len() as int);
        lemma_dangling_in_none(cs, i, j, cs[i].prerequisites.len() as int);
        assert(ids_of(cs).subrange(0, cs.len() as int) =~= ids_of(cs));
        lemma_find_from(ids_of(cs), cs[i].prerequisites[j], 0);
    }
}

proof fn lemma_no_dangling_prefix(cs: Seq<ConceptView>, i: int, n: int)
    requires
        0 <= i < n <= cs.len(),
        first_dangling(cs, n) is None,
    ensures
        dangling_in(cs, i, cs[i].prerequisites.len() as int) is None,
    decreases n,
{
    if i < n - 1 {
        lemma_no_dangling_prefix(cs, i, n - 1);
    }
}

proof fn lemma_dangling_in_none(cs: Seq<ConceptView>, i: int, j: int, m: int)
    requires
        0 <= j < m,
        dangling_in(cs, i, m) is None,
    ensures
        ids_of(cs).contains(cs[i].prerequisites[j]),
    decreases m,
{
    if j < m - 1 {
        lemma_dangling_in_none(cs, i, j, m - 1);
    }
}

/// Validation succeeds exactly when no concept has a malformed or duplicate
/// id or missing fields, every prerequisite names a concept, and the
/// prerequisite graph has no cycle.
pub proof fn lemma_validation_ok_iff(cs: Seq<ConceptView>)
    ensures
        validation_of(cs) is Ok <==> {
            &&& first_problem(cs, cs.len() as int) is None
            &&& first_dangling(cs, cs.len() as int) is None
            &&& acyclic(cs)
        },
{
    if first_problem(cs, cs.len() as int) is None && first_dangling(cs, cs.len() as int) is None {
        lemma_no_dangling_resolves(cs);
        lemma_orderable_iff_acyclic(cs);
    }
}

proof fn lemma_no_problem_each(cs: Seq<ConceptView>, n: int)
    requires
        0 <= n <= cs.len(),
        first_problem(cs, n) is None,
    ensures
        forall|k: int| 0 <= k < n ==> #[trigger] concept_problem(cs, k) is None,
    decreases n,
{
    if n > 0 {
        lemma_no_problem_each(cs, n - 1);
    }
}

/// An accepted curriculum has no two concepts with the same id, and every
/// concept has learning objectives, error patterns and a tier in 1..=5.
pub proof fn lemma_accepted_ids_unique(cs: Seq<ConceptView>)
    requires
        validation_of(cs) is Ok,
    ensures
        forall|i: int, j: int| 0 <= i < j < cs.len() ==> #[trigger] cs[i].id != #[trigger] cs[j].id,
        forall|i: int|
            0 <= i < cs.len() ==> {
                &&& #[trigger] cs[i].learning_objectives.len() > 0
                &&& cs[i].error_patterns.len() > 0
                &&& 1 <= cs[i].difficulty_tier <= 5
            },
{
    lemma_no_problem_each(cs, cs.len() as int);
    assert forall|i: int, j: int| 0 <= i < j < cs.len() implies #[trigger] cs[i].id != #[trigger] cs[j].id by {
        assert(concept_problem(cs, j) is None);
        assert(ids_of(cs).take(j)[i] == cs[i].id);
        if cs[i].id == cs[j].id {
            assert(ids_of(cs).take(j).contains(cs[j].id));
        }
    }
    assert forall|i: int| 0 <= i < cs.len() implies {
        &&& #[trigger] cs[i].learning_objectives.len() > 0
        &&& cs[i].error_patterns.len() > 0
        &&& 1 <= cs[i].difficulty_tier <= 5
    } by {
        assert(concept_problem(cs, i) is None);
    }
}

} // verus!
