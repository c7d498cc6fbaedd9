//! Command-edge input validation: concept-id format, string and number
//! bounds, submitted-answer bounds, cache content types, and the exact
//! permutation rule for submitted quiz answers. Invalid input is rejected with
//! a typed error before it reaches storage or the model.

use vstd::prelude::*;
use vstd::set_lib::*;
use vstd::string::StringSliceAdditionalSpecFns;

use crate::text::{chars_of, concat2, debug_quoted, debug_str, decimal, digits_nat, owned, push_digits, push_i64, push_str, str_eq, string_of};

verus! {

/// Max length for short identifier inputs.
pub const MAX_ID_LEN: usize = 32;

/// Max accepted length (bytes) for one submitted answer.
pub const MAX_ANSWER_LEN: usize = 4000;

/// Latency upper bound per answer: 10 minutes.
pub const MAX_LATENCY_MS: i64 = 600_000;

pub open spec fn is_lower_ascii(c: char) -> bool {
    97 <= (c as u32) <= 122
}

pub open spec fn is_digit_ascii(c: char) -> bool {
    48 <= (c as u32) <= 57
}

/// A concept id has the shape `^[a-z]{2,4}_[0-9]{3}$`.
pub open spec fn concept_id_ok(s: Seq<char>) -> bool {
    let k = s.len() - 4;
    &&& 2 <= k <= 4
    &&& s[k] == '_'
    &&& forall|i: int| 0 <= i < k ==> is_lower_ascii(#[trigger] s[i])
    &&& forall|i: int| k < i < s.len() ==> is_digit_ascii(#[trigger] s[i])
}

fn is_lower_char(c: char) -> (b: bool)
    ensures
        b == is_lower_ascii(c),
{
    let u = c as u32;
    97 <= u && u <= 122
}

fn is_digit_char(c: char) -> (b: bool)
    ensures
        b == is_digit_ascii(c),
{
    let u = c as u32;
    48 <= u && u <= 57
}

/// Whether `id` is a well-formed concept id (`alg_001`, `astr_142`, ...).
pub fn is_valid_concept_id(id: &str) -> (b: bool)
    ensures
        b == concept_id_ok(id@),
{
    let cs = chars_of(id);
    let n = cs.len();
    // The prefix ends at the first '_'.
    let mut k: usize = 0;
    while k < n && cs[k] != '_'
        invariant
            k <= n == cs@.len(),
            forall|i: int| 0 <= i < k ==> cs@[i] != '_',
        decreases n - k,
    {
        k = k + 1;
    }
    proof {
        if concept_id_ok(cs@) {
            let m = n - 4;
            assert(cs@[m] == '_');
            if k < m {
                assert(is_lower_ascii(cs@[k as int]));
            }
            assert(k >= m);
            assert(k == m);
        }
    }
    if k == n || k < 2 || k > 4 || n - k != 4 {
        return false;
    }
    let mut i: usize = 0;
    while i < k
        invariant
            i <= k <= n == cs@.len(),
            cs@ == id@,
            k == n - 4,
            forall|j: int| 0 <= j < i ==> is_lower_ascii(#[trigger] cs@[j]),
        decreases k - i,
    {
        if !is_lower_char(cs[i]) {
            assert(!is_lower_ascii(id@[i as int]));
            return false;
        }
        i = i + 1;
    }
    let mut j: usize = k + 1;
    while j < n
        invariant
            k + 1 <= j <= n == cs@.len(),
            cs@ == id@,
            k == n - 4,
            cs@[k as int] == '_',
            forall|t: int| 0 <= t < k ==> is_lower_ascii(#[trigger] cs@[t]),
            forall|t: int| k < t < j ==> is_digit_ascii(#[trigger] cs@[t]),
        decreases n - j,
    {
        if !is_digit_char(cs[j]) {
            assert(!is_digit_ascii(id@[j as int]));
            return false;
        }
        j = j + 1;
    }
    true
}

/// Reject an invalid concept id with a typed error.
pub fn concept_id(id: &str) -> (r: Result<(), String>)
    ensures
        r is Ok <==> concept_id_ok(id@),
        r matches Err(e) ==> e@ == "invalid concept id: "@ + debug_str(id@),
{
    if is_valid_concept_id(id) {
        Ok(())
    } else {
        let q = debug_quoted(id);
        Err(concat2("invalid concept id: ", q.as_str()))
    }
}

/// Bound a free-form string by its byte length.
pub fn string_len(field: &str, s: &str, max: usize) -> (r: Result<(), String>)
    ensures
        r is Ok <==> s.len() <= max,
        r matches Err(e) ==> e@ == field@ + " exceeds max length "@ + digits_nat(max as nat),
{
    if s.len() > max {
        let mut v = chars_of(field);
        push_str(&mut v, " exceeds max length ");
        push_digits(&mut v, max as u64);
        Err(string_of(v.as_slice()))
    } else {
        Ok(())
    }
}

/// Inclusive numeric range check.
pub fn in_range_i64(field: &str, n: i64, lo: i64, hi: i64) -> (r: Result<(), String>)
    ensures
        r is Ok <==> lo <= n <= hi,
        r matches Err(e) ==> e@ == field@ + " must be in "@ + decimal(lo as int) + "..="@
            + decimal(hi as int),
{
    if lo <= n && n <= hi {
        Ok(())
    } else {
        let mut v = chars_of(field);
        push_str(&mut v, " must be in ");
        push_i64(&mut v, lo);
        push_str(&mut v, "..=");
        push_i64(&mut v, hi);
        Err(string_of(v.as_slice()))
    }
}

/// Bound one submitted answer's free-form text (by bytes).
pub fn answer_text(answer: &str) -> (r: Result<(), String>)
    ensures
        r is Ok <==> answer.len() <= MAX_ANSWER_LEN,
        r matches Err(e) ==> e@
            == "that answer is too long — please shorten it to under 4000 characters"@,
{
    if answer.len() > MAX_ANSWER_LEN {
        Err(owned("that answer is too long — please shorten it to under 4000 characters"))
    } else {
        Ok(())
    }
}

/// Bound a submitted answer latency: None, or 0..=600000 ms.
pub fn latency_ms(latency: Option<i64>) -> (r: Result<(), String>)
    ensures
        r is Ok <==> (latency matches Some(ms) ==> 0 <= ms <= MAX_LATENCY_MS),
        r matches Err(e) ==> e@
            == "that answer's timing looks invalid — please try submitting the quiz again"@,
{
    match latency {
        None => Ok(()),
        Some(ms) => {
            if 0 <= ms && ms <= MAX_LATENCY_MS {
                Ok(())
            } else {
                Err(
                    owned(
                        "that answer's timing looks invalid — please try submitting the quiz again",
                    ),
                )
            }
        },
    }
}

/// The content types the content cache accepts.
pub open spec fn content_type_ok(ct: Seq<char>) -> bool {
    ||| ct == "lesson"@
    ||| ct == "lesson_reinforced"@
    ||| ct == "quiz"@
    ||| ct == "explain"@
    ||| ct == "review"@
}

/// Accept only a known content-cache content type.
pub fn content_type(ct: &str) -> (r: Result<(), String>)
    ensures
        r is Ok <==> content_type_ok(ct@),
        r matches Err(e) ==> e@ == "invalid content_type: "@ + debug_str(ct@),
{
    if str_eq(ct, "lesson") || str_eq(ct, "lesson_reinforced") || str_eq(ct, "quiz") || str_eq(
        ct,
        "explain",
    ) || str_eq(ct, "review") {
        Ok(())
    } else {
        let q = debug_quoted(ct);
        Err(concat2("invalid content_type: ", q.as_str()))
    }
}

/// The character views of a list of string slices.
pub open spec fn views(s: Seq<&str>) -> Seq<Seq<char>> {
    s.map_values(|x: &str| x@)
}

pub open spec fn unknown_question_msg(id: Seq<char>) -> Seq<char> {
    "answer references unknown question "@ + debug_str(id)
}

pub open spec fn duplicate_answer_msg(id: Seq<char>) -> Seq<char> {
    "question "@ + debug_str(id)
        + " was answered more than once — please submit each question exactly once"@
}

pub open spec fn missing_answer_msg(answered: nat, total: nat) -> Seq<char> {
    "please answer every question before submitting ("@ + digits_nat(answered) + " of "@
        + digits_nat(total) + " answered)"@
}

/// The first problem among `sub[i..]`, in submission order: an id that is not
/// canonical, or an id already submitted earlier.
pub open spec fn first_answer_problem(can: Seq<Seq<char>>, sub: Seq<Seq<char>>, i: int) -> Option<
    Seq<char>,
>
    decreases sub.len() - i,
{
    if i < 0 || i >= sub.len() {
        None
    } else if !can.contains(sub[i]) {
        Some(unknown_question_msg(sub[i]))
    } else if sub.take(i).contains(sub[i]) {
        Some(duplicate_answer_msg(sub[i]))
    } else {
        first_answer_problem(can, sub, i + 1)
    }
}

/// What the permutation rule answers for canonical ids `can` and submitted ids `sub`.
pub open spec fn permutation_verdict(can: Seq<Seq<char>>, sub: Seq<Seq<char>>) -> Result<
    (),
    Seq<char>,
> {
    match first_answer_problem(can, sub, 0) {
        Some(m) => Err(m),
        None => if sub.len() == can.to_set().len() {
            Ok(())
        } else {
            Err(missing_answer_msg(sub.len(), can.to_set().len()))
        },
    }
}

/// Is `x` one of the ids in `xs`?
fn contains_id(xs: &[&str], x: &str, upto: usize) -> (b: bool)
    requires
        upto <= xs@.len(),
    ensures
        b == views(xs@).take(upto as int).contains(x@),
{
    let mut i: usize = 0;
    while i < upto
        invariant
            i <= upto <= xs@.len(),
            forall|j: int| 0 <= j < i ==> xs@[j]@ != x@,
        decreases upto - i,
    {
        if str_eq(xs[i], x) {
            assert(views(xs@).take(upto as int)[i as int] == x@);
            return true;
        }
        i = i + 1;
    }
    assert forall|j: int| 0 <= j < upto implies views(xs@).take(upto as int)[j] != x@ by {
        assert(views(xs@).take(upto as int)[j] == xs@[j]@);
    }
    false
}

/// The number of distinct ids in `xs`.
fn distinct_count(xs: &[&str]) -> (n: usize)
    ensures
        n == views(xs@).to_set().len(),
{
    let ghost v = views(xs@);
    let mut n: usize = 0;
    let mut i: usize = 0;
    proof {
        assert(v.take(0).to_set() =~= Set::<Seq<char>>::empty());
    }
    while i < xs.len()
        invariant
            i <= xs@.len(),
            v == views(xs@),
            n <= i,
            v.take(i as int).to_set().finite(),
            n == v.take(i as int).to_set().len(),
        decreases xs.len() - i,
    {
        let seen = contains_id(xs, xs[i], i);
        proof {
            assert(v.take(i + 1) =~= v.take(i as int) + seq![v[i as int]]);
            Seq::<Seq<char>>::lemma_to_set_insert_commutes(v.take(i as int), v[i as int]);
            if seen {
                let j = choose|j: int| 0 <= j < i && v.take(i as int)[j] == v[i as int];
                assert(v.take(i as int).to_set().contains(v[i as int]));
                assert(v.take(i as int).to_set().insert(v[i as int]) =~= v.take(
                    i as int,
                ).to_set());
            } else {
                assert(!v.take(i as int).to_set().contains(v[i as int]));
            }
        }
        if !seen {
            n = n + 1;
        }
        i = i + 1;
    }
    proof {
        assert(v.take(xs@.len() as int) =~= v);
    }
    n
}

/// The permutation rule leaves `Ok` exactly when the submission names every
/// canonical id once and nothing else.
pub proof fn lemma_permutation_verdict_ok(can: Seq<Seq<char>>, sub: Seq<Seq<char>>)
    ensures
        permutation_verdict(can, sub) is Ok <==> (sub.no_duplicates() && sub.to_set()
            == can.to_set()),
{
    lemma_first_problem_none(can, sub, 0);
    vstd::seq_lib::seq_to_set_is_finite(can);
    vstd::seq_lib::seq_to_set_is_finite(sub);
    if first_answer_problem(can, sub, 0) is None {
        assert forall|i: int, j: int|
            0 <= i < sub.len() && 0 <= j < sub.len() && i != j implies sub[i] != sub[j] by {
            if i < j {
                assert(sub.take(j)[i] == sub[i]);
                assert(!sub.take(j).contains(sub[j]));
            } else {
                assert(sub.take(i)[j] == sub[j]);
                assert(!sub.take(i).contains(sub[i]));
            }
        }
        assert(sub.no_duplicates());
        sub.unique_seq_to_set();
        assert forall|x: Seq<char>| sub.to_set().contains(x) implies can.to_set().contains(x) by {
            let k = choose|k: int| 0 <= k < sub.len() && sub[k] == x;
            assert(can.contains(sub[k]));
        }
        assert(sub.to_set().subset_of(can.to_set()));
        if sub.len() == can.to_set().len() {
            lemma_subset_equality(sub.to_set(), can.to_set());
        }
    } else {
        if sub.no_duplicates() && sub.to_set() == can.to_set() {
            assert forall|k: int| 0 <= k < sub.len() implies can.contains(#[trigger] sub[k])
                && !sub.take(k).contains(sub[k]) by {
                assert(sub.to_set().contains(sub[k]));
                assert(can.to_set().contains(sub[k]));
                if sub.take(k).contains(sub[k]) {
                    let j = choose|j: int| 0 <= j < k && sub.take(k)[j] == sub[k];
                    assert(sub[j] == sub[k]);
                }
            }
        }
    }
}

/// No problem is found from `i` on exactly when every later id is canonical
/// and not repeated.
proof fn lemma_first_problem_none(can: Seq<Seq<char>>, sub: Seq<Seq<char>>, i: int)
    requires
        0 <= i <= sub.len(),
    ensures
        first_answer_problem(can, sub, i) is None <==> (forall|k: int|
            i <= k < sub.len() ==> can.contains(#[trigger] sub[k]) && !sub.take(k).contains(
                sub[k],
            )),
    decreases sub.len() - i,
{
    if i < sub.len() {
        lemma_first_problem_none(can, sub, i + 1);
    }
}

/// H9/H15: submitted answer ids must be an exact permutation of the canonical
/// question ids — every canonical question answered exactly once, nothing else.
pub fn answer_permutation(canonical_ids: &[&str], submitted_ids: &[&str]) -> (r: Result<
    (),
    String,
>)
    ensures
        match r {
            Ok(()) => permutation_verdict(views(canonical_ids@), views(submitted_ids@)) is Ok,
            Err(e) => permutation_verdict(views(canonical_ids@), views(submitted_ids@)) == Err::<
                (),
                Seq<char>,
            >(e@),
        },
        r is Ok <==> (views(submitted_ids@).no_duplicates() && views(submitted_ids@).to_set()
            == views(canonical_ids@).to_set()),
{
    let ghost can = views(canonical_ids@);
    let ghost sub = views(submitted_ids@);
    proof {
        lemma_permutation_verdict_ok(can, sub);
    }
    let mut i: usize = 0;
    while i < submitted_ids.len()
        invariant
            i <= submitted_ids@.len(),
            can == views(canonical_ids@),
            sub == views(submitted_ids@),
            first_answer_problem(can, sub, 0) == first_answer_problem(can, sub, i as int),
            permutation_verdict(can, sub) is Ok <==> (sub.no_duplicates() && sub.to_set()
                == can.to_set()),
        decreases submitted_ids.len() - i,
    {
        let id = submitted_ids[i];
        if !contains_id(canonical_ids, id, canonical_ids.len()) {
            proof {
                assert(can.take(can.len() as int) =~= can);
                assert(sub[i as int] == id@);
                assert(first_answer_problem(can, sub, i as int) is Some);
                assert(!(permutation_verdict(can, sub) is Ok));
            }
            let q = debug_quoted(id);
            return Err(concat2("answer references unknown question ", q.as_str()));
        }
        proof {
            assert(can.take(can.len() as int) =~= can);
        }
        if contains_id(submitted_ids, id, i) {
            let q = debug_quoted(id);
            let mut v = chars_of("question ");
            push_str(&mut v, q.as_str());
            push_str(
                &mut v,
                " was answered more than once — please submit each question exactly once",
            );
            return Err(string_of(v.as_slice()));
        }
        i = i + 1;
    }
    let total = distinct_count(canonical_ids);
    if submitted_ids.len() != total {
        let mut v = chars_of("please answer every question before submitting (");
        push_digits(&mut v, submitted_ids.len() as u64);
        push_str(&mut v, " of ");
        push_digits(&mut v, total as u64);
        push_str(&mut v, " answered)");
        return Err(string_of(v.as_slice()));
    }
    Ok(())
}

} // verus!
