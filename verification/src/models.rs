//! The model picker: the offline fallback list, the in-memory cache of the
//! fetched id list, the newest-first ordering of fetched models, and the
//! default model chosen from that order (the newest Sonnet, else the newest
//! model).

use vstd::prelude::*;

use crate::contract::{copy_string, strings_view};
use crate::planner::{is_top, keys_view, select_smallest, top, usizes};
use crate::rate_limit::{clock_origin, nanos_since};
use crate::text::{chars_of, concat2, contains_seq, lex_lt, owned, str_contains, str_less, string_of};

verus! {

/// A model id: the vendor's prefix, a hyphen, then the model's own name
/// (`<vendor>-sonnet-4-6`). The vendor prefix is configuration the caller
/// supplies with the rest of the API settings.
pub open spec fn model_id(vendor: Seq<char>, name: Seq<char>) -> Seq<char> {
    vendor + "-"@ + name
}

/// The id of the model `name` of `vendor`.
pub fn vendor_model(vendor: &str, name: &str) -> (r: String)
    ensures
        r@ == model_id(vendor@, name@),
{
    let p = concat2(vendor, "-");
    concat2(p.as_str(), name)
}

/// The fallback ids of `vendor`: undated aliases, including a Sonnet.
pub open spec fn fallback_ids(vendor: Seq<char>) -> Seq<Seq<char>> {
    seq![model_id(vendor, "sonnet-4-6"@), model_id(vendor, "opus-4-8"@), model_id(vendor, "haiku-4-5"@)]
}

/// The current fallback ids: undated aliases, including a Sonnet.
pub fn fallback_models(vendor: &str) -> (r: Vec<String>)
    ensures
        strings_view(r@) == fallback_ids(vendor@),
{
    let v = vec![vendor_model(vendor, "sonnet-4-6"), vendor_model(vendor, "opus-4-8"), vendor_model(vendor, "haiku-4-5")];
    assert(strings_view(v@) =~= fallback_ids(vendor@));
    v
}

/// How long a fetched model list stays fresh: one hour, in nanoseconds.
pub const CACHE_TTL_NANOS: u64 = 3_600_000_000_000;

/// What a cache holding `entry` answers when asked at `now`: the stored list
/// while it is younger than the TTL, nothing otherwise.
pub open spec fn fresh_answer(entry: Option<(u64, Seq<Seq<char>>)>, now: u64, r: Option<Seq<Seq<char>>>) -> bool {
    match r {
        Some(ids) => entry matches Some((at, v)) && (if now >= at { now - at } else { 0 }) < CACHE_TTL_NANOS
            && ids == v,
        None => entry matches Some((at, v)) ==> (if now >= at { now - at } else { 0 }) >= CACHE_TTL_NANOS,
    }
}

/// A list of ids, if any, by its view.
pub open spec fn ids_view(r: Option<Vec<String>>) -> Option<Seq<Seq<char>>> {
    match r {
        Some(ids) => Some(strings_view(ids@)),
        None => None,
    }
}

/// In-memory cache of the fetched model id list, stamped with when it was
/// stored.
pub struct ModelCache {
    origin: std::time::Instant,
    inner: Option<(u64, Vec<String>)>,
}

impl ModelCache {
    /// The cached list and when it was stored, if any.
    pub closed spec fn entry(&self) -> Option<(u64, Seq<Seq<char>>)> {
        match self.inner {
            Some((at, ids)) => Some((at, strings_view(ids@))),
            None => None,
        }
    }

    /// An empty cache.
    pub fn new() -> (c: Self)
        ensures
            c.entry() is None,
    {
        ModelCache { origin: clock_origin(), inner: None }
    }

    /// The cached list when it is younger than the TTL at `now`.
    pub fn get_fresh_at(&self, now: u64) -> (r: Option<Vec<String>>)
        ensures
            match r {
                Some(ids) => self.entry() matches Some((at, v)) && (if now >= at { now - at } else { 0 })
                    < CACHE_TTL_NANOS && strings_view(ids@) == v,
                None => self.entry() matches Some((at, v)) ==> (if now >= at { now - at } else { 0 })
                    >= CACHE_TTL_NANOS,
            },
    {
        match &self.inner {
            Some((at, ids)) => {
                let age = if now >= *at { now - *at } else { 0 };
                if age < CACHE_TTL_NANOS {
                    Some(crate::curriculum::copy_strings(ids))
                } else {
                    None
                }
            },
            None => None,
        }
    }

    /// Store a fetched list at `now`.
    pub fn store_at(&mut self, ids: Vec<String>, now: u64)
        ensures
            final(self).entry() == Some((now, strings_view(ids@))),
    {
        self.inner = Some((now, ids));
    }

    /// The cached list when it is still fresh. Whatever the clock reads, the
    /// answer is that of `get_fresh_at` at that reading.
    pub fn get_fresh(&self) -> (r: Option<Vec<String>>)
        ensures
            exists|now: u64|
                #[trigger] fresh_answer(self.entry(), now, ids_view(r)),
    {
        let now = nanos_since(&self.origin);
        let r = self.get_fresh_at(now);
        assert(fresh_answer(self.entry(), now, ids_view(r)));
        r
    }

    /// Store a fetched list, stamped with the current time.
    pub fn store(&mut self, ids: Vec<String>)
        ensures
            final(self).entry() matches Some((at, v)) && v == strings_view(ids@),
    {
        let now = nanos_since(&self.origin);
        self.store_at(ids, now);
    }
}

/// How Unicode lowercases a text (`str::to_lowercase`).
pub uninterp spec fn lowercase(s: Seq<char>) -> Seq<char>;

/// `str::to_lowercase`.
#[verifier::external_body]
fn to_lowercase(s: &str) -> (r: String)
    ensures
        r@ == lowercase(s@),
{
    s.to_lowercase()
}

/// The index of the first id that names a Sonnet (case-insensitively).
pub open spec fn first_sonnet(ids: Seq<Seq<char>>, i: int) -> Option<int>
    decreases ids.len() - i,
{
    if i < 0 || i >= ids.len() {
        None
    } else if contains_seq(lowercase(ids[i]), "sonnet"@) {
        Some(i)
    } else {
        first_sonnet(ids, i + 1)
    }
}

/// The default from a newest-first id list: the newest Sonnet, else the
/// newest id, else none.
pub open spec fn default_model(ids: Seq<Seq<char>>) -> Option<Seq<char>> {
    match first_sonnet(ids, 0) {
        Some(i) => Some(ids[i]),
        None => if ids.len() > 0 {
            Some(ids[0])
        } else {
            None
        },
    }
}

/// Pick a default base model from a newest-first id list.
pub fn pick_default_model(ids: &[String]) -> (r: Option<String>)
    ensures
        match r {
            Some(m) => default_model(strings_view(ids@)) == Some(m@),
            None => default_model(strings_view(ids@)) is None,
        },
{
    let ghost v = strings_view(ids@);
    let mut i: usize = 0;
    while i < ids.len()
        invariant
            v == strings_view(ids@),
            i <= ids@.len(),
            first_sonnet(v, 0) == first_sonnet(v, i as int),
        decreases ids.len() - i,
    {
        let low = to_lowercase(ids[i].as_str());
        assert(v[i as int] == ids@[i as int]@);
        if str_contains(low.as_str(), "sonnet") {
            return Some(copy_string(&ids[i]));
        }
        i = i + 1;
    }
    if ids.len() > 0 {
        Some(copy_string(&ids[0]))
    } else {
        None
    }
}

/// One entry of the models endpoint.
#[derive(Debug, Clone)]
pub struct ModelEntry {
    pub id: String,
    pub created_at: Option<String>,
    pub display_name: Option<String>,
}

/// How many entries carry a strictly later creation stamp than entry `i`
/// (undated entries count none).
pub open spec fn later_count(es: Seq<ModelEntry>, i: int) -> nat {
    Set::new(|j: int| 0 <= j < es.len() && later(es, j, i)).len()
}

/// Entry `j` is dated strictly later than entry `i`.
pub open spec fn later(es: Seq<ModelEntry>, j: int, i: int) -> bool {
    es[j].created_at matches Some(dj) && es[i].created_at matches Some(di) && lex_lt(di@, dj@)
}

/// The ordering keys: dated entries before undated ones, then later stamps
/// first, then ids ascending (RFC 3339 stamps order as text).
pub open spec fn newest_first_keys(es: Seq<ModelEntry>) -> Seq<(u64, u64, Seq<char>)> {
    Seq::new(
        es.len(),
        |i: int|
            (if es[i].created_at is Some {
                0u64
            } else {
                1u64
            }, later_count(es, i) as u64, es[i].id@),
    )
}

/// The ids newest first.
pub open spec fn newest_first(es: Seq<ModelEntry>) -> Seq<Seq<char>> {
    let t = top(newest_first_keys(es), es.len() as int);
    Seq::new(t.len(), |a: int| es[t[a]].id@)
}

/// Count the entries dated strictly later than entry `i`.
fn count_later(es: &Vec<ModelEntry>, i: usize) -> (n: u64)
    requires
        i < es@.len(),
        es@.len() < u64::MAX,
    ensures
        n == later_count(es@, i as int),
{
    let mut n: u64 = 0;
    let mut j: usize = 0;
    let ghost mut s = Set::<int>::empty();
    while j < es.len()
        invariant
            i < es@.len(),
            es@.len() < u64::MAX,
            j <= es@.len(),
            s == Set::new(|q: int| 0 <= q < j && later(es@, q, i as int)),
            s.finite(),
            n == s.len(),
            n <= j,
        decreases es.len() - j,
    {
        let is_later = match (&es[j].created_at, &es[i].created_at) {
            (Some(dj), Some(di)) => str_less(di.as_str(), dj.as_str()),
            _ => false,
        };
        let ghost s0 = s;
        if is_later {
            proof {
                s = s.insert(j as int);
                assert(!s0.contains(j as int));
            }
            n = n + 1;
        }
        proof {
            assert(s =~= Set::new(|q: int| 0 <= q < j + 1 && later(es@, q, i as int)));
        }
        j = j + 1;
    }
    assert(s =~= Set::new(|q: int| 0 <= q < es@.len() && later(es@, q, i as int)));
    n
}

/// Sort model entries newest first by creation stamp (undated last, ties by
/// id) and return their ids in that order.
pub fn sort_ids_newest_first(entries: Vec<ModelEntry>) -> (r: Vec<String>)
    requires
        entries@.len() < u64::MAX,
    ensures
        strings_view(r@) == newest_first(entries@),
{
    let mut keys: Vec<(u64, u64, String)> = Vec::new();
    let mut i: usize = 0;
    while i < entries.len()
        invariant
            entries@.len() < u64::MAX,
            i <= entries@.len(),
            keys_view(keys@) == newest_first_keys(entries@).take(i as int),
        decreases entries.len() - i,
    {
        let dated: u64 = if entries[i].created_at.is_some() { 0 } else { 1 };
        let later = count_later(&entries, i);
        let id = copy_string(&entries[i].id);
        let ghost k0 = keys@;
        keys.push((dated, later, id));
        assert(keys_view(keys@) =~= keys_view(k0).push((dated, later, id@)));
        assert(newest_first_keys(entries@)[i as int] == (dated, later, id@));
        i = i + 1;
        assert(keys_view(keys@) =~= newest_first_keys(entries@).take(i as int));
    }
    assert(newest_first_keys(entries@).take(entries@.len() as int) =~= newest_first_keys(entries@));
    let t = select_smallest(&keys, entries.len());
    let mut out: Vec<String> = Vec::new();
    let mut a: usize = 0;
    while a < t.len()
        invariant
            is_top(keys_view(keys@), entries@.len() as int, usizes(t@)),
            usizes(t@) == top(newest_first_keys(entries@), entries@.len() as int),
            keys_view(keys@) == newest_first_keys(entries@),
            a <= t@.len(),
            strings_view(out@) == newest_first(entries@).take(a as int),
        decreases t.len() - a,
    {
        assert(usizes(t@)[a as int] == t@[a as int] as int);
        let id = copy_string(&entries[t[a]].id);
        let ghost o0 = out@;
        out.push(id);
        assert(strings_view(out@) =~= strings_view(o0).push(id@));
        assert(newest_first(entries@)[a as int] == id@);
        a = a + 1;
        assert(strings_view(out@) =~= newest_first(entries@).take(a as int));
    }
    assert(newest_first(entries@).take(t@.len() as int) =~= newest_first(entries@));
    out
}

/// The ids a passive listing serves after a fetch: the fetched ids when the
/// fetch succeeded with some, the fallback list otherwise; and whether the
/// fetched ids are to be cached.
pub fn listing_after_fetch(fetched: Result<Vec<String>, String>, vendor: &str) -> (r: (Vec<String>, bool))
    ensures
        match fetched {
            Ok(ids) => if ids@.len() > 0 {
                strings_view(r.0@) == strings_view(ids@) && r.1
            } else {
                strings_view(r.0@) == fallback_ids(vendor@) && !r.1
            },
            Err(_) => strings_view(r.0@) == fallback_ids(vendor@) && !r.1,
        },
{
    match fetched {
        Ok(ids) => if ids.len() > 0 {
            (ids, true)
        } else {
            (fallback_models(vendor), false)
        },
        Err(_) => (fallback_models(vendor), false),
    }
}

/// What a forced refresh answers: the fetched ids, or a user-facing error for
/// a missing key, an empty account or a failed fetch. `fetched` is None when
/// no fetch was made (no key).
pub fn refresh_outcome(fetched: Option<Result<Vec<String>, String>>) -> (r: Result<Vec<String>, String>)
    ensures
        match fetched {
            None => r matches Err(e) && e@ == "add your API key first to fetch the model list"@,
            Some(Ok(ids)) => if ids@.len() > 0 {
                r matches Ok(v) && strings_view(v@) == strings_view(ids@)
            } else {
                r matches Err(e) && e@ == "your account returned no available models"@
            },
            Some(Err(_)) => r matches Err(e) && e@
                == "could not refresh the model list — check your key and connection"@,
        },
{
    match fetched {
        None => Err(owned("add your API key first to fetch the model list")),
        Some(Ok(ids)) => if ids.len() > 0 {
            Ok(ids)
        } else {
            Err(owned("your account returned no available models"))
        },
        Some(Err(_)) => Err(owned("could not refresh the model list — check your key and connection")),
    }
}

proof fn lemma_later_set_finite(es: Seq<ModelEntry>, i: int)
    ensures
        Set::new(|j: int| 0 <= j < es.len() && later(es, j, i)).finite(),
{
    let s = Set::new(|j: int| 0 <= j < es.len() && later(es, j, i));
    vstd::set_lib::lemma_int_range(0, es.len() as int);
    assert(s.subset_of(vstd::set_lib::set_int_range(0, es.len() as int)));
    vstd::set_lib::lemma_len_subset(s, vstd::set_lib::set_int_range(0, es.len() as int));
}

/// An entry dated strictly later than another sorts strictly before it: the
/// ordering keys put newer models first.
pub proof fn lemma_later_sorts_first(es: Seq<ModelEntry>, a: int, b: int)
    requires
        0 <= a < es.len(),
        0 <= b < es.len(),
        later(es, a, b),
    ensures
        later_count(es, a) < later_count(es, b),
{
    let sa = Set::new(|j: int| 0 <= j < es.len() && later(es, j, a));
    let sb = Set::new(|j: int| 0 <= j < es.len() && later(es, j, b));
    lemma_later_set_finite(es, a);
    lemma_later_set_finite(es, b);
    let da = es[a].created_at->Some_0@;
    let db = es[b].created_at->Some_0@;
    assert(sa.subset_of(sb.remove(a))) by {
        assert forall|j: int| sa.contains(j) implies sb.remove(a).contains(j) by {
            let dj = es[j].created_at->Some_0@;
            crate::text::lemma_lex_transitive(db, da, dj);
            crate::text::lemma_lex_irreflexive(da);
        }
    }
    assert(sb.contains(a));
    vstd::set_lib::lemma_len_subset(sa, sb.remove(a));
}

/// Entries with the same stamp have the same key.
pub proof fn lemma_same_stamp_same_rank(es: Seq<ModelEntry>, a: int, b: int)
    requires
        0 <= a < es.len(),
        0 <= b < es.len(),
        es[a].created_at matches Some(x) && es[b].created_at matches Some(y) && x@ == y@,
    ensures
        later_count(es, a) == later_count(es, b),
{
    let sa = Set::new(|j: int| 0 <= j < es.len() && later(es, j, a));
    let sb = Set::new(|j: int| 0 <= j < es.len() && later(es, j, b));
    assert(sa =~= sb);
}

} // verus!
