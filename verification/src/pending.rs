//! Graded quizzes whose persist failed, held server-side under one-shot
//! tokens: a retry takes the entry out (a second take finds nothing), and a
//! failed retry puts it back under the same token. Tokens are the first 16
//! bytes of a SHA-256 over a per-store counter, the wall-clock time and the
//! concept id, in lowercase hex.

use sha2::Digest;
use vstd::prelude::*;
use vstd::string::StringSliceAdditionalSpecFns;
use vstd::utf8::encode_utf8;

use crate::text::{owned, str_eq, string_of};

verus! {

/// The SHA-256 digest of a byte string (as `sha2::Sha256` computes it).
pub uninterp spec fn sha256(data: Seq<u8>) -> Seq<u8>;

/// `sha2::Sha256::digest(data)`: the 32-byte digest.
#[verifier::external_body]
fn sha256_digest(data: &[u8]) -> (r: Vec<u8>)
    ensures
        r@ == sha256(data@),
        r@.len() == 32,
{
    sha2::Sha256::digest(data).to_vec()
}

/// Nanoseconds since the Unix epoch by the wall clock (None when the clock
/// reads before the epoch). It depends on when it is called, so nothing is
/// stated of its value.
#[verifier::external_body]
fn unix_nanos() -> Option<u128> {
    match std::time::SystemTime::now().duration_since(std::time::UNIX_EPOCH) {
        Ok(d) => Some(d.as_nanos()),
        Err(_) => None,
    }
}

/// The `k` low bytes of `n`, least significant first.
pub open spec fn le_bytes(n: nat, k: nat) -> Seq<u8>
    decreases k,
{
    if k == 0 {
        Seq::empty()
    } else {
        seq![(n % 256) as u8] + le_bytes(n / 256, (k - 1) as nat)
    }
}

/// The lowercase hex digit of `d` (below 16).
pub open spec fn hex_digit(d: nat) -> char {
    if d < 10 {
        (48 + d) as char
    } else {
        (87 + d) as char
    }
}

/// Two lowercase hex digits per byte, in order.
pub open spec fn hex_of(b: Seq<u8>) -> Seq<char>
    decreases b.len(),
{
    if b.len() == 0 {
        Seq::empty()
    } else {
        hex_of(b.drop_last()) + seq![hex_digit(b.last() as nat / 16), hex_digit(b.last() as nat % 16)]
    }
}

/// The token of the `counter`-th stash of `concept_id` at wall-clock `nanos`.
pub open spec fn token_text(counter: u64, nanos: u128, concept_id: Seq<char>) -> Seq<char> {
    hex_of(sha256(le_bytes(counter as nat, 8) + le_bytes(nanos as nat, 16) + encode_utf8(concept_id)).take(16))
}

fn push_le_bytes(out: &mut Vec<u8>, n: u128, k: usize)
    requires
        k <= 16,
    ensures
        final(out)@ == old(out)@ + le_bytes(n as nat, k as nat),
{
    let ghost start = out@;
    let mut x: u128 = n;
    let mut i: usize = 0;
    while i < k
        invariant
            i <= k <= 16,
            out@ + le_bytes(x as nat, (k - i) as nat) == start + le_bytes(n as nat, k as nat),
        decreases k - i,
    {
        let ghost before = out@;
        out.push((x % 256) as u8);
        proof {
            assert(le_bytes(x as nat, (k - i) as nat) == seq![(x % 256) as u8] + le_bytes(
                (x / 256) as nat,
                (k - i - 1) as nat,
            ));
            assert(out@ + le_bytes((x / 256) as nat, (k - i - 1) as nat) =~= before + le_bytes(
                x as nat,
                (k - i) as nat,
            ));
        }
        x = x / 256;
        i = i + 1;
    }
    assert(out@ =~= out@ + le_bytes(x as nat, 0));
}

fn hex_char(d: u8) -> (c: char)
    requires
        d < 16,
    ensures
        c == hex_digit(d as nat),
{
    if d < 10 {
        (48 + d) as char
    } else {
        (87 + d) as char
    }
}

fn hex_prefix(b: &Vec<u8>, n: usize) -> (r: String)
    requires
        n <= b@.len(),
    ensures
        r@ == hex_of(b@.take(n as int)),
{
    let mut out: Vec<char> = Vec::new();
    let mut i: usize = 0;
    while i < n
        invariant
            i <= n <= b@.len(),
            out@ == hex_of(b@.take(i as int)),
        decreases n - i,
    {
        let x = b[i];
        out.push(hex_char(x / 16));
        out.push(hex_char(x % 16));
        proof {
            assert(b@.take(i + 1).drop_last() =~= b@.take(i as int));
            assert(b@.take(i + 1).last() == x);
        }
        i = i + 1;
    }
    string_of(out.as_slice())
}

/// The store of graded-but-unpersisted quizzes, keyed by token. A token
/// occurs at most once.
pub struct PendingPersists<T> {
    entries: Vec<(String, T)>,
    counter: u64,
}

impl<T> PendingPersists<T> {
    /// The held entries: token to entry.
    pub closed spec fn view(&self) -> Map<Seq<char>, T> {
        Map::new(
            |k: Seq<char>| exists|i: int| 0 <= i < self.entries@.len() && self.entries@[i].0@ == k,
            |k: Seq<char>|
                self.entries@[choose|i: int| 0 <= i < self.entries@.len() && self.entries@[i].0@ == k].1,
        )
    }

    /// How many tokens the store has issued (modulo 2^64).
    pub closed spec fn issued(&self) -> u64 {
        self.counter
    }

    /// Tokens are unique.
    pub closed spec fn wf(&self) -> bool {
        forall|i: int, j: int|
            0 <= i < j < self.entries@.len() ==> self.entries@[i].0@ != self.entries@[j].0@
    }

    proof fn lemma_view_at(&self, i: int)
        requires
            self.wf(),
            0 <= i < self.entries@.len(),
        ensures
            self.view().contains_key(self.entries@[i].0@),
            self.view()[self.entries@[i].0@] == self.entries@[i].1,
    {
        let k = self.entries@[i].0@;
        let j = choose|j: int| 0 <= j < self.entries@.len() && self.entries@[j].0@ == k;
        if j != i {
            if j < i {
                assert(self.entries@[j].0@ != self.entries@[i].0@);
            } else {
                assert(self.entries@[i].0@ != self.entries@[j].0@);
            }
        }
    }

    /// An empty store.
    pub fn new() -> (s: Self)
        ensures
            s.wf(),
            s.view() == Map::<Seq<char>, T>::empty(),
            s.issued() == 0,
    {
        let s = PendingPersists { entries: Vec::new(), counter: 0 };
        assert(s.view() =~= Map::<Seq<char>, T>::empty());
        s
    }

    fn position(&self, token: &str) -> (r: Option<usize>)
        requires
            self.wf(),
        ensures
            match r {
                Some(i) => i < self.entries@.len() && self.entries@[i as int].0@ == token@,
                None => !self.view().contains_key(token@),
            },
    {
        let mut i: usize = 0;
        while i < self.entries.len()
            invariant
                i <= self.entries@.len(),
                forall|j: int| 0 <= j < i ==> self.entries@[j].0@ != token@,
            decreases self.entries.len() - i,
        {
            if str_eq(self.entries[i].0.as_str(), token) {
                return Some(i);
            }
            i = i + 1;
        }
        None
    }

    /// Hold `entry` under `token` (replacing what the token held).
    pub fn put_back(&mut self, token: &str, entry: T)
        requires
            old(self).wf(),
        ensures
            final(self).wf(),
            final(self).view() == old(self).view().insert(token@, entry),
            final(self).issued() == old(self).issued(),
    {
        let ghost before = *self;
        let ghost ev = entry;
        match self.position(token) {
            Some(i) => {
                self.entries.set(i, (owned(token), entry));
                proof {
                    assert forall|a: int, b: int|
                        0 <= a < b < self.entries@.len() implies self.entries@[a].0@
                        != self.entries@[b].0@ by {
                        assert(self.entries@[a].0@ == before.entries@[a].0@);
                        assert(self.entries@[b].0@ == before.entries@[b].0@);
                    }
                    assert forall|k: Seq<char>| #![auto] self.view().contains_key(k) == before.view().insert(
                        token@,
                        ev,
                    ).contains_key(k) by {
                        if exists|j: int| 0 <= j < before.entries@.len() && before.entries@[j].0@ == k {
                            let j = choose|j: int| 0 <= j < before.entries@.len() && before.entries@[j].0@ == k;
                            assert(self.entries@[j].0@ == before.entries@[j].0@);
                        }
                        if exists|j: int| 0 <= j < self.entries@.len() && self.entries@[j].0@ == k {
                            let j = choose|j: int| 0 <= j < self.entries@.len() && self.entries@[j].0@ == k;
                            assert(self.entries@[j].0@ == before.entries@[j].0@);
                        }
                    }
                    assert forall|k: Seq<char>| #[trigger] self.view().contains_key(k) implies self.view()[k]
                        == before.view().insert(token@, ev)[k] by {
                        let j = choose|j: int| 0 <= j < self.entries@.len() && self.entries@[j].0@ == k;
                        self.lemma_view_at(j);
                        if j != i {
                            assert(self.entries@[j] == before.entries@[j]);
                            before.lemma_view_at(j);
                        }
                    }
                    assert(self.view() =~= before.view().insert(token@, ev));
                }
            },
            None => {
                self.entries.push((owned(token), entry));
                let n = self.entries.len();
                proof {
                    assert forall|a: int, b: int|
                        0 <= a < b < self.entries@.len() implies self.entries@[a].0@
                        != self.entries@[b].0@ by {
                        if b == n - 1 {
                            if self.entries@[a].0@ == token@ {
                                assert(before.entries@[a].0@ == token@);
                            }
                        } else {
                            assert(before.entries@[a] == self.entries@[a]);
                            assert(before.entries@[b] == self.entries@[b]);
                        }
                    }
                    assert forall|k: Seq<char>| #![auto] self.view().contains_key(k) == before.view().insert(
                        token@,
                        ev,
                    ).contains_key(k) by {
                        if exists|i: int| 0 <= i < before.entries@.len() && before.entries@[i].0@ == k {
                            let i = choose|i: int| 0 <= i < before.entries@.len() && before.entries@[i].0@ == k;
                            assert(self.entries@[i] == before.entries@[i]);
                        }
                        if exists|i: int| 0 <= i < self.entries@.len() && self.entries@[i].0@ == k {
                            let i = choose|i: int| 0 <= i < self.entries@.len() && self.entries@[i].0@ == k;
                            if i < n - 1 {
                                assert(self.entries@[i] == before.entries@[i]);
                            }
                        }
                        if k == token@ {
                            assert(self.entries@[n - 1].0@ == k);
                        }
                    }
                    assert forall|k: Seq<char>| #[trigger] self.view().contains_key(k) implies self.view()[k]
                        == before.view().insert(token@, ev)[k] by {
                        let i = choose|i: int| 0 <= i < self.entries@.len() && self.entries@[i].0@ == k;
                        self.lemma_view_at(i);
                        if i < n - 1 {
                            assert(self.entries@[i] == before.entries@[i]);
                            before.lemma_view_at(i);
                        }
                    }
                    assert(self.view() =~= before.view().insert(token@, ev));
                }
            },
        }
    }

    /// Take the entry a token holds out of the store: one-shot, so a second
    /// take of the same token finds nothing.
    pub fn take(&mut self, token: &str) -> (r: Option<T>)
        requires
            old(self).wf(),
        ensures
            final(self).wf(),
            final(self).view() == old(self).view().remove(token@),
            final(self).issued() == old(self).issued(),
            r == (if old(self).view().contains_key(token@) {
                Some(old(self).view()[token@])
            } else {
                None
            }),
    {
        match self.position(token) {
            Some(i) => {
                let ghost before = *self;
                proof {
                    before.lemma_view_at(i as int);
                }
                let (_, entry) = self.entries.remove(i);
                proof {
                    assert forall|a: int, b: int|
                        0 <= a < b < self.entries@.len() implies self.entries@[a].0@
                        != self.entries@[b].0@ by {
                        let a2 = if a < i { a } else { a + 1 };
                        let b2 = if b < i { b } else { b + 1 };
                        assert(self.entries@[a] == before.entries@[a2]);
                        assert(self.entries@[b] == before.entries@[b2]);
                    }
                    assert forall|k: Seq<char>| #![auto] self.view().contains_key(k) == before.view().remove(
                        token@,
                    ).contains_key(k) by {
                        if exists|j: int| 0 <= j < before.entries@.len() && before.entries@[j].0@ == k {
                            let j = choose|j: int| 0 <= j < before.entries@.len() && before.entries@[j].0@ == k;
                            if j < i {
                                assert(self.entries@[j] == before.entries@[j]);
                            } else if j > i {
                                assert(self.entries@[j - 1] == before.entries@[j]);
                            } else {
                                assert(k == token@);
                            }
                        }
                        if exists|j: int| 0 <= j < self.entries@.len() && self.entries@[j].0@ == k {
                            let j = choose|j: int| 0 <= j < self.entries@.len() && self.entries@[j].0@ == k;
                            let j2 = if j < i { j } else { j + 1 };
                            assert(self.entries@[j] == before.entries@[j2]);
                            if k == token@ {
                                assert(before.entries@[i as int].0@ == before.entries@[j2].0@);
                            }
                        }
                    }
                    assert forall|k: Seq<char>| #[trigger] self.view().contains_key(k) implies self.view()[k]
                        == before.view().remove(token@)[k] by {
                        let j = choose|j: int| 0 <= j < self.entries@.len() && self.entries@[j].0@ == k;
                        self.lemma_view_at(j);
                        let j2 = if j < i { j } else { j + 1 };
                        assert(self.entries@[j] == before.entries@[j2]);
                        before.lemma_view_at(j2);
                    }
                    assert(self.view() =~= before.view().remove(token@));
                }
                Some(entry)
            },
            None => {
                assert(self.view() =~= self.view().remove(token@));
                None
            },
        }
    }

    /// A fresh token for a stash of `concept_id`: the counter advances by one.
    fn make_token(&mut self, concept_id: &str) -> (t: String)
        ensures
            final(self).entries == old(self).entries,
            final(self).counter == old(self).counter.wrapping_add(1),
            exists|nanos: u128| t@ == token_text(old(self).counter, nanos, concept_id@),
            t@.len() == 32,
    {
        let n = self.counter;
        self.counter = n.wrapping_add(1);
        let nanos: u128 = match unix_nanos() {
            Some(t) => t,
            None => 0,
        };
        let mut data: Vec<u8> = Vec::new();
        push_le_bytes(&mut data, n as u128, 8);
        push_le_bytes(&mut data, nanos, 16);
        let id_bytes = concept_id.as_bytes();
        let mut i: usize = 0;
        let ghost head = data@;
        while i < id_bytes.len()
            invariant
                i <= id_bytes@.len(),
                data@ == head + id_bytes@.take(i as int),
            decreases id_bytes.len() - i,
        {
            data.push(id_bytes[i]);
            i = i + 1;
            assert(data@ =~= head + id_bytes@.take(i as int));
        }
        assert(id_bytes@.take(id_bytes@.len() as int) =~= id_bytes@);
        assert(id_bytes@ == concept_id.spec_bytes());
        let digest = sha256_digest(data.as_slice());
        let t = hex_prefix(&digest, 16);
        proof {
            assert(t@ == token_text(n, nanos, concept_id@));
            lemma_hex_len(digest@.take(16));
        }
        t
    }

    /// Stash a graded quiz under a fresh token, returned.
    pub fn stash(&mut self, concept_id: &str, entry: T) -> (t: String)
        requires
            old(self).wf(),
        ensures
            final(self).wf(),
            final(self).view() == old(self).view().insert(t@, entry),
            final(self).issued() == old(self).issued().wrapping_add(1),
            exists|nanos: u128| t@ == token_text(old(self).issued(), nanos, concept_id@),
            t@.len() == 32,
    {
        let t = self.make_token(concept_id);
        self.put_back(t.as_str(), entry);
        t
    }
}

proof fn lemma_hex_len(b: Seq<u8>)
    ensures
        hex_of(b).len() == 2 * b.len(),
    decreases b.len(),
{
    if b.len() > 0 {
        lemma_hex_len(b.drop_last());
    }
}

/// A stashed entry is what taking its token gives back, and taking a token
/// leaves nothing behind under it: a second take finds nothing.
pub proof fn lemma_stash_take_one_shot<T>(held: Map<Seq<char>, T>, token: Seq<char>, entry: T)
    ensures
        held.insert(token, entry).contains_key(token),
        held.insert(token, entry)[token] == entry,
        !held.insert(token, entry).remove(token).contains_key(token),
        held.insert(token, entry).remove(token) == held.remove(token),
{
    assert(held.insert(token, entry).remove(token) =~= held.remove(token));
}

} // verus!
