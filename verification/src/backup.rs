//! The daily database backup's decisions, made from the backup FILE NAMES
//! (never file times, which copies and restores rewrite): a backup is due when
//! none exists or the newest is a day old, and only the newest seven backups
//! are kept.

use vstd::prelude::*;

use crate::text::{
    chars_of, ends_with, lemma_lex_irreflexive, lemma_lex_total, lemma_lex_transitive, lex_lt,
    matches_at, slice_copy, starts_with, str_less, string_of,
};

verus! {

/// How many timestamped backups are kept.
pub const BACKUP_KEEP: usize = 7;

/// A backup is due once the newest one is this many seconds old.
pub const BACKUP_INTERVAL_SECS: i64 = 86_400;

/// The chrono format of the timestamp inside a backup's file name.
pub const STAMP_FORMAT: &'static str = "%Y%m%dT%H%M%SZ";

/// The seconds since the Unix epoch of `text` read as a UTC date-time in the
/// chrono format `fmt`; None when the text does not parse in that format.
pub uninterp spec fn datetime_seconds(text: Seq<char>, fmt: Seq<char>) -> Option<i64>;

/// `NaiveDateTime::parse_from_str(text, fmt)` taken as UTC, in Unix seconds.
#[verifier::external_body]
fn parse_datetime(text: &str, fmt: &str) -> (r: Option<i64>)
    ensures
        r == datetime_seconds(text@, fmt@),
{
    match chrono::NaiveDateTime::parse_from_str(text, fmt) {
        Ok(n) => Some(n.and_utc().timestamp()),
        Err(_) => None,
    }
}

/// The timestamp text of a backup file name `etta-backup-<stamp>.db`.
pub open spec fn stamp_text(name: Seq<char>) -> Option<Seq<char>> {
    if starts_with(name, "etta-backup-"@) && ends_with(name.skip(12), ".db"@) {
        Some(name.subrange(12, name.len() - 3))
    } else {
        None
    }
}

/// When a backup was taken, read from its file name.
pub open spec fn stamp_of(name: Seq<char>) -> Option<i64> {
    match stamp_text(name) {
        Some(t) => datetime_seconds(t, STAMP_FORMAT@),
        None => None,
    }
}

/// The Unix time a backup file name records, if it is a backup's name.
pub fn backup_stamp(file_name: &str) -> (r: Option<i64>)
    ensures
        r == stamp_of(file_name@),
{
    proof {
        reveal_strlit("etta-backup-");
        reveal_strlit(".db");
    }
    let v = chars_of(file_name);
    let prefix = chars_of("etta-backup-");
    let suffix = chars_of(".db");
    if !matches_at(&v, &prefix, 0) {
        return None;
    }
    let rest = slice_copy(&v, 12, v.len());
    assert(rest@ =~= file_name@.skip(12));
    if rest.len() < 3 || !matches_at(&rest, &suffix, rest.len() - 3) {
        return None;
    }
    let stamp = slice_copy(&v, 12, v.len() - 3);
    assert(stamp@ =~= file_name@.subrange(12, file_name@.len() - 3));
    let text = string_of(stamp.as_slice());
    parse_datetime(text.as_str(), STAMP_FORMAT)
}

/// The newest backup time among the first `n` names.
pub open spec fn newest_among(names: Seq<Seq<char>>, n: int) -> Option<i64>
    decreases n,
{
    if n <= 0 {
        None
    } else {
        match (newest_among(names, n - 1), stamp_of(names[n - 1])) {
            (Some(a), Some(b)) => Some(if a >= b { a } else { b }),
            (Some(a), None) => Some(a),
            (None, b) => b,
        }
    }
}

pub open spec fn names_view(names: Seq<String>) -> Seq<Seq<char>> {
    Seq::new(names.len(), |i: int| names[i]@)
}

/// The newest backup time among a directory's file names.
pub fn latest_backup_time(names: &[String]) -> (r: Option<i64>)
    ensures
        r == newest_among(names_view(names@), names@.len() as int),
{
    let mut best: Option<i64> = None;
    let mut i: usize = 0;
    while i < names.len()
        invariant
            i <= names@.len(),
            best == newest_among(names_view(names@), i as int),
        decreases names.len() - i,
    {
        let s = backup_stamp(names[i].as_str());
        best = match (best, s) {
            (Some(a), Some(b)) => Some(if a >= b { a } else { b }),
            (Some(a), None) => Some(a),
            (None, b) => b,
        };
        i = i + 1;
    }
    best
}

/// Whether a backup is due at `now` (Unix seconds): none exists yet, or the
/// newest is at least a day old.
pub open spec fn backup_due(names: Seq<Seq<char>>, now: i64) -> bool {
    match newest_among(names, names.len() as int) {
        None => true,
        Some(t) => now - t >= BACKUP_INTERVAL_SECS,
    }
}

/// Decide from a directory's file names whether to write a backup at `now`.
pub fn needs_backup(names: &[String], now: i64) -> (b: bool)
    ensures
        b == backup_due(names_view(names@), now),
{
    match latest_backup_time(names) {
        None => true,
        Some(t) => (now as i128) - (t as i128) >= BACKUP_INTERVAL_SECS as i128,
    }
}

/// How many backup names of `names` sort after `x`.
pub open spec fn newer_backups(names: Seq<Seq<char>>, x: Seq<char>, n: int) -> nat
    decreases n,
{
    if n <= 0 {
        0
    } else {
        newer_backups(names, x, n - 1) + if stamp_of(names[n - 1]) is Some && lex_lt(x, names[n - 1]) {
            1nat
        } else {
            0nat
        }
    }
}

/// Whether a name is an old backup to delete: a backup with at least
/// `BACKUP_KEEP` backups sorting after it (names of one directory are
/// distinct, so these are all but the newest seven).
pub open spec fn is_stale_backup(names: Seq<Seq<char>>, x: Seq<char>) -> bool {
    stamp_of(x) is Some && newer_backups(names, x, names.len() as int) >= BACKUP_KEEP
}

/// The old backups among the first `n` names, in order.
pub open spec fn stale_prefix(names: Seq<Seq<char>>, n: int) -> Seq<Seq<char>>
    decreases n,
{
    if n <= 0 {
        Seq::empty()
    } else if is_stale_backup(names, names[n - 1]) {
        stale_prefix(names, n - 1).push(names[n - 1])
    } else {
        stale_prefix(names, n - 1)
    }
}

fn count_newer(names: &[String], x: &str) -> (c: usize)
    ensures
        c == newer_backups(names_view(names@), x@, names@.len() as int),
{
    let mut c: usize = 0;
    let mut j: usize = 0;
    while j < names.len()
        invariant
            j <= names@.len(),
            c == newer_backups(names_view(names@), x@, j as int),
            c <= j,
        decreases names.len() - j,
    {
        if backup_stamp(names[j].as_str()).is_some() && str_less(x, names[j].as_str()) {
            c = c + 1;
        }
        j = j + 1;
    }
    c
}

/// The backups to delete so that only the newest `BACKUP_KEEP` remain, in
/// the order the names were listed.
pub fn backups_to_prune(names: &[String]) -> (r: Vec<String>)
    ensures
        names_view(r@) == stale_prefix(names_view(names@), names@.len() as int),
{
    let ghost nv = names_view(names@);
    let mut out: Vec<String> = Vec::new();
    let mut i: usize = 0;
    while i < names.len()
        invariant
            nv == names_view(names@),
            i <= names@.len(),
            names_view(out@) == stale_prefix(nv, i as int),
        decreases names.len() - i,
    {
        let name = names[i].as_str();
        if backup_stamp(name).is_some() && count_newer(names, name) >= BACKUP_KEEP {
            let ghost o0 = out@;
            out.push(crate::contract::copy_string(&names[i]));
            assert(names_view(out@) =~= names_view(o0).push(nv[i as int]));
        }
        i = i + 1;
    }
    out
}

/// The `j`-th name is a backup that pruning keeps.
pub open spec fn kept_at(names: Seq<Seq<char>>, j: int) -> bool {
    stamp_of(names[j]) is Some && !is_stale_backup(names, names[j])
}

/// How many of the first `n` names are backups that pruning keeps.
pub open spec fn kept_count(names: Seq<Seq<char>>, n: int) -> nat
    decreases n,
{
    if n <= 0 {
        0
    } else {
        kept_count(names, n - 1) + if kept_at(names, n - 1) {
            1nat
        } else {
            0nat
        }
    }
}

/// How many of the first `n` names are kept backups sorting after `x`.
spec fn kept_above(names: Seq<Seq<char>>, x: Seq<char>, n: int) -> nat
    decreases n,
{
    if n <= 0 {
        0
    } else {
        kept_above(names, x, n - 1) + if kept_at(names, n - 1) && lex_lt(x, names[n - 1]) {
            1nat
        } else {
            0nat
        }
    }
}

proof fn lemma_kept_above_bounded(names: Seq<Seq<char>>, x: Seq<char>, n: int)
    requires
        n <= names.len(),
    ensures
        kept_above(names, x, n) <= newer_backups(names, x, n),
    decreases n,
{
    if n > 0 {
        lemma_kept_above_bounded(names, x, n - 1);
    }
}

proof fn lemma_none_kept(names: Seq<Seq<char>>, n: int)
    requires
        kept_count(names, n) == 0,
    ensures
        forall|j: int| 0 <= j < n ==> !#[trigger] kept_at(names, j),
    decreases n,
{
    if n > 0 {
        lemma_none_kept(names, n - 1);
    }
}

/// The index of the kept backup that sorts first among the first `n` names.
proof fn lemma_first_kept(names: Seq<Seq<char>>, n: int) -> (k: int)
    requires
        kept_count(names, n) > 0,
    ensures
        0 <= k < n,
        kept_at(names, k),
        forall|j: int|
            0 <= j < n && #[trigger] kept_at(names, j) ==> names[j] == names[k] || lex_lt(
                names[k],
                names[j],
            ),
    decreases n,
{
    if kept_count(names, n - 1) > 0 {
        let k0 = lemma_first_kept(names, n - 1);
        if kept_at(names, n - 1) && lex_lt(names[n - 1], names[k0]) {
            assert forall|j: int| 0 <= j < n && #[trigger] kept_at(names, j) implies names[j]
                == names[n - 1] || lex_lt(names[n - 1], names[j]) by {
                if j < n - 1 && names[j] != names[k0] {
                    lemma_lex_transitive(names[n - 1], names[k0], names[j]);
                }
            }
            n - 1
        } else {
            if kept_at(names, n - 1) {
                lemma_lex_total(names[n - 1], names[k0]);
            }
            k0
        }
    } else {
        lemma_none_kept(names, n - 1);
        n - 1
    }
}

proof fn lemma_kept_above_first(names: Seq<Seq<char>>, k: int, n: int)
    requires
        0 <= k < names.len(),
        0 <= n <= names.len(),
        kept_at(names, k),
        forall|i: int, j: int| 0 <= i < j < names.len() ==> names[i] != names[j],
        forall|j: int|
            0 <= j < names.len() && #[trigger] kept_at(names, j) ==> names[j] == names[k]
                || lex_lt(names[k], names[j]),
    ensures
        kept_above(names, names[k], n) + (if k < n {
            1int
        } else {
            0int
        }) == kept_count(names, n),
    decreases n,
{
    if n > 0 {
        lemma_kept_above_first(names, k, n - 1);
        lemma_lex_irreflexive(names[k]);
        if kept_at(names, n - 1) && n - 1 != k {
            assert(names[n - 1] != names[k]);
        }
    }
}

/// Pruning leaves at most `BACKUP_KEEP` backups: among the distinct names of
/// one directory, no more than seven backups escape deletion.
pub proof fn lemma_pruning_keeps_at_most_seven(names: Seq<Seq<char>>)
    requires
        forall|i: int, j: int| 0 <= i < j < names.len() ==> names[i] != names[j],
    ensures
        kept_count(names, names.len() as int) <= BACKUP_KEEP,
{
    let n = names.len() as int;
    if kept_count(names, n) > BACKUP_KEEP {
        let k = lemma_first_kept(names, n);
        lemma_kept_above_first(names, k, n);
        lemma_kept_above_bounded(names, names[k], n);
    }
}

} // verus!
