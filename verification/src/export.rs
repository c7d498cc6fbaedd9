//! The rules of the user-data export: which settings leave the app (no
//! reserved `__` bookkeeping keys, nothing named like a credential), and the
//! redaction of free text that looks like a real filesystem path.
//!
//! Path detection targets path shapes, not loose substrings: well-known Unix
//! roots anywhere in the text, home- or cwd-relative prefixes, a `\Users\`
//! segment, and a Windows drive path (`C:\…` or `D:/…`) whose drive letter
//! stands at a word boundary and is followed by a real path segment ending
//! in a separator. Text is examined character by character; every character
//! the rules look at is ASCII, so this agrees with a byte-wise reading.

use vstd::prelude::*;

use crate::text::{chars_of, contains_seq, matches_at, owned, starts_with, str_contains, str_eq, str_starts_with};

verus! {

/// The text that replaces a redacted field.
pub const REDACTED_PATH: &'static str = "[redacted path]";

pub open spec fn is_ascii_alpha(c: char) -> bool {
    ('a' <= c && c <= 'z') || ('A' <= c && c <= 'Z')
}

pub open spec fn is_ascii_alnum(c: char) -> bool {
    is_ascii_alpha(c) || ('0' <= c && c <= '9')
}

/// A character that may appear in a path segment: `[A-Za-z0-9_. -]`.
pub open spec fn is_segment_char(c: char) -> bool {
    is_ascii_alnum(c) || c == '_' || c == '.' || c == ' ' || c == '-'
}

pub open spec fn is_separator(c: char) -> bool {
    c == '\\' || c == '/'
}

/// `rest` begins with a path segment: one or more segment characters, then a
/// separator.
pub open spec fn segment_follows(rest: Seq<char>) -> bool {
    exists|k: int|
        0 < k < rest.len() && is_separator(#[trigger] rest[k]) && forall|q: int|
            0 <= q < k ==> is_segment_char(#[trigger] rest[q])
}

/// A drive path starts at index `i`.
pub open spec fn drive_at(s: Seq<char>, i: int) -> bool {
    &&& 0 <= i
    &&& i + 2 < s.len()
    &&& is_ascii_alpha(s[i])
    &&& s[i + 1] == ':'
    &&& is_separator(s[i + 2])
    &&& (i == 0 || !is_ascii_alnum(s[i - 1]))
    &&& segment_follows(s.skip(i + 3))
}

/// The text holds a Windows drive path.
pub open spec fn has_drive_path(s: Seq<char>) -> bool {
    exists|i: int| #[trigger] drive_at(s, i)
}

/// The text looks like a real filesystem path.
pub open spec fn path_like(s: Seq<char>) -> bool {
    ||| contains_seq(s, "/Users/"@)
    ||| contains_seq(s, "/home/"@)
    ||| contains_seq(s, "/etc/"@)
    ||| contains_seq(s, "/var/"@)
    ||| contains_seq(s, "/tmp/"@)
    ||| contains_seq(s, "/private/"@)
    ||| contains_seq(s, "/opt/"@)
    ||| contains_seq(s, "/usr/"@)
    ||| contains_seq(s, "/Volumes/"@)
    ||| starts_with(s, "~/"@)
    ||| starts_with(s, "./"@)
    ||| starts_with(s, "../"@)
    ||| contains_seq(s, "\\Users\\"@)
    ||| has_drive_path(s)
}

fn ascii_alpha(c: char) -> (b: bool)
    ensures
        b == is_ascii_alpha(c),
{
    ('a' <= c && c <= 'z') || ('A' <= c && c <= 'Z')
}

fn ascii_alnum(c: char) -> (b: bool)
    ensures
        b == is_ascii_alnum(c),
{
    ascii_alpha(c) || ('0' <= c && c <= '9')
}

fn segment_char(c: char) -> (b: bool)
    ensures
        b == is_segment_char(c),
{
    ascii_alnum(c) || c == '_' || c == '.' || c == ' ' || c == '-'
}

/// Whether `v[from..]` begins with a path segment ending in a separator.
pub fn path_segment_follows(v: &Vec<char>, from: usize) -> (b: bool)
    requires
        from <= v@.len(),
    ensures
        b == segment_follows(v@.skip(from as int)),
{
    let ghost rest = v@.skip(from as int);
    let mut k: usize = from;
    while k < v.len() && segment_char(v[k])
        invariant
            rest == v@.skip(from as int),
            from <= k <= v@.len(),
            forall|q: int| 0 <= q < k - from ==> is_segment_char(#[trigger] rest[q]),
        decreases v.len() - k,
    {
        assert(rest[k - from] == v@[k as int]);
        k = k + 1;
    }
    let b = k > from && k < v.len() && (v[k] == '\\' || v[k] == '/');
    proof {
        if b {
            let w = (k - from) as int;
            assert(rest[w] == v@[k as int]);
            assert(0 < w < rest.len() && is_separator(rest[w]));
        } else if segment_follows(rest) {
            let w = choose|w: int|
                0 < w < rest.len() && is_separator(#[trigger] rest[w]) && forall|q: int|
                    0 <= q < w ==> is_segment_char(#[trigger] rest[q]);
            let m = (k - from) as int;
            if w < m {
                assert(is_segment_char(rest[w]));
            } else if w > m {
                assert(m < rest.len());
                assert(rest[m] == v@[k as int]);
                assert(is_segment_char(rest[m]));
            } else {
                assert(rest[w] == v@[k as int]);
            }
        }
    }
    b
}

/// Whether the text holds a Windows drive path (`C:\Users\…`, `D:/data/…`)
/// whose letter stands at a word boundary and is followed by a real segment.
pub fn has_windows_drive_path(s: &str) -> (b: bool)
    ensures
        b == has_drive_path(s@),
{
    let v = chars_of(s);
    if v.len() < 3 {
        assert forall|q: int| !#[trigger] drive_at(s@, q) by {}
        return false;
    }
    let lim = v.len() - 2;
    let mut i: usize = 0;
    while i < lim
        invariant
            v@ == s@,
            lim == v@.len() - 2,
            i <= lim,
            forall|q: int| 0 <= q < i ==> !#[trigger] drive_at(s@, q),
        decreases v.len() - i,
    {
        if ascii_alpha(v[i]) && v[i + 1] == ':' && (v[i + 2] == '\\' || v[i + 2] == '/') && (i == 0
            || !ascii_alnum(v[i - 1])) && path_segment_follows(&v, i + 3) {
            assert(drive_at(s@, i as int));
            return true;
        }
        i = i + 1;
    }
    assert forall|q: int| !#[trigger] drive_at(s@, q) by {
        if q >= i {
            assert(!(q + 2 < s@.len()));
        }
    }
    false
}

/// Whether the text looks like a real filesystem path that must not leave the
/// app.
pub fn looks_like_path(s: &str) -> (b: bool)
    ensures
        b == path_like(s@),
{
    str_contains(s, "/Users/") || str_contains(s, "/home/") || str_contains(s, "/etc/")
        || str_contains(s, "/var/") || str_contains(s, "/tmp/") || str_contains(s, "/private/")
        || str_contains(s, "/opt/") || str_contains(s, "/usr/") || str_contains(s, "/Volumes/")
        || str_starts_with(s, "~/") || str_starts_with(s, "./") || str_starts_with(s, "../")
        || str_contains(s, "\\Users\\") || has_windows_drive_path(s)
}

/// A field after redaction.
pub open spec fn scrubbed(s: Option<Seq<char>>) -> Option<Seq<char>> {
    match s {
        Some(v) => if path_like(v) {
            Some("[redacted path]"@)
        } else {
            Some(v)
        },
        None => None,
    }
}

/// Redact an optional free-text field that looks like a path.
pub fn scrub(s: Option<String>) -> (r: Option<String>)
    ensures
        match r {
            Some(v) => scrubbed(
                match s {
                    Some(x) => Some(x@),
                    None => None,
                },
            ) == Some(v@),
            None => s is None,
        },
{
    match s {
        Some(v) => if looks_like_path(v.as_str()) {
            Some(owned(REDACTED_PATH))
        } else {
            Some(v)
        },
        None => None,
    }
}

/// Redact a required free-text field that looks like a path.
pub fn scrub_text(s: String) -> (r: String)
    ensures
        r@ == (if path_like(s@) {
            "[redacted path]"@
        } else {
            s@
        }),
{
    if looks_like_path(s.as_str()) {
        owned(REDACTED_PATH)
    } else {
        s
    }
}

/// ASCII lowercase of a text.
pub open spec fn lowered(s: Seq<char>) -> Seq<char> {
    Seq::new(s.len(), |i: int| crate::grading::ascii_lower(s[i]))
}

fn to_ascii_lowercase(s: &str) -> (r: Vec<char>)
    ensures
        r@ == lowered(s@),
{
    let v = chars_of(s);
    let mut out: Vec<char> = Vec::new();
    let mut i: usize = 0;
    while i < v.len()
        invariant
            v@ == s@,
            i <= v@.len(),
            out@ == lowered(s@).take(i as int),
        decreases v.len() - i,
    {
        let c = v[i];
        let l = if 'A' <= c && c <= 'Z' {
            ((c as u32) + 32) as u8 as char
        } else {
            c
        };
        out.push(l);
        i = i + 1;
        assert(out@ =~= lowered(s@).take(i as int));
    }
    assert(lowered(s@).take(v@.len() as int) =~= lowered(s@));
    out
}

/// A settings key that may leave the app: not a reserved `__` key, and not
/// named like a credential (the harmless `api_key_present` flag is kept).
pub open spec fn exportable(key: Seq<char>) -> bool {
    if starts_with(key, "__"@) {
        false
    } else if key == "api_key_present"@ {
        true
    } else {
        let l = lowered(key);
        !(contains_seq(l, "api_key"@) || contains_seq(l, "token"@) || contains_seq(l, "secret"@)
            || contains_seq(l, "password"@) || contains_seq(l, "credential"@))
    }
}

/// Whether a settings key may be exported.
pub fn is_exportable_setting(key: &str) -> (b: bool)
    ensures
        b == exportable(key@),
{
    if str_starts_with(key, "__") {
        return false;
    }
    let lower = to_ascii_lowercase(key);
    if str_eq(key, "api_key_present") {
        return true;
    }
    let hints = [chars_of("api_key"), chars_of("token"), chars_of("secret"), chars_of("password"), chars_of("credential")];
    !(crate::text::contains_chars(&lower, &hints[0]) || crate::text::contains_chars(&lower, &hints[1])
        || crate::text::contains_chars(&lower, &hints[2]) || crate::text::contains_chars(&lower, &hints[3])
        || crate::text::contains_chars(&lower, &hints[4]))
}

/// One settings row as exported: dropped when its key may not leave the app,
/// its value redacted when it looks like a path.
pub fn export_setting(key: &str, value: String) -> (r: Option<(String, String)>)
    ensures
        match r {
            Some((k, v)) => exportable(key@) && k@ == key@ && v@ == (if path_like(value@) {
                "[redacted path]"@
            } else {
                value@
            }),
            None => !exportable(key@),
        },
{
    if !is_exportable_setting(key) {
        return None;
    }
    Some((owned(key), scrub_text(value)))
}

proof fn lemma_absent_char(t: Seq<char>, p: Seq<char>, c: char)
    requires
        forall|i: int| 0 <= i < t.len() ==> t[i] != c,
        p.contains(c),
    ensures
        !contains_seq(t, p),
        !starts_with(t, p),
{
    let k = choose|k: int| 0 <= k < p.len() && p[k] == c;
    if contains_seq(t, p) {
        let i = choose|i: int| crate::text::occurs_at(t, p, i);
        assert(t.subrange(i, i + p.len())[k] == c);
        assert(t[i + k] == c);
    }
    if starts_with(t, p) {
        assert(t.subrange(0, p.len() as int)[k] == c);
        assert(t[k] == c);
    }
}

/// What the scrub lets through never looks like a path: either the text was
/// not path-like, or it is the redaction marker, which is not one either.
pub proof fn lemma_scrub_leaves_no_path(s: Seq<char>)
    ensures
        scrubbed(Some(s)) matches Some(t) && !path_like(t),
{
    if path_like(s) {
        let t = "[redacted path]"@;
        reveal_strlit("[redacted path]");
        assert(forall|i: int| 0 <= i < t.len() ==> t[i] != '/' && t[i] != '\\' && t[i] != ':' && t[i] != '~');
        reveal_strlit("/Users/");
        reveal_strlit("/home/");
        reveal_strlit("/etc/");
        reveal_strlit("/var/");
        reveal_strlit("/tmp/");
        reveal_strlit("/private/");
        reveal_strlit("/opt/");
        reveal_strlit("/usr/");
        reveal_strlit("/Volumes/");
        reveal_strlit("~/");
        reveal_strlit("./");
        reveal_strlit("../");
        reveal_strlit("\\Users\\");
        assert("/Users/"@[0] == '/');
        lemma_absent_char(t, "/Users/"@, '/');
        assert("/home/"@[0] == '/');
        lemma_absent_char(t, "/home/"@, '/');
        assert("/etc/"@[0] == '/');
        lemma_absent_char(t, "/etc/"@, '/');
        assert("/var/"@[0] == '/');
        lemma_absent_char(t, "/var/"@, '/');
        assert("/tmp/"@[0] == '/');
        lemma_absent_char(t, "/tmp/"@, '/');
        assert("/private/"@[0] == '/');
        lemma_absent_char(t, "/private/"@, '/');
        assert("/opt/"@[0] == '/');
        lemma_absent_char(t, "/opt/"@, '/');
        assert("/usr/"@[0] == '/');
        lemma_absent_char(t, "/usr/"@, '/');
        assert("/Volumes/"@[0] == '/');
        lemma_absent_char(t, "/Volumes/"@, '/');
        assert("~/"@[1] == '/');
        lemma_absent_char(t, "~/"@, '/');
        assert("./"@[1] == '/');
        lemma_absent_char(t, "./"@, '/');
        assert("../"@[2] == '/');
        lemma_absent_char(t, "../"@, '/');
        assert("\\Users\\"@[0] == '\\');
        lemma_absent_char(t, "\\Users\\"@, '\\');
        assert forall|i: int| !#[trigger] drive_at(t, i) by {
            if 0 <= i && i + 2 < t.len() {
                assert(t[i + 1] != ':');
            }
        }
    }
}

} // verus!
