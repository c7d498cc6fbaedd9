//! Typed settings: the allowlist of user-facing keys, each key's accepted
//! values, the defaults of a first launch, and the typed reading of stored
//! text (an integer setting reads back as an integer, not a string).

use vstd::prelude::*;

use crate::contract::AppSettings;
use crate::models::{model_id, vendor_model};
use crate::text::{chars_of, concat2, debug_quoted, debug_str, owned, push_str, str_eq, string_of, trim, trim_chars};
use crate::validate::is_digit_ascii;

verus! {

/// Whether a key is one of the user-facing settings.
pub open spec fn is_allowed_key(k: Seq<char>) -> bool {
    ||| k == "daily_goal_minutes"@
    ||| k == "theme"@
    ||| k == "base_model"@
    ||| k == "reasoning_model"@
    ||| k == "api_key_present"@
    ||| k == "notifications_enabled"@
    ||| k == "new_concepts_per_session"@
}

/// The allowlist of user-facing settings keys.
pub fn allowed_keys() -> (r: Vec<&'static str>)
    ensures
        forall|k: Seq<char>| is_allowed_key(k) <==> exists|i: int| 0 <= i < r@.len() && #[trigger] r@[i]@ == k,
{
    let v = vec![
        "daily_goal_minutes",
        "theme",
        "base_model",
        "reasoning_model",
        "api_key_present",
        "notifications_enabled",
        "new_concepts_per_session",
    ];
    assert forall|k: Seq<char>| is_allowed_key(k) implies exists|i: int| 0 <= i < v@.len() && #[trigger] v@[i]@ == k by {
        if k == "daily_goal_minutes"@ {
            assert(v@[0]@ == k);
        } else if k == "theme"@ {
            assert(v@[1]@ == k);
        } else if k == "base_model"@ {
            assert(v@[2]@ == k);
        } else if k == "reasoning_model"@ {
            assert(v@[3]@ == k);
        } else if k == "api_key_present"@ {
            assert(v@[4]@ == k);
        } else if k == "notifications_enabled"@ {
            assert(v@[5]@ == k);
        } else {
            assert(v@[6]@ == k);
        }
    }
    v
}

fn allowed(key: &str) -> (b: bool)
    ensures
        b == is_allowed_key(key@),
{
    str_eq(key, "daily_goal_minutes") || str_eq(key, "theme") || str_eq(key, "base_model") || str_eq(
        key,
        "reasoning_model",
    ) || str_eq(key, "api_key_present") || str_eq(key, "notifications_enabled") || str_eq(
        key,
        "new_concepts_per_session",
    )
}

/// Reject a key that is not on the allowlist.
pub fn ensure_allowed(key: &str) -> (r: Result<(), String>)
    ensures
        r is Ok <==> is_allowed_key(key@),
        r matches Err(e) ==> e@ == "unknown setting key: "@ + key@,
{
    if allowed(key) {
        Ok(())
    } else {
        Err(concat2("unknown setting key: ", key))
    }
}

// ---- Integers as `str::parse::<i64>` reads them ----

/// The value of a run of decimal digits.
pub open spec fn digits_value(s: Seq<char>) -> int
    decreases s.len(),
{
    if s.len() == 0 {
        0
    } else {
        digits_value(s.drop_last()) * 10 + ((s.last() as u32) as int - 48)
    }
}

/// The text after an optional leading `+` or `-`.
pub open spec fn unsigned_part(s: Seq<char>) -> Seq<char> {
    if s.len() > 0 && (s[0] == '-' || s[0] == '+') {
        s.drop_first()
    } else {
        s
    }
}

/// Every character is an ASCII digit.
pub open spec fn all_ascii_digits(s: Seq<char>) -> bool {
    forall|i: int| 0 <= i < s.len() ==> is_digit_ascii(#[trigger] s[i])
}

/// The signed value of an optionally signed run of digits.
pub open spec fn signed_value(s: Seq<char>) -> int {
    if s.len() > 0 && s[0] == '-' {
        -digits_value(unsigned_part(s))
    } else {
        digits_value(unsigned_part(s))
    }
}

/// An optional `+` or `-`, then one or more ASCII digits, whose value fits an
/// `i64` (what `i64::from_str` accepts).
pub open spec fn parsed_i64(s: Seq<char>) -> Option<i64> {
    if unsigned_part(s).len() == 0 || !all_ascii_digits(unsigned_part(s)) {
        None
    } else if i64::MIN <= signed_value(s) <= i64::MAX {
        Some(signed_value(s) as i64)
    } else {
        None
    }
}

proof fn lemma_digits_value_nonneg(s: Seq<char>)
    requires
        forall|i: int| 0 <= i < s.len() ==> is_digit_ascii(#[trigger] s[i]),
    ensures
        digits_value(s) >= 0,
    decreases s.len(),
{
    if s.len() > 0 {
        assert(is_digit_ascii(s[s.len() - 1]));
        let t = s.drop_last();
        assert forall|i: int| 0 <= i < t.len() implies is_digit_ascii(#[trigger] t[i]) by {
            assert(t[i] == s[i]);
        }
        lemma_digits_value_nonneg(t);
    }
}

fn ascii_digit(c: char) -> (b: bool)
    ensures
        b == is_digit_ascii(c),
{
    let u = c as u32;
    48 <= u && u <= 57
}

/// The largest magnitude an `i64` holds (that of `i64::MIN`).
pub const MAGNITUDE_BOUND: u128 = 9_223_372_036_854_775_808;

/// Read the digits of `v[start..]`: None when one is not an ASCII digit,
/// else their value, capped at one past `MAGNITUDE_BOUND`.
fn digits_of(v: &Vec<char>, start: usize) -> (r: Option<u128>)
    requires
        start <= v@.len(),
    ensures
        match r {
            None => !(forall|q: int| 0 <= q < v@.skip(start as int).len() ==> is_digit_ascii(#[trigger] v@.skip(start as int)[q])),
            Some(a) => {
                &&& forall|q: int| 0 <= q < v@.skip(start as int).len() ==> is_digit_ascii(#[trigger] v@.skip(start as int)[q])
                &&& a <= MAGNITUDE_BOUND ==> a == digits_value(v@.skip(start as int))
                &&& a > MAGNITUDE_BOUND ==> digits_value(v@.skip(start as int)) > MAGNITUDE_BOUND
            },
        },
{
    let ghost body = v@.skip(start as int);
    let mut acc: u128 = 0;
    let mut i: usize = start;
    while i < v.len()
        invariant
            body == v@.skip(start as int),
            start <= i <= v@.len(),
            forall|q: int| 0 <= q < i - start ==> is_digit_ascii(#[trigger] body[q]),
            acc <= MAGNITUDE_BOUND + 1,
            acc <= MAGNITUDE_BOUND ==> acc == digits_value(body.take(i - start)),
            acc > MAGNITUDE_BOUND ==> digits_value(body.take(i - start)) > MAGNITUDE_BOUND,
        decreases v.len() - i,
    {
        let c = v[i];
        assert(body[i - start] == c);
        if !ascii_digit(c) {
            assert(!is_digit_ascii(body[(i - start) as int]));
            return None;
        }
        let d = (c as u32 - 48) as u128;
        let ghost pre = body.take(i - start);
        assert(body.take(i - start + 1).drop_last() =~= pre);
        assert(body.take(i - start + 1).last() == c);
        proof {
            lemma_digits_value_nonneg(pre);
        }
        if acc <= MAGNITUDE_BOUND {
            let next = acc * 10 + d;
            acc = if next > MAGNITUDE_BOUND { MAGNITUDE_BOUND + 1 } else { next };
        }
        i = i + 1;
    }
    assert(body.take(v@.len() - start) =~= body);
    Some(acc)
}

/// Parse a decimal `i64` as `str::parse::<i64>` does.
pub fn parse_i64(s: &str) -> (r: Option<i64>)
    ensures
        r == parsed_i64(s@),
{
    let v = chars_of(s);
    let neg = v.len() > 0 && v[0] == '-';
    let start: usize = if v.len() > 0 && (v[0] == '-' || v[0] == '+') { 1 } else { 0 };
    assert(unsigned_part(s@) =~= v@.skip(start as int));
    if start >= v.len() {
        return None;
    }
    let ghost body = v@.skip(start as int);
    match digits_of(&v, start) {
        None => {
            assert(!(forall|q: int| 0 <= q < body.len() ==> is_digit_ascii(#[trigger] body[q])));
            let ghost q = choose|q: int| 0 <= q < body.len() && !is_digit_ascii(#[trigger] body[q]);
            assert(!is_digit_ascii(body[q]));
            assert(!all_ascii_digits(unsigned_part(s@)));
            None
        },
        Some(acc) => {
            proof {
                lemma_digits_value_nonneg(body);
            }
            if acc > MAGNITUDE_BOUND {
                assert(digits_value(body) > MAGNITUDE_BOUND);
                assert(parsed_i64(s@) is None);
                None
            } else if neg {
                if acc == MAGNITUDE_BOUND {
                    Some(i64::MIN)
                } else {
                    Some(-(acc as i64))
                }
            } else if acc == MAGNITUDE_BOUND {
                assert(parsed_i64(s@) is None);
                None
            } else {
                Some(acc as i64)
            }
        },
    }
}

// ---- Accepted values ----

pub open spec fn validation(key: Seq<char>, raw: Seq<char>) -> Result<(), Seq<char>> {
    if key == "daily_goal_minutes"@ {
        match parsed_i64(raw) {
            None => Err("daily_goal_minutes must be an int"@),
            Some(n) => if n == 15 || n == 30 || n == 45 || n == 60 {
                Ok(())
            } else {
                Err("daily_goal_minutes must be one of 15/30/45/60"@)
            },
        }
    } else if key == "theme"@ {
        if raw == "light"@ || raw == "dark"@ || raw == "system"@ {
            Ok(())
        } else {
            Err("theme must be light|dark|system"@)
        }
    } else if key == "new_concepts_per_session"@ {
        match parsed_i64(raw) {
            None => Err("new_concepts_per_session must be an int"@),
            Some(n) => if 1 <= n <= 10 {
                Ok(())
            } else {
                Err("new_concepts_per_session must be 1..=10"@)
            },
        }
    } else if key == "notifications_enabled"@ || key == "api_key_present"@ {
        if raw == "true"@ || raw == "false"@ {
            Ok(())
        } else {
            Err(key + " must be true|false"@)
        }
    } else if key == "base_model"@ || key == "reasoning_model"@ {
        Ok(())
    } else {
        Err("unknown setting key: "@ + key)
    }
}

/// Validate one setting value against what its key accepts. A model id must
/// be 1..=128 bytes long.
pub fn validate(key: &str, raw: &str) -> (r: Result<(), String>)
    ensures
        (key@ == "base_model"@ || key@ == "reasoning_model"@) ==> (r is Ok <==> 0 < raw.len() <= 128)
            && (r matches Err(e) ==> e@ == key@ + " must be 1..=128 chars"@),
        !(key@ == "base_model"@ || key@ == "reasoning_model"@) ==> match r {
            Ok(()) => validation(key@, raw@) is Ok,
            Err(e) => validation(key@, raw@) == Err::<(), Seq<char>>(e@),
        },
{
    proof {
        reveal_strlit("daily_goal_minutes");
        reveal_strlit("theme");
        reveal_strlit("base_model");
        reveal_strlit("reasoning_model");
        reveal_strlit("api_key_present");
        reveal_strlit("notifications_enabled");
        reveal_strlit("new_concepts_per_session");
        assert("api_key_present"@[0] != "reasoning_model"@[0]);
        assert("api_key_present"@ != "reasoning_model"@);
        assert("base_model"@.len() == 10 && "reasoning_model"@.len() == 15);
        assert("daily_goal_minutes"@.len() == 18);
        assert("theme"@.len() == 5);
        assert("new_concepts_per_session"@.len() == 24);
        assert("notifications_enabled"@.len() == 21);
        assert("api_key_present"@ != "base_model"@);
    }
    if str_eq(key, "daily_goal_minutes") {
        match parse_i64(raw) {
            None => Err(owned("daily_goal_minutes must be an int")),
            Some(n) => if n == 15 || n == 30 || n == 45 || n == 60 {
                Ok(())
            } else {
                Err(owned("daily_goal_minutes must be one of 15/30/45/60"))
            },
        }
    } else if str_eq(key, "theme") {
        if str_eq(raw, "light") || str_eq(raw, "dark") || str_eq(raw, "system") {
            Ok(())
        } else {
            Err(owned("theme must be light|dark|system"))
        }
    } else if str_eq(key, "new_concepts_per_session") {
        match parse_i64(raw) {
            None => Err(owned("new_concepts_per_session must be an int")),
            Some(n) => if 1 <= n && n <= 10 {
                Ok(())
            } else {
                Err(owned("new_concepts_per_session must be 1..=10"))
            },
        }
    } else if str_eq(key, "notifications_enabled") || str_eq(key, "api_key_present") {
        if str_eq(raw, "true") || str_eq(raw, "false") {
            Ok(())
        } else {
            Err(concat2(key, " must be true|false"))
        }
    } else if str_eq(key, "base_model") || str_eq(key, "reasoning_model") {
        if raw.len() == 0 || raw.len() > 128 {
            Err(concat2(key, " must be 1..=128 chars"))
        } else {
            Ok(())
        }
    } else {
        Err(concat2("unknown setting key: ", key))
    }
}

/// What the generic setter accepts: `api_key_present` is derived from the
/// keychain and never set directly; other keys must be allowlisted and valid.
pub fn check_setting(key: &str, raw: &str) -> (r: Result<(), String>)
    ensures
        key@ == "api_key_present"@ ==> (r matches Err(e) && e@
            == "api_key_present is managed automatically and cannot be set directly"@),
        key@ != "api_key_present"@ && !is_allowed_key(key@) ==> (r matches Err(e) && e@
            == "unknown setting key: "@ + key@),
        key@ != "api_key_present"@ && is_allowed_key(key@) && !(key@ == "base_model"@ || key@
            == "reasoning_model"@) ==> match r {
            Ok(()) => validation(key@, raw@) is Ok,
            Err(e) => validation(key@, raw@) == Err::<(), Seq<char>>(e@),
        },
        (key@ == "base_model"@ || key@ == "reasoning_model"@) ==> (r is Ok <==> 0 < raw.len() <= 128),
{
    proof {
        reveal_strlit("api_key_present");
        reveal_strlit("base_model");
        reveal_strlit("reasoning_model");
        assert("api_key_present"@.len() == 15);
        assert("api_key_present"@ != "base_model"@);
        assert("api_key_present"@[0] != "reasoning_model"@[0]);
        assert("api_key_present"@ != "reasoning_model"@);
    }
    if str_eq(key, "api_key_present") {
        return Err(owned("api_key_present is managed automatically and cannot be set directly"));
    }
    match ensure_allowed(key) {
        Ok(()) => {},
        Err(e) => return Err(e),
    }
    validate(key, raw)
}

/// The value a setting has before it was ever written; model defaults are
/// ids of the configured `vendor`.
pub open spec fn default_of(key: Seq<char>, vendor: Seq<char>) -> Seq<char> {
    if key == "daily_goal_minutes"@ {
        "30"@
    } else if key == "theme"@ {
        "system"@
    } else if key == "base_model"@ {
        model_id(vendor, "sonnet-4-6"@)
    } else if key == "reasoning_model"@ {
        model_id(vendor, "opus-4-8"@)
    } else if key == "new_concepts_per_session"@ {
        "3"@
    } else if key == "notifications_enabled"@ {
        "false"@
    } else if key == "api_key_present"@ {
        "false"@
    } else {
        Seq::empty()
    }
}

/// The value a setting has before it was ever written.
pub fn default_for(key: &str, vendor: &str) -> (r: String)
    ensures
        r@ == default_of(key@, vendor@),
{
    if str_eq(key, "daily_goal_minutes") {
        owned("30")
    } else if str_eq(key, "theme") {
        owned("system")
    } else if str_eq(key, "base_model") {
        vendor_model(vendor, "sonnet-4-6")
    } else if str_eq(key, "reasoning_model") {
        vendor_model(vendor, "opus-4-8")
    } else if str_eq(key, "new_concepts_per_session") {
        owned("3")
    } else if str_eq(key, "notifications_enabled") {
        owned("false")
    } else if str_eq(key, "api_key_present") {
        owned("false")
    } else {
        proof {
            reveal_strlit("");
        }
        owned("")
    }
}

// ---- Typed reads of stored text ----

pub open spec fn int_reading(key: Seq<char>, raw: Option<Seq<char>>) -> Result<Option<i64>, Seq<char>> {
    match raw {
        None => Ok(None),
        Some(s) => match parsed_i64(s) {
            Some(n) => Ok(Some(n)),
            None => Err("setting "@ + key + " is not an integer: "@ + debug_str(s)),
        },
    }
}

/// A stored setting read as an integer.
pub fn typed_i64(key: &str, raw: Option<String>) -> (r: Result<Option<i64>, String>)
    ensures
        match r {
            Ok(v) => int_reading(key@, match raw { Some(s) => Some(s@), None => None }) == Ok::<Option<i64>, Seq<char>>(v),
            Err(e) => int_reading(key@, match raw { Some(s) => Some(s@), None => None }) == Err::<Option<i64>, Seq<char>>(e@),
        },
{
    match raw {
        None => Ok(None),
        Some(s) => match parse_i64(s.as_str()) {
            Some(n) => Ok(Some(n)),
            None => {
                let mut v = chars_of("setting ");
                push_str(&mut v, key);
                push_str(&mut v, " is not an integer: ");
                let shown = debug_quoted(s.as_str());
                push_str(&mut v, shown.as_str());
                Err(string_of(v.as_slice()))
            },
        },
    }
}

pub open spec fn bool_reading(key: Seq<char>, raw: Option<Seq<char>>) -> Result<Option<bool>, Seq<char>> {
    match raw {
        None => Ok(None),
        Some(s) => if s == "true"@ {
            Ok(Some(true))
        } else if s == "false"@ {
            Ok(Some(false))
        } else {
            Err("setting "@ + key + " is not a bool: "@ + debug_str(s))
        },
    }
}

/// A stored setting read as a boolean.
pub fn typed_bool(key: &str, raw: Option<String>) -> (r: Result<Option<bool>, String>)
    ensures
        match r {
            Ok(v) => bool_reading(key@, match raw { Some(s) => Some(s@), None => None }) == Ok::<Option<bool>, Seq<char>>(v),
            Err(e) => bool_reading(key@, match raw { Some(s) => Some(s@), None => None }) == Err::<Option<bool>, Seq<char>>(e@),
        },
{
    match raw {
        None => Ok(None),
        Some(s) => if str_eq(s.as_str(), "true") {
            Ok(Some(true))
        } else if str_eq(s.as_str(), "false") {
            Ok(Some(false))
        } else {
            let mut v = chars_of("setting ");
            push_str(&mut v, key);
            push_str(&mut v, " is not a bool: ");
            let shown = debug_quoted(s.as_str());
            push_str(&mut v, shown.as_str());
            Err(string_of(v.as_slice()))
        },
    }
}

/// The stored text of every user-facing setting (None when never written).
pub struct StoredSettings {
    pub daily_goal_minutes: Option<String>,
    pub theme: Option<String>,
    pub base_model: Option<String>,
    pub reasoning_model: Option<String>,
    pub new_concepts_per_session: Option<String>,
    pub notifications_enabled: Option<String>,
    pub api_key_present: Option<String>,
}

pub open spec fn opt_view(o: Option<String>) -> Option<Seq<char>> {
    match o {
        Some(s) => Some(s@),
        None => None,
    }
}

/// The full settings mirror, unset keys filled with their defaults; a stored
/// value of the wrong type is an error (the first, in field order).
pub fn load_settings(stored: StoredSettings, vendor: &str) -> (r: Result<AppSettings, String>)
    ensures
        match r {
            Ok(s) => {
                &&& int_reading("daily_goal_minutes"@, opt_view(stored.daily_goal_minutes)) matches Ok(g)
                    && s.daily_goal_minutes == (match g { Some(n) => n, None => 30 })
                &&& s.theme@ == (match stored.theme { Some(t) => t@, None => "system"@ })
                &&& s.base_model@ == (match stored.base_model { Some(t) => t@, None => model_id(vendor@, "sonnet-4-6"@) })
                &&& s.reasoning_model@ == (match stored.reasoning_model { Some(t) => t@, None => model_id(vendor@, "opus-4-8"@) })
                &&& int_reading("new_concepts_per_session"@, opt_view(stored.new_concepts_per_session)) matches Ok(n)
                    && s.new_concepts_per_session == (match n { Some(k) => k, None => 3 })
                &&& bool_reading("notifications_enabled"@, opt_view(stored.notifications_enabled)) matches Ok(b)
                    && s.notifications_enabled == (match b { Some(x) => x, None => false })
                &&& bool_reading("api_key_present"@, opt_view(stored.api_key_present)) matches Ok(b)
                    && s.api_key_present == (match b { Some(x) => x, None => false })
            },
            Err(e) => {
                ||| int_reading("daily_goal_minutes"@, opt_view(stored.daily_goal_minutes)) == Err::<Option<i64>, Seq<char>>(e@)
                ||| (int_reading("daily_goal_minutes"@, opt_view(stored.daily_goal_minutes)) is Ok
                    && int_reading("new_concepts_per_session"@, opt_view(stored.new_concepts_per_session)) == Err::<Option<i64>, Seq<char>>(e@))
                ||| (int_reading("daily_goal_minutes"@, opt_view(stored.daily_goal_minutes)) is Ok
                    && int_reading("new_concepts_per_session"@, opt_view(stored.new_concepts_per_session)) is Ok
                    && bool_reading("notifications_enabled"@, opt_view(stored.notifications_enabled)) == Err::<Option<bool>, Seq<char>>(e@))
                ||| (int_reading("daily_goal_minutes"@, opt_view(stored.daily_goal_minutes)) is Ok
                    && int_reading("new_concepts_per_session"@, opt_view(stored.new_concepts_per_session)) is Ok
                    && bool_reading("notifications_enabled"@, opt_view(stored.notifications_enabled)) is Ok
                    && bool_reading("api_key_present"@, opt_view(stored.api_key_present)) == Err::<Option<bool>, Seq<char>>(e@))
            },
        },
{
    let StoredSettings { daily_goal_minutes, theme, base_model, reasoning_model, new_concepts_per_session, notifications_enabled, api_key_present } = stored;
    let goal = match typed_i64("daily_goal_minutes", daily_goal_minutes) {
        Ok(g) => match g {
            Some(n) => n,
            None => 30,
        },
        Err(e) => return Err(e),
    };
    let theme = match theme {
        Some(t) => t,
        None => owned("system"),
    };
    let base_model = match base_model {
        Some(t) => t,
        None => vendor_model(vendor, "sonnet-4-6"),
    };
    let reasoning_model = match reasoning_model {
        Some(t) => t,
        None => vendor_model(vendor, "opus-4-8"),
    };
    let nps = match typed_i64("new_concepts_per_session", new_concepts_per_session) {
        Ok(g) => match g {
            Some(n) => n,
            None => 3,
        },
        Err(e) => return Err(e),
    };
    let notifications = match typed_bool("notifications_enabled", notifications_enabled) {
        Ok(b) => match b {
            Some(x) => x,
            None => false,
        },
        Err(e) => return Err(e),
    };
    let key_present = match typed_bool("api_key_present", api_key_present) {
        Ok(b) => match b {
            Some(x) => x,
            None => false,
        },
        Err(e) => return Err(e),
    };
    Ok(AppSettings {
        daily_goal_minutes: goal,
        theme,
        base_model,
        reasoning_model,
        new_concepts_per_session: nps,
        notifications_enabled: notifications,
        api_key_present: key_present,
    })
}

/// The stored placement quiz, unless absent or blank (a legacy empty
/// sentinel reads as none).
pub fn placement_quiz_of(raw: Option<String>) -> (r: Option<String>)
    ensures
        match r {
            Some(q) => raw matches Some(s) && s@ == q@ && trim(s@).len() > 0,
            None => raw matches Some(s) ==> trim(s@).len() == 0,
        },
{
    match raw {
        Some(s) => {
            let cs = chars_of(s.as_str());
            let t = trim_chars(&cs);
            if t.len() > 0 {
                Some(s)
            } else {
                None
            }
        },
        None => None,
    }
}

/// Whether onboarding is complete: the reserved flag reads exactly "true".
pub fn onboarding_complete_of(raw: Option<String>) -> (b: bool)
    ensures
        b == (raw matches Some(s) && s@ == "true"@),
{
    match raw {
        Some(s) => str_eq(s.as_str(), "true"),
        None => false,
    }
}

} // verus!
