//! Reads `key = value` settings from the index's configuration text.
use vstd::prelude::*;
use crate::text::{is_space_spec, is_space, first_index, find_from, chars_of, chars_eq, string_of};
use crate::extract::{skip_spaces, skip_spaces_exec, line_end, copy_range};

verus! {

/// The end of `l[..j]` once trailing whitespace is dropped.
pub open spec fn trim_end(l: Seq<char>, j: int) -> int
    decreases j,
{
    if 0 < j <= l.len() && is_space_spec(l[j - 1]) {
        trim_end(l, j - 1)
    } else {
        j
    }
}

/// `l` without leading and trailing whitespace.
pub open spec fn trim(l: Seq<char>) -> Seq<char> {
    let a = skip_spaces(l, 0);
    let b = trim_end(l, l.len() as int);
    if a < b {
        l.subrange(a, b)
    } else {
        Seq::empty()
    }
}

/// A value without its surrounding double quotes, if it has them.
pub open spec fn unquote(v: Seq<char>) -> Seq<char> {
    if v.len() >= 2 && v[0] == '"' && v.last() == '"' {
        v.subrange(1, v.len() - 1)
    } else {
        v
    }
}

/// The setting on a line: none on blank lines, comments, section headers
/// and lines without `=`.
pub open spec fn line_setting(l: Seq<char>) -> Option<(Seq<char>, Seq<char>)> {
    let t = trim(l);
    if t.len() == 0 || t[0] == '#' || t[0] == '[' {
        None
    } else {
        let k = first_index(t, '=');
        if k >= t.len() {
            None
        } else {
            Some((trim(t.take(k)), unquote(trim(t.skip(k + 1)))))
        }
    }
}

#[via_fn]
proof fn setting_from_decreases(text: Seq<char>, p: int, key: Seq<char>, found: Option<Seq<char>>) {
    if 0 <= p <= text.len() {
        crate::text::lemma_first_index_bound(text.skip(p), '\n');
    }
}

/// The value of the last line from `p` on that sets `key`; `found` where none does.
pub open spec fn setting_from(text: Seq<char>, p: int, key: Seq<char>, found: Option<Seq<char>>) -> Option<
    Seq<char>,
>
    decreases text.len() - p,
    via setting_from_decreases
{
    if p < 0 || p > text.len() {
        found
    } else {
        let e = line_end(text, p);
        let f = match line_setting(text.subrange(p, e)) {
            Some(kv) => if kv.0 == key {
                Some(kv.1)
            } else {
                found
            },
            None => found,
        };
        if e >= text.len() {
            f
        } else {
            setting_from(text, e + 1, key, f)
        }
    }
}

/// The value that the configuration gives `key`: the last line that sets it wins.
pub open spec fn setting_spec(text: Seq<char>, key: Seq<char>) -> Option<Seq<char>> {
    setting_from(text, 0, key, None)
}

fn trim_exec(l: &[char]) -> (r: Vec<char>)
    ensures
        r@ == trim(l@),
{
    let a = skip_spaces_exec(l, 0);
    let mut b = l.len();
    while b > 0 && is_space(l[b - 1])
        invariant
            b <= l@.len(),
            trim_end(l@, l@.len() as int) == trim_end(l@, b as int),
        decreases b,
    {
        b = b - 1;
    }
    if a < b {
        copy_range(l, a, b)
    } else {
        Vec::new()
    }
}

fn line_setting_exec(l: &[char]) -> (r: Option<(Vec<char>, Vec<char>)>)
    ensures
        match r {
            Some(kv) => line_setting(l@) == Some((kv.0@, kv.1@)),
            None => line_setting(l@) is None,
        },
{
    let t = trim_exec(l);
    if t.len() == 0 || t[0] == '#' || t[0] == '[' {
        return None;
    }
    let k = find_from(t.as_slice(), 0, '=');
    assert(t@.skip(0) == t@);
    if k >= t.len() {
        return None;
    }
    let before = copy_range(t.as_slice(), 0, k);
    let after = copy_range(t.as_slice(), k + 1, t.len());
    assert(before@ == t@.take(k as int));
    assert(after@ == t@.skip(k + 1));
    let key = trim_exec(before.as_slice());
    let v = trim_exec(after.as_slice());
    let n = v.len();
    let value = if n >= 2 && v[0] == '"' && v[n - 1] == '"' {
        copy_range(v.as_slice(), 1, n - 1)
    } else {
        v
    };
    Some((key, value))
}

/// The value that a configuration text gives `key`, if a line sets it.
pub fn setting(text: &str, key: &str) -> (r: Option<String>)
    ensures
        crate::model::opt_view(r) == setting_spec(text@, key@),
{
    let t = chars_of(text);
    let k = chars_of(key);
    let mut found: Option<Vec<char>> = None;
    let mut p: usize = 0;
    loop
        invariant_except_break
            setting_spec(text@, key@) == setting_from(
                t@,
                p as int,
                k@,
                match found {
                    Some(v) => Some(v@),
                    None => None,
                },
            ),
        invariant
            p <= t@.len(),
            t@ == text@,
            k@ == key@,
        ensures
            setting_spec(text@, key@) == match found {
                Some(v) => Some(v@),
                None => None,
            },
        decreases t@.len() - p,
    {
        let e = find_from(t.as_slice(), p, '\n');
        let line = copy_range(t.as_slice(), p, e);
        match line_setting_exec(line.as_slice()) {
            Some(kv) => {
                if chars_eq(kv.0.as_slice(), k.as_slice()) {
                    found = Some(kv.1);
                }
            },
            None => {},
        }
        if e >= t.len() {
            break;
        }
        p = e + 1;
    }
    match found {
        Some(v) => Some(string_of(v.as_slice())),
        None => None,
    }
}

pub open spec fn is_digit_spec(c: char) -> bool {
    '0' <= c && c <= '9'
}

pub open spec fn all_digits(s: Seq<char>) -> bool {
    forall|i: int| 0 <= i < s.len() ==> is_digit_spec(#[trigger] s[i])
}

/// The value of a string of decimal digits.
pub open spec fn decimal_value(s: Seq<char>) -> nat
    decreases s.len(),
{
    if s.len() == 0 {
        0
    } else {
        decimal_value(s.drop_last()) * 10 + ((s.last() as u32) - 48) as nat
    }
}

/// A non-empty run of decimal digits whose value fits in `u64`, read as a number.
pub fn parse_u64(s: &str) -> (r: Option<u64>)
    ensures
        r == (if s@.len() > 0 && all_digits(s@) && decimal_value(s@) <= u64::MAX {
            Some(decimal_value(s@) as u64)
        } else {
            None
        }),
{
    let t = chars_of(s);
    if t.len() == 0 {
        return None;
    }
    let mut v: u64 = 0;
    let mut i: usize = 0;
    while i < t.len()
        invariant
            i <= t@.len(),
            t@ == s@,
            all_digits(t@.take(i as int)),
            v == decimal_value(t@.take(i as int)),
        decreases t@.len() - i,
    {
        let c = t[i];
        assert(t@.take(i + 1).drop_last() == t@.take(i as int));
        assert(t@.take(i + 1).last() == c);
        if !('0' <= c && c <= '9') {
            assert(!is_digit_spec(t@[i as int]));
            return None;
        }
        let d = (c as u32 - 48) as u64;
        match v.checked_mul(10) {
            Some(m) => match m.checked_add(d) {
                Some(n) => {
                    v = n;
                },
                None => {
                    proof {
                        lemma_decimal_prefix(t@, i + 1);
                    }
                    return None;
                },
            },
            None => {
                proof {
                    lemma_decimal_prefix(t@, i + 1);
                }
                return None;
            },
        }
        i = i + 1;
    }
    assert(t@.take(t@.len() as int) == t@);
    Some(v)
}

/// A longer run of digits is worth at least as much as its prefix.
proof fn lemma_decimal_prefix(s: Seq<char>, i: int)
    requires
        0 <= i <= s.len(),
        all_digits(s.take(i)),
    ensures
        all_digits(s) ==> decimal_value(s.take(i)) <= decimal_value(s),
    decreases s.len() - i,
{
    if i < s.len() && all_digits(s) {
        assert(s.take(i + 1).drop_last() == s.take(i));
        assert(all_digits(s.take(i + 1)));
        lemma_decimal_prefix(s, i + 1);
    } else if i == s.len() {
        assert(s.take(i) == s);
    }
}

/// The line that sets `key` to the quoted `value`.
pub fn setting_line(key: &str, value: &str) -> (r: String)
    ensures
        r@ == key@ + " = \""@ + value@ + "\"\n"@,
{
    let mut r = String::from_str(key);
    r.append(" = \"");
    r.append(value);
    r.append("\"\n");
    r
}

/// The number that a setting's text gives, or `default` where it is not a
/// decimal that fits in `u64`.
pub open spec fn number_or(v: Option<Seq<char>>, default: u64) -> u64 {
    match v {
        Some(s) => if s.len() > 0 && all_digits(s) && decimal_value(s) <= u64::MAX {
            decimal_value(s) as u64
        } else {
            default
        },
        None => default,
    }
}

fn number_or_exec(v: Option<String>, default: u64) -> (r: u64)
    ensures
        r == number_or(crate::model::opt_view(v), default),
{
    match v {
        Some(s) => match parse_u64(s.as_str()) {
            Some(n) => n,
            None => default,
        },
        None => default,
    }
}

pub open spec fn non_empty(o: Option<Seq<char>>) -> Option<Seq<char>> {
    match o {
        Some(s) => if s.len() > 0 {
            Some(s)
        } else {
            None
        },
        None => None,
    }
}

/// The credential: the environment's where it is set and not empty, else the
/// configured one where that is not empty.
pub open spec fn credential_spec(env: Option<Seq<char>>, text: Seq<char>) -> Option<Seq<char>> {
    if non_empty(env) is Some {
        env
    } else {
        non_empty(setting_spec(text, "llm_api_key"@))
    }
}

/// What a call of the ranking service needs.
pub struct RankerSettings {
    pub model: String,
    pub credential: String,
    pub max_prompt_chars: u64,
}

/// The ranker is called only for the `openai` provider (the default) and
/// with a credential; the model defaults to `gpt-4o-mini`, the prompt
/// budget to 4000 characters.
pub open spec fn ranker_settings_match(
    r: Option<RankerSettings>,
    text: Seq<char>,
    env: Option<Seq<char>>,
) -> bool {
    let provider_ok = match setting_spec(text, "llm_provider"@) {
        Some(p) => p == "openai"@,
        None => true,
    };
    match r {
        None => !provider_ok || credential_spec(env, text) is None,
        Some(s) => {
            &&& provider_ok
            &&& credential_spec(env, text) == Some(s.credential@)
            &&& s.model@ == match setting_spec(text, "llm_model"@) {
                Some(m) => m,
                None => "gpt-4o-mini"@,
            }
            &&& s.max_prompt_chars == number_or(setting_spec(text, "max_prompt_chars"@), 4000)
        },
    }
}

fn non_empty_exec(o: Option<String>) -> (r: Option<String>)
    ensures
        crate::model::opt_view(r) == non_empty(crate::model::opt_view(o)),
{
    match o {
        Some(s) => if s.as_str().is_empty() {
            None
        } else {
            Some(s)
        },
        None => None,
    }
}

/// The ranker's settings from the configuration text and the credential
/// found in the environment, if the ranker is to be called.
pub fn ranker_settings(text: &str, env_credential: Option<String>) -> (r: Option<RankerSettings>)
    ensures
        ranker_settings_match(r, text@, crate::model::opt_view(env_credential)),
{
    let provider_ok = match setting(text, "llm_provider") {
        Some(p) => p == String::from_str("openai"),
        None => true,
    };
    let credential = match non_empty_exec(env_credential) {
        Some(c) => Some(c),
        None => non_empty_exec(setting(text, "llm_api_key")),
    };
    if !provider_ok {
        return None;
    }
    let credential = match credential {
        Some(c) => c,
        None => {
            return None;
        },
    };
    let model = match setting(text, "llm_model") {
        Some(m) => m,
        None => String::from_str("gpt-4o-mini"),
    };
    let max_prompt_chars = number_or_exec(setting(text, "max_prompt_chars"), 4000);
    Some(RankerSettings { model, credential, max_prompt_chars })
}

/// How many notes to print: a given count must be a positive number (else
/// `None`); without one, the configured `default_note_count` where positive,
/// else three.
pub open spec fn note_count_spec(arg: Option<Seq<char>>, text: Seq<char>) -> Option<u64> {
    match arg {
        Some(a) => {
            let n = number_or(Some(a), 0);
            if n > 0 {
                Some(n)
            } else {
                None
            }
        },
        None => {
            let n = number_or(setting_spec(text, "default_note_count"@), 0);
            if n > 0 {
                Some(n)
            } else {
                Some(3)
            }
        },
    }
}

/// The number of notes to print, or `None` where the given count is invalid.
pub fn note_count(arg: Option<String>, text: &str) -> (r: Option<u64>)
    ensures
        r == note_count_spec(crate::model::opt_view(arg), text@),
{
    match arg {
        Some(a) => {
            let n = number_or_exec(Some(a), 0);
            if n > 0 {
                Some(n)
            } else {
                None
            }
        },
        None => {
            let n = number_or_exec(setting(text, "default_note_count"), 0);
            if n > 0 {
                Some(n)
            } else {
                Some(3)
            }
        },
    }
}

} // verus!
