//! Configuration values checked and derived by the gateway: the admin key and
//! the list of backend base URLs.
use vstd::prelude::*;

use crate::text::str_eq;

verus! {

/// The fewest characters a configured admin key may have.
pub const MIN_AUTH_KEY_CHARS: usize = 16;

/// The length of a generated admin key.
pub const GENERATED_KEY_CHARS: usize = 128;

pub const AUTH_KEY_TOO_SHORT: &'static str = "API auth key must be at least 16 characters long";

/// Checks a configured admin key: empty (meaning "generate one") or at least
/// sixteen characters.
pub fn parse_auth_key(s: &str) -> (r: Result<String, String>)
    ensures
        r is Ok <==> (s@.len() == 0 || s@.len() >= MIN_AUTH_KEY_CHARS),
        r is Ok ==> r->Ok_0@ == s@,
        r is Err ==> r->Err_0@ == AUTH_KEY_TOO_SHORT@,
{
    let n = s.unicode_len();
    if n == 0 || n >= MIN_AUTH_KEY_CHARS {
        Ok(String::from_str(s))
    } else {
        Err(String::from_str(AUTH_KEY_TOO_SHORT))
    }
}

/// Whether `c` is an ASCII letter or digit.
pub open spec fn is_alphanumeric(c: char) -> bool {
    ('a' <= c && c <= 'z') || ('A' <= c && c <= 'Z') || ('0' <= c && c <= '9')
}

/// Relies on rand::distributions::DistString::sample_string for
/// rand::distributions::Alphanumeric with rand::thread_rng: `len` characters, each
/// drawn from the ASCII letters and digits.
#[verifier::external_body]
fn random_alphanumeric(len: usize) -> (r: String)
    ensures
        r@.len() == len,
        forall|i: int| 0 <= i < r@.len() ==> is_alphanumeric(#[trigger] r@[i]),
{
    rand::distributions::DistString::sample_string(
        &rand::distributions::Alphanumeric,
        &mut rand::thread_rng(),
        len,
    )
}

/// The admin key in force: the configured one, or a fresh random one of 128
/// letters and digits when none is configured.
pub fn effective_auth_key(configured: String) -> (r: String)
    ensures
        configured@.len() > 0 ==> r@ == configured@,
        configured@.len() == 0 ==> r@.len() == GENERATED_KEY_CHARS && forall|i: int|
            0 <= i < r@.len() ==> is_alphanumeric(#[trigger] r@[i]),
{
    if configured.as_str().unicode_len() > 0 {
        configured
    } else {
        random_alphanumeric(GENERATED_KEY_CHARS)
    }
}

/// Whether `c` has the Unicode `White_Space` property, as `char::is_whitespace` says.
pub open spec fn is_white_space(c: char) -> bool {
    ('\u{9}' <= c && c <= '\u{d}') || c == ' ' || c == '\u{85}' || c == '\u{a0}' || c
        == '\u{1680}' || ('\u{2000}' <= c && c <= '\u{200a}') || c == '\u{2028}' || c
        == '\u{2029}' || c == '\u{202f}' || c == '\u{205f}' || c == '\u{3000}'
}

fn white_space(c: char) -> (r: bool)
    ensures
        r == is_white_space(c),
{
    ('\u{9}' <= c && c <= '\u{d}') || c == ' ' || c == '\u{85}' || c == '\u{a0}' || c
        == '\u{1680}' || ('\u{2000}' <= c && c <= '\u{200a}') || c == '\u{2028}' || c
        == '\u{2029}' || c == '\u{202f}' || c == '\u{205f}' || c == '\u{3000}'
}

/// `s` without leading white space.
pub open spec fn trim_start_of(s: Seq<char>) -> Seq<char>
    decreases s.len(),
{
    if s.len() > 0 && is_white_space(s[0]) {
        trim_start_of(s.drop_first())
    } else {
        s
    }
}

/// `s` without trailing white space.
pub open spec fn trim_end_of(s: Seq<char>) -> Seq<char>
    decreases s.len(),
{
    if s.len() > 0 && is_white_space(s.last()) {
        trim_end_of(s.drop_last())
    } else {
        s
    }
}

/// `s` without leading and trailing white space, as `str::trim` gives it.
pub open spec fn trimmed(s: Seq<char>) -> Seq<char> {
    trim_end_of(trim_start_of(s))
}

/// `s` without leading and trailing white space.
pub fn trim(s: &str) -> (r: &str)
    ensures
        r@ == trimmed(s@),
{
    let n = s.unicode_len();
    let mut a: usize = 0;
    assert(s@.subrange(0, n as int) =~= s@);
    while a < n && white_space(s.get_char(a))
        invariant
            a <= n,
            n == s@.len(),
            trim_start_of(s@) == trim_start_of(s@.subrange(a as int, n as int)),
        decreases n - a,
    {
        assert(s@.subrange(a as int, n as int).drop_first() =~= s@.subrange(a + 1, n as int));
        assert(s@.subrange(a as int, n as int)[0] == s@[a as int]);
        a = a + 1;
    }
    assert(trim_start_of(s@) == s@.subrange(a as int, n as int)) by {
        if a < n {
            assert(s@.subrange(a as int, n as int)[0] == s@[a as int]);
        }
    }
    let mut b: usize = n;
    while b > a && white_space(s.get_char(b - 1))
        invariant
            a <= b <= n,
            n == s@.len(),
            trim_end_of(s@.subrange(a as int, n as int)) == trim_end_of(
                s@.subrange(a as int, b as int),
            ),
        decreases b - a,
    {
        assert(s@.subrange(a as int, b as int).drop_last() =~= s@.subrange(a as int, b - 1));
        assert(s@.subrange(a as int, b as int).last() == s@[b - 1]);
        b = b - 1;
    }
    assert(trim_end_of(s@.subrange(a as int, b as int)) == s@.subrange(a as int, b as int)) by {
        if b > a {
            assert(s@.subrange(a as int, b as int).last() == s@[b - 1]);
        }
    }
    s.substring_char(a, b)
}

/// Whether `c` separates the entries of a URL list.
pub open spec fn is_list_separator(c: char) -> bool {
    c == ',' || c == ' '
}

/// The pieces of `s` between separators, empty ones included (as `str::split`
/// cuts them).
pub open spec fn list_pieces(s: Seq<char>) -> Seq<Seq<char>>
    decreases s.len(),
{
    if s.len() == 0 {
        seq![Seq::empty()]
    } else {
        let init = list_pieces(s.drop_last());
        if is_list_separator(s.last()) {
            init.push(Seq::empty())
        } else {
            init.update(init.len() - 1, init.last().push(s.last()))
        }
    }
}

proof fn lemma_list_pieces_nonempty(s: Seq<char>)
    ensures
        list_pieces(s).len() > 0,
    decreases s.len(),
{
    if s.len() > 0 {
        lemma_list_pieces_nonempty(s.drop_last());
    }
}

/// The trimmed pieces that are not empty, in order.
pub open spec fn kept_pieces(ps: Seq<Seq<char>>) -> Seq<Seq<char>>
    decreases ps.len(),
{
    if ps.len() == 0 {
        Seq::empty()
    } else {
        let rest = kept_pieces(ps.drop_last());
        if trimmed(ps.last()).len() > 0 {
            rest.push(trimmed(ps.last()))
        } else {
            rest
        }
    }
}

/// The entries of a URL list: split at commas and spaces, trimmed, empty ones dropped.
pub open spec fn url_list_of(s: Seq<char>) -> Seq<Seq<char>> {
    kept_pieces(list_pieces(s))
}

/// Splits a list of URLs at commas and spaces, trims each entry and drops the
/// empty ones.
pub fn split_url_list(s: &str) -> (r: Vec<String>)
    ensures
        r@.map_values(|x: String| x@) == url_list_of(s@),
{
    let n = s.unicode_len();
    let mut out: Vec<String> = Vec::new();
    let mut cur = String::new();
    let mut i: usize = 0;
    while i < n
        invariant
            i <= n,
            n == s@.len(),
            list_pieces(s@.subrange(0, i as int)).len() > 0,
            out@.map_values(|x: String| x@) == kept_pieces(
                list_pieces(s@.subrange(0, i as int)).drop_last(),
            ),
            cur@ == list_pieces(s@.subrange(0, i as int)).last(),
        decreases n - i,
    {
        let ghost prefix = s@.subrange(0, i as int);
        let ghost next = s@.subrange(0, i + 1);
        assert(next.drop_last() =~= prefix);
        assert(next.last() == s@[i as int]);
        let c = s.get_char(i);
        if c == ',' || c == ' ' {
            let t = trim(cur.as_str());
            let t = String::from_str(t);
            assert(list_pieces(next).drop_last() =~= list_pieces(prefix));
            assert(list_pieces(prefix).drop_last().push(list_pieces(prefix).last()) =~= list_pieces(prefix));
            if t.as_str().unicode_len() > 0 {
                out.push(t);
            }
            assert(out@.map_values(|x: String| x@) =~= kept_pieces(list_pieces(next).drop_last()));
            cur = String::new();
            assert(cur@ =~= list_pieces(next).last());
        } else {
            cur.append(s.substring_char(i, i + 1));
            assert(list_pieces(next).drop_last() =~= list_pieces(prefix).drop_last());
            assert(cur@ =~= list_pieces(next).last());
        }
        proof {
            lemma_list_pieces_nonempty(next);
        }
        i = i + 1;
    }
    let t = String::from_str(trim(cur.as_str()));
    if t.as_str().unicode_len() > 0 {
        out.push(t);
    }
    assert(s@.subrange(0, n as int) =~= s@);
    assert(list_pieces(s@).drop_last().push(list_pieces(s@).last()) =~= list_pieces(s@));
    assert(out@.map_values(|x: String| x@) =~= url_list_of(s@));
    out
}

pub open spec fn is_digit(c: char) -> bool {
    '0' <= c && c <= '9'
}

/// The number of decimal digits at the start of `s`.
pub open spec fn leading_digits(s: Seq<char>) -> nat
    decreases s.len(),
{
    if s.len() > 0 && is_digit(s[0]) {
        1 + leading_digits(s.drop_first())
    } else {
        0
    }
}

/// The value of a string of decimal digits.
pub open spec fn digits_value(s: Seq<char>) -> nat
    decreases s.len(),
{
    if s.len() == 0 {
        0
    } else {
        digits_value(s.drop_last()) * 10 + (s.last() as nat - '0' as nat) as nat
    }
}

/// `s` without its leading spaces.
pub open spec fn skip_spaces(s: Seq<char>) -> Seq<char>
    decreases s.len(),
{
    if s.len() > 0 && s[0] == ' ' {
        skip_spaces(s.drop_first())
    } else {
        s
    }
}

/// Milliseconds per unit of an interval; no unit means seconds.
pub open spec fn unit_millis(u: Seq<char>) -> Option<nat> {
    if u == ""@ || u == "s"@ || u == "sec"@ || u == "secs"@ || u == "second"@ || u
        == "seconds"@ {
        Some(1000)
    } else if u == "ms"@ || u == "millis"@ || u == "milliseconds"@ {
        Some(1)
    } else if u == "m"@ || u == "min"@ || u == "mins"@ || u == "minute"@ || u == "minutes"@ {
        Some(60000)
    } else if u == "h"@ || u == "hour"@ || u == "hours"@ {
        Some(3600000)
    } else {
        None
    }
}

/// The length in milliseconds of a human-readable interval such as `5s`,
/// `250 ms` or `1 minute`: a decimal number, optional spaces, and a unit.
pub open spec fn interval_millis_of(s: Seq<char>) -> Option<nat> {
    let k = leading_digits(s);
    if k == 0 {
        None
    } else {
        match unit_millis(skip_spaces(s.subrange(k as int, s.len() as int))) {
            Some(m) => Some(digits_value(s.subrange(0, k as int)) * m),
            None => None,
        }
    }
}

proof fn lemma_leading_digits_step(s: Seq<char>, i: int)
    requires
        0 <= i < s.len(),
    ensures
        s.subrange(i, s.len() as int).drop_first() =~= s.subrange(i + 1, s.len() as int),
        s.subrange(i, s.len() as int)[0] == s[i],
{
}

proof fn lemma_digits_value_grows(s: Seq<char>, i: int, j: int)
    requires
        0 <= i <= j <= s.len(),
        forall|k: int| 0 <= k < j ==> is_digit(#[trigger] s[k]),
    ensures
        digits_value(s.subrange(0, i)) <= digits_value(s.subrange(0, j)),
    decreases j - i,
{
    if i < j {
        lemma_digits_value_grows(s, i, j - 1);
        assert(s.subrange(0, j).drop_last() =~= s.subrange(0, j - 1));
    }
}

fn unit_millis_exec(u: &str) -> (r: Option<u64>)
    ensures
        r is Some <==> unit_millis(u@) is Some,
        r is Some ==> r->Some_0 as nat == unit_millis(u@)->Some_0 && r->Some_0 <= 3600000,
{
    if str_eq(u, "") || str_eq(u, "s") || str_eq(u, "sec") || str_eq(u, "secs") || str_eq(
        u,
        "second",
    ) || str_eq(u, "seconds") {
        Some(1000)
    } else if str_eq(u, "ms") || str_eq(u, "millis") || str_eq(u, "milliseconds") {
        Some(1)
    } else if str_eq(u, "m") || str_eq(u, "min") || str_eq(u, "mins") || str_eq(u, "minute")
        || str_eq(u, "minutes") {
        Some(60000)
    } else if str_eq(u, "h") || str_eq(u, "hour") || str_eq(u, "hours") {
        Some(3600000)
    } else {
        None
    }
}

/// Parses a human-readable interval into milliseconds; none when it is not of
/// that form or does not fit in 64 bits.
pub fn parse_interval_millis(s: &str) -> (r: Option<u64>)
    ensures
        r is Some <==> (interval_millis_of(s@) is Some && interval_millis_of(s@)->Some_0
            <= u64::MAX),
        r is Some ==> r->Some_0 as nat == interval_millis_of(s@)->Some_0,
{
    let n = s.unicode_len();
    let mut i: usize = 0;
    let mut value: u128 = 0;
    assert(s@.subrange(0, n as int) =~= s@);
    assert(s@.subrange(0, 0) =~= Seq::<char>::empty());
    while i < n && is_ascii_digit(s.get_char(i))
        invariant
            i <= n,
            n == s@.len(),
            forall|k: int| 0 <= k < i ==> is_digit(#[trigger] s@[k]),
            leading_digits(s@) == i + leading_digits(s@.subrange(i as int, n as int)),
            value as nat == digits_value(s@.subrange(0, i as int)),
            value <= u64::MAX,
        decreases n - i,
    {
        let c = s.get_char(i);
        proof {
            lemma_leading_digits_step(s@, i as int);
            assert(s@.subrange(0, i + 1).drop_last() =~= s@.subrange(0, i as int));
        }
        value = value * 10 + (c as u128 - '0' as u128);
        if value > u64::MAX as u128 {
            proof {
                interval_too_large(s@, (i + 1) as int);
            }
            return None;
        }
        i = i + 1;
    }
    assert(leading_digits(s@) == i) by {
        if i < n {
            assert(s@.subrange(i as int, n as int)[0] == s@[i as int]);
        }
    }
    if i == 0 {
        return None;
    }
    let mut j: usize = i;
    while j < n && s.get_char(j) == ' '
        invariant
            i <= j <= n,
            n == s@.len(),
            skip_spaces(s@.subrange(i as int, n as int)) == skip_spaces(
                s@.subrange(j as int, n as int),
            ),
        decreases n - j,
    {
        proof {
            lemma_leading_digits_step(s@, j as int);
        }
        j = j + 1;
    }
    assert(skip_spaces(s@.subrange(j as int, n as int)) == s@.subrange(j as int, n as int)) by {
        if j < n {
            assert(s@.subrange(j as int, n as int)[0] == s@[j as int]);
        }
    }
    match unit_millis_exec(s.substring_char(j, n)) {
        Some(m) => {
            assert(value * (m as u128) <= 0xffff_ffff_ffff_ffffu128 * 3600000u128) by (nonlinear_arith)
                requires
                    value <= 0xffff_ffff_ffff_ffffu128,
                    m <= 3600000,
            ;
            let total = value * (m as u128);
            if total > u64::MAX as u128 {
                None
            } else {
                Some(total as u64)
            }
        },
        None => None,
    }
}

fn is_ascii_digit(c: char) -> (r: bool)
    ensures
        r == is_digit(c),
{
    '0' <= c && c <= '9'
}

/// Once the digits read so far exceed 64 bits, so does the interval, whatever
/// its unit.
proof fn interval_too_large(s: Seq<char>, i: int)
    requires
        0 < i <= s.len(),
        forall|k: int| 0 <= k < i ==> is_digit(#[trigger] s[k]),
        i <= leading_digits(s),
        digits_value(s.subrange(0, i)) > u64::MAX,
    ensures
        !(interval_millis_of(s) is Some && interval_millis_of(s)->Some_0 <= u64::MAX),
{
    let k = leading_digits(s);
    lemma_all_leading_are_digits(s);
    lemma_digits_value_grows(s, i, k as int);
    match unit_millis(skip_spaces(s.subrange(k as int, s.len() as int))) {
        Some(m) => {
            let v = digits_value(s.subrange(0, k as int));
            assert(v * m >= v) by (nonlinear_arith)
                requires
                    m >= 1,
            ;
        },
        None => {},
    }
}

proof fn lemma_all_leading_are_digits(s: Seq<char>)
    ensures
        leading_digits(s) <= s.len(),
        forall|k: int| 0 <= k < leading_digits(s) ==> is_digit(#[trigger] s[k]),
    decreases s.len(),
{
    if s.len() > 0 && is_digit(s[0]) {
        lemma_all_leading_are_digits(s.drop_first());
        assert forall|k: int| 0 <= k < leading_digits(s) implies is_digit(#[trigger] s[k]) by {
            if k > 0 {
                assert(s[k] == s.drop_first()[k - 1]);
            }
        }
    }
}

} // verus!
