//! Text operations on character sequences used by the gateway's logic.
use vstd::prelude::*;

verus! {

/// `s` with every non-overlapping occurrence of `pat`, scanned from the left,
/// replaced by `rep`.
pub open spec fn replace_all(s: Seq<char>, pat: Seq<char>, rep: Seq<char>) -> Seq<char>
    decreases s.len(),
{
    if pat.len() == 0 || s.len() < pat.len() {
        s
    } else if s.subrange(0, pat.len() as int) == pat {
        rep + replace_all(s.subrange(pat.len() as int, s.len() as int), pat, rep)
    } else {
        seq![s[0]] + replace_all(s.subrange(1, s.len() as int), pat, rep)
    }
}

/// `s` without its first character when that character is `c`.
pub open spec fn strip_leading(s: Seq<char>, c: char) -> Seq<char> {
    if s.len() > 0 && s[0] == c {
        s.subrange(1, s.len() as int)
    } else {
        s
    }
}

/// Whether `pat` occurs in `s` at character position `i`.
pub fn occurs_at(s: &str, i: usize, pat: &str) -> (r: bool)
    requires
        i <= s@.len(),
    ensures
        r == (i + pat@.len() <= s@.len() && s@.subrange(i as int, i + pat@.len()) == pat@),
{
    let n = s.unicode_len();
    let p = pat.unicode_len();
    if p > n - i {
        return false;
    }
    let mut j: usize = 0;
    while j < p
        invariant
            p == pat@.len(),
            n == s@.len(),
            i + p <= n,
            j <= p,
            forall|k: int| 0 <= k < j ==> s@[i + k] == pat@[k],
        decreases p - j,
    {
        if s.get_char(i + j) != pat.get_char(j) {
            assert(s@.subrange(i as int, i + p)[j as int] != pat@[j as int]);
            return false;
        }
        j = j + 1;
    }
    assert(s@.subrange(i as int, i + p) =~= pat@);
    true
}

/// Replaces every occurrence of `pat` in `s` by `rep`, scanning from the left.
pub fn replace(s: &str, pat: &str, rep: &str) -> (r: String)
    ensures
        r@ == replace_all(s@, pat@, rep@),
{
    let n = s.unicode_len();
    let p = pat.unicode_len();
    let mut out = String::new();
    if p == 0 {
        out.append(s);
        return out;
    }
    let mut i: usize = 0;
    assert(s@.subrange(0, n as int) =~= s@);
    assert(out@ + replace_all(s@, pat@, rep@) =~= replace_all(s@, pat@, rep@));
    while i < n
        invariant
            n == s@.len(),
            p == pat@.len(),
            p > 0,
            i <= n,
            out@ + replace_all(s@.subrange(i as int, n as int), pat@, rep@) == replace_all(
                s@,
                pat@,
                rep@,
            ),
        decreases n - i,
    {
        let ghost rest = s@.subrange(i as int, n as int);
        let ghost old_out = out@;
        if occurs_at(s, i, pat) {
            assert(rest.subrange(0, p as int) =~= s@.subrange(i as int, i + p));
            assert(rest.subrange(p as int, rest.len() as int) =~= s@.subrange(
                i + p,
                n as int,
            ));
            out.append(rep);
            assert(out@ + replace_all(s@.subrange(i + p, n as int), pat@, rep@) =~= old_out
                + replace_all(rest, pat@, rep@));
            i = i + p;
        } else {
            if p <= n - i {
                assert(rest.subrange(0, p as int) =~= s@.subrange(i as int, i + p));
            }
            assert(rest.subrange(1, rest.len() as int) =~= s@.subrange(i + 1, n as int));
            out.append(s.substring_char(i, i + 1));
            assert(out@ + replace_all(s@.subrange(i + 1, n as int), pat@, rep@) =~= old_out
                + replace_all(rest, pat@, rep@));
            i = i + 1;
        }
    }
    assert(s@.subrange(n as int, n as int) =~= Seq::<char>::empty());
    assert(out@ =~= out@ + replace_all(Seq::<char>::empty(), pat@, rep@));
    out
}

/// Whether two strings hold the same characters.
pub fn str_eq(a: &str, b: &str) -> (r: bool)
    ensures
        r == (a@ == b@),
{
    if a.unicode_len() != b.unicode_len() {
        return false;
    }
    let r = occurs_at(a, 0, b);
    assert(a@.subrange(0, a@.len() as int) =~= a@);
    r
}

/// `s` without a leading `/`.
pub fn strip_leading_slash(s: &str) -> (r: &str)
    ensures
        r@ == strip_leading(s@, '/'),
{
    let n = s.unicode_len();
    if n > 0 && s.get_char(0) == '/' {
        s.substring_char(1, n)
    } else {
        s
    }
}

/// The first position at or after `i` where `pat` occurs in `s`, or -1.
pub open spec fn first_match_from(s: Seq<char>, pat: Seq<char>, i: int) -> int
    decreases s.len() - i,
{
    if i < 0 || i + pat.len() > s.len() {
        -1
    } else if pat.len() == 0 || s.subrange(i, i + pat.len()) == pat {
        i
    } else {
        first_match_from(s, pat, i + 1)
    }
}

/// A found position lies at or after `i` and leaves room for `pat`.
pub proof fn lemma_first_match_bounds(s: Seq<char>, pat: Seq<char>, i: int)
    ensures
        first_match_from(s, pat, i) == -1 || (i <= first_match_from(s, pat, i)
            && first_match_from(s, pat, i) + pat.len() <= s.len()),
    decreases s.len() - i,
{
    if i >= 0 && i + pat.len() <= s.len() && pat.len() > 0 && s.subrange(i, i + pat.len())
        != pat {
        lemma_first_match_bounds(s, pat, i + 1);
    }
}

/// `s` split around the first occurrence of `pat`.
pub open spec fn split_once_of(s: Seq<char>, pat: Seq<char>) -> Option<(Seq<char>, Seq<char>)> {
    let j = first_match_from(s, pat, 0);
    if j < 0 {
        None
    } else {
        Some((s.subrange(0, j), s.subrange(j + pat.len(), s.len() as int)))
    }
}

/// The first position at or after `start` where `pat` occurs in `s`.
pub fn find_from(s: &str, pat: &str, start: usize) -> (r: Option<usize>)
    requires
        start <= s@.len(),
    ensures
        (match r {
            Some(j) => j as int,
            None => -1,
        }) == first_match_from(s@, pat@, start as int),
        r is Some ==> r->Some_0 + pat@.len() <= s@.len(),
{
    let n = s.unicode_len();
    let p = pat.unicode_len();
    let mut i: usize = start;
    loop
        invariant
            start <= i <= n,
            n == s@.len(),
            p == pat@.len(),
            first_match_from(s@, pat@, start as int) == first_match_from(s@, pat@, i as int),
        decreases n - i,
    {
        if p > n - i {
            return None;
        }
        if p == 0 || occurs_at(s, i, pat) {
            return Some(i);
        }
        i = i + 1;
    }
}

/// `s` split around the first occurrence of `pat`.
pub fn split_once<'a>(s: &'a str, pat: &str) -> (r: Option<(&'a str, &'a str)>)
    ensures
        r is Some <==> split_once_of(s@, pat@) is Some,
        r is Some ==> split_once_of(s@, pat@) == Some((r->Some_0.0@, r->Some_0.1@)),
{
    match find_from(s, pat, 0) {
        Some(j) => {
            let n = s.unicode_len();
            let p = pat.unicode_len();
            Some((s.substring_char(0, j), s.substring_char(j + p, n)))
        },
        None => None,
    }
}

} // verus!
