use vstd::prelude::*;

verus! {

/// Whether `s` begins with `p`.
pub open spec fn starts_with(s: Seq<char>, p: Seq<char>) -> bool {
    p.len() <= s.len() && s.subrange(0, p.len() as int) == p
}

/// `s` with every leading repetition of `p` removed.
pub open spec fn trim_prefixes(s: Seq<char>, p: Seq<char>) -> Seq<char>
    decreases s.len(),
{
    if p.len() > 0 && starts_with(s, p) {
        trim_prefixes(s.skip(p.len() as int), p)
    } else {
        s
    }
}

/// Whether `r` is `s` up to, not including, its first `/` (all of `s` if
/// it has none).
pub open spec fn is_before_slash(s: Seq<char>, r: Seq<char>) -> bool {
    &&& r.len() <= s.len()
    &&& r == s.take(r.len() as int)
    &&& forall|i: int| 0 <= i < r.len() ==> r[i] != '/'
    &&& (r.len() == s.len() || s[r.len() as int] == '/')
}

/// The host part of an `http://` or `https://` URL.
pub open spec fn url_host(url: Seq<char>) -> Seq<char> {
    trim_prefixes(trim_prefixes(url, "https://"@), "http://"@)
}

pub fn has_prefix(s: &str, p: &str) -> (r: bool)
    ensures
        r == starts_with(s@, p@),
{
    let n = s.unicode_len();
    let m = p.unicode_len();
    if m > n {
        return false;
    }
    let mut i: usize = 0;
    while i < m
        invariant
            m <= n,
            n == s@.len(),
            m == p@.len(),
            i <= m,
            forall|k: int| 0 <= k < i ==> s@[k] == p@[k],
        decreases m - i,
    {
        if s.get_char(i) != p.get_char(i) {
            assert(s@.subrange(0, m as int)[i as int] != p@[i as int]);
            return false;
        }
        i = i + 1;
    }
    assert(s@.subrange(0, m as int) =~= p@);
    true
}

/// Removes every leading repetition of `p` from `s`.
pub fn trim_start_matches<'a>(s: &'a str, p: &str) -> (r: &'a str)
    ensures
        r@ == trim_prefixes(s@, p@),
{
    let m = p.unicode_len();
    let mut rest: &str = s;
    if m == 0 {
        return rest;
    }
    while has_prefix(rest, p)
        invariant
            m == p@.len(),
            m > 0,
            trim_prefixes(rest@, p@) == trim_prefixes(s@, p@),
        decreases rest@.len(),
    {
        let n = rest.unicode_len();
        let ghost before = rest@;
        rest = rest.substring_char(m, n);
        assert(rest@ == before.skip(m as int));
    }
    rest
}

/// The text of `s` before its first `/`.
pub fn until_slash(s: &str) -> (r: &str)
    ensures
        is_before_slash(s@, r@),
{
    let n = s.unicode_len();
    let mut k: usize = 0;
    while k < n && s.get_char(k) != '/'
        invariant
            n == s@.len(),
            k <= n,
            forall|i: int| 0 <= i < k ==> s@[i] != '/',
        decreases n - k,
    {
        k = k + 1;
    }
    s.substring_char(0, k)
}

/// The host of an `http://` or `https://` URL: the scheme taken off, and
/// everything from the first `/` on.
pub fn host_of(url: &str) -> (r: String)
    ensures
        is_before_slash(url_host(url@), r@),
{
    let rest = trim_start_matches(trim_start_matches(url, "https://"), "http://");
    String::from_str(until_slash(rest))
}

} // verus!
