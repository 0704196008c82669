//! Character classes and basic text utilities shared by the scanner, the
//! entity extractor and the filter compiler: substring search, prefix and
//! suffix tests, and whitespace trimming, all specified over `Seq<char>`.

use vstd::prelude::*;

verus! {

/// Whitespace as the scanner understands it: space, tab, newline, carriage
/// return.
pub open spec fn is_space(c: char) -> bool {
    c == ' ' || c == '\t' || c == '\n' || c == '\r'
}

/// Executable test matching [`is_space`].
pub fn space(c: char) -> (r: bool)
    ensures
        r == is_space(c),
{
    c == ' ' || c == '\t' || c == '\n' || c == '\r'
}

/// ASCII letters and digits: the characters an entity or field name is made
/// of.
pub open spec fn is_alnum(c: char) -> bool {
    ('a' <= c && c <= 'z') || ('A' <= c && c <= 'Z') || ('0' <= c && c <= '9')
}

/// Executable test matching [`is_alnum`].
pub fn alnum(c: char) -> (r: bool)
    ensures
        r == is_alnum(c),
{
    ('a' <= c && c <= 'z') || ('A' <= c && c <= 'Z') || ('0' <= c && c <= '9')
}

/// Identifier characters inside a selection set or an argument name: ASCII
/// letters, digits and the underscore.
pub open spec fn is_ident(c: char) -> bool {
    is_alnum(c) || c == '_'
}

/// Executable test matching [`is_ident`].
pub fn ident(c: char) -> (r: bool)
    ensures
        r == is_ident(c),
{
    alnum(c) || c == '_'
}

/// Characters that may open an identifier: ASCII letters and the underscore.
pub open spec fn is_ident_start(c: char) -> bool {
    ('a' <= c && c <= 'z') || ('A' <= c && c <= 'Z') || c == '_'
}

/// Executable test matching [`is_ident_start`].
pub fn ident_start(c: char) -> (r: bool)
    ensures
        r == is_ident_start(c),
{
    ('a' <= c && c <= 'z') || ('A' <= c && c <= 'Z') || c == '_'
}

/// The pattern `p` occurs in `s` starting at index `i`.
pub open spec fn match_at(s: Seq<char>, p: Seq<char>, i: int) -> bool {
    &&& 0 <= i
    &&& i + p.len() <= s.len()
    &&& forall|k: int| 0 <= k < p.len() ==> s[i + k] == p[k]
}

/// The index of the first occurrence of `p` in `s` at or after `i`, if any.
pub open spec fn spec_find(s: Seq<char>, p: Seq<char>, i: int) -> Option<int>
    decreases s.len() - i,
    when 0 <= i
{
    if i + p.len() > s.len() {
        None
    } else if match_at(s, p, i) {
        Some(i)
    } else {
        spec_find(s, p, i + 1)
    }
}

pub proof fn lemma_spec_find_range(s: Seq<char>, p: Seq<char>, i: int)
    requires
        0 <= i,
        spec_find(s, p, i) is Some,
    ensures
        i <= spec_find(s, p, i)->Some_0,
        spec_find(s, p, i)->Some_0 + p.len() <= s.len(),
    decreases s.len() - i,
{
    if i + p.len() > s.len() {
    } else if match_at(s, p, i) {
    } else {
        lemma_spec_find_range(s, p, i + 1);
    }
}

/// `s` contains `p` somewhere.
pub open spec fn contains_at_all(s: Seq<char>, p: Seq<char>) -> bool {
    spec_find(s, p, 0) is Some
}

/// Executable prefix test: does `p` occur in `s` at index `i`?
pub fn starts_at(s: &str, n: usize, i: usize, p: &str) -> (r: bool)
    requires
        n == s@.len(),
        i <= n,
    ensures
        r == match_at(s@, p@, i as int),
{
    let m = p.unicode_len();
    if m > n - i {
        return false;
    }
    let mut k: usize = 0;
    while k < m
        invariant
            0 <= k <= m,
            m == p@.len(),
            n == s@.len(),
            i + m <= n,
            forall|t: int| 0 <= t < k ==> s@[i + t] == p@[t],
        decreases m - k,
    {
        if s.get_char(i + k) != p.get_char(k) {
            return false;
        }
        k += 1;
    }
    true
}

/// Executable first-occurrence search matching [`spec_find`].
pub fn find_from(s: &str, n: usize, from: usize, p: &str) -> (r: Option<usize>)
    requires
        n == s@.len(),
        from <= n,
    ensures
        match r {
            Some(j) => from <= j <= n && spec_find(s@, p@, from as int) == Some(j as int),
            None => spec_find(s@, p@, from as int) is None,
        },
{
    let m = p.unicode_len();
    let mut i: usize = from;
    loop
        invariant
            from <= i <= n,
            n == s@.len(),
            m == p@.len(),
            spec_find(s@, p@, from as int) == spec_find(s@, p@, i as int),
        decreases n - i,
    {
        if m > n - i {
            return None;
        }
        if starts_at(s, n, i, p) {
            return Some(i);
        }
        i += 1;
    }
}

/// Executable containment test matching [`contains_at_all`].
pub fn contains_sub(s: &str, p: &str) -> (r: bool)
    ensures
        r == contains_at_all(s@, p@),
{
    let n = s.unicode_len();
    find_from(s, n, 0, p).is_some()
}

/// `s` ends with `p`.
pub open spec fn ends_with(s: Seq<char>, p: Seq<char>) -> bool {
    p.len() <= s.len() && match_at(s, p, s.len() - p.len())
}

/// Executable suffix test matching [`ends_with`].
pub fn has_suffix(s: &str, n: usize, p: &str) -> (r: bool)
    requires
        n == s@.len(),
    ensures
        r == ends_with(s@, p@),
{
    let m = p.unicode_len();
    if m > n {
        return false;
    }
    starts_at(s, n, n - m, p)
}

/// The first index at or after `i` holding a non-whitespace character (or the
/// length of `s` if all of the rest is whitespace).
pub open spec fn skip_spaces(s: Seq<char>, i: int) -> int
    decreases s.len() - i,
    when 0 <= i <= s.len()
{
    if i == s.len() || !is_space(s[i]) {
        i
    } else {
        skip_spaces(s, i + 1)
    }
}

pub proof fn lemma_skip_spaces_range(s: Seq<char>, i: int)
    requires
        0 <= i <= s.len(),
    ensures
        i <= skip_spaces(s, i) <= s.len(),
    decreases s.len() - i,
{
    if i == s.len() || !is_space(s[i]) {
    } else {
        lemma_skip_spaces_range(s, i + 1);
    }
}

/// Executable whitespace skip matching [`skip_spaces`].
pub fn advance_spaces(s: &str, n: usize, i: usize) -> (r: usize)
    requires
        n == s@.len(),
        i <= n,
    ensures
        r == skip_spaces(s@, i as int),
        i <= r <= n,
{
    let mut j: usize = i;
    while j < n && space(s.get_char(j))
        invariant
            i <= j <= n,
            n == s@.len(),
            skip_spaces(s@, i as int) == skip_spaces(s@, j as int),
        decreases n - j,
    {
        j += 1;
    }
    j
}

/// The end index of `s` once trailing whitespace before `j` is dropped,
/// never moving below `lo`.
pub open spec fn rskip_spaces(s: Seq<char>, j: int, lo: int) -> int
    decreases j,
    when 0 <= lo <= j <= s.len()
{
    if j == lo || !is_space(s[j - 1]) {
        j
    } else {
        rskip_spaces(s, j - 1, lo)
    }
}

pub proof fn lemma_rskip_spaces_range(s: Seq<char>, j: int, lo: int)
    requires
        0 <= lo <= j <= s.len(),
    ensures
        lo <= rskip_spaces(s, j, lo) <= j,
    decreases j,
{
    if j == lo || !is_space(s[j - 1]) {
    } else {
        lemma_rskip_spaces_range(s, j - 1, lo);
    }
}

/// Executable backwards whitespace skip matching [`rskip_spaces`].
pub fn retreat_spaces(s: &str, n: usize, j: usize, lo: usize) -> (r: usize)
    requires
        n == s@.len(),
        lo <= j <= n,
    ensures
        r == rskip_spaces(s@, j as int, lo as int),
        lo <= r <= j,
{
    let mut k: usize = j;
    while k > lo && space(s.get_char(k - 1))
        invariant
            lo <= k <= j <= n,
            n == s@.len(),
            rskip_spaces(s@, j as int, lo as int) == rskip_spaces(s@, k as int, lo as int),
        decreases k,
    {
        k -= 1;
    }
    k
}

/// `s` with leading and trailing whitespace removed.
pub open spec fn spec_trim(s: Seq<char>) -> Seq<char> {
    let a = skip_spaces(s, 0);
    let b = rskip_spaces(s, s.len() as int, a);
    s.subrange(a, b)
}

/// `s` with trailing whitespace removed.
pub open spec fn spec_trim_end(s: Seq<char>) -> Seq<char> {
    s.subrange(0, rskip_spaces(s, s.len() as int, 0))
}

/// Executable trim matching [`spec_trim`].
pub fn trim_of(s: &str) -> (r: String)
    ensures
        r@ == spec_trim(s@),
{
    let n = s.unicode_len();
    let a = advance_spaces(s, n, 0);
    let b = retreat_spaces(s, n, n, a);
    String::from_str(s.substring_char(a, b))
}

/// Executable end trim matching [`spec_trim_end`].
pub fn trim_end_of(s: &str) -> (r: String)
    ensures
        r@ == spec_trim_end(s@),
{
    let n = s.unicode_len();
    let b = retreat_spaces(s, n, n, 0);
    String::from_str(s.substring_char(0, b))
}

/// The first non-whitespace character of `s` is `c`.
pub open spec fn first_after_spaces_is(s: Seq<char>, c: char) -> bool {
    let a = skip_spaces(s, 0);
    a < s.len() && s[a] == c
}

/// Executable test matching [`first_after_spaces_is`].
pub fn first_nonspace_is(s: &str, c: char) -> (r: bool)
    ensures
        r == first_after_spaces_is(s@, c),
{
    let n = s.unicode_len();
    let a = advance_spaces(s, n, 0);
    if a < n {
        s.get_char(a) == c
    } else {
        false
    }
}

/// The index of the first occurrence of the character `c` at or after `i`.
pub open spec fn find_char(s: Seq<char>, c: char, i: int) -> Option<int>
    decreases s.len() - i,
    when 0 <= i
{
    if i >= s.len() {
        None
    } else if s[i] == c {
        Some(i)
    } else {
        find_char(s, c, i + 1)
    }
}

pub proof fn lemma_find_char_range(s: Seq<char>, c: char, i: int)
    requires
        0 <= i,
        find_char(s, c, i) is Some,
    ensures
        i <= find_char(s, c, i)->Some_0 < s.len(),
        s[find_char(s, c, i)->Some_0] == c,
    decreases s.len() - i,
{
    if i >= s.len() {
    } else if s[i] == c {
    } else {
        lemma_find_char_range(s, c, i + 1);
    }
}

/// Executable first-occurrence character search matching [`find_char`].
pub fn find_char_from(s: &str, n: usize, from: usize, c: char) -> (r: Option<usize>)
    requires
        n == s@.len(),
        from <= n,
    ensures
        match r {
            Some(j) => from <= j < n && find_char(s@, c, from as int) == Some(j as int),
            None => find_char(s@, c, from as int) is None,
        },
{
    let mut i: usize = from;
    while i < n
        invariant
            from <= i <= n,
            n == s@.len(),
            find_char(s@, c, from as int) == find_char(s@, c, i as int),
        decreases n - i,
    {
        if s.get_char(i) == c {
            return Some(i);
        }
        i += 1;
    }
    None
}

/// The index of the last occurrence of the character `c` in `s`.
pub open spec fn find_last_char(s: Seq<char>, c: char) -> Option<int>
    decreases s.len(),
{
    if s.len() == 0 {
        None
    } else if s[s.len() - 1] == c {
        Some(s.len() - 1)
    } else {
        find_last_char(s.drop_last(), c)
    }
}

/// Executable last-occurrence search matching [`find_last_char`].
pub fn find_last_char_in(s: &str, n: usize, c: char) -> (r: Option<usize>)
    requires
        n == s@.len(),
    ensures
        match r {
            Some(j) => j < n && find_last_char(s@, c) == Some(j as int),
            None => find_last_char(s@, c) is None,
        },
{
    proof {
        assert(s@.take(n as int) =~= s@);
    }
    let mut k: usize = n;
    while k > 0
        invariant
            0 <= k <= n,
            n == s@.len(),
            find_last_char(s@, c) == find_last_char(s@.take(k as int), c),
        decreases k,
    {
        proof {
            assert(s@.take(k as int).drop_last() =~= s@.take(k - 1));
            assert(s@.take(k as int)[k - 1] == s@[k - 1]);
        }
        if s.get_char(k - 1) == c {
            proof {
                assert(find_last_char(s@.take(k as int), c) == Some(k - 1));
            }
            return Some(k - 1);
        }
        k -= 1;
    }
    proof {
        assert(s@.take(0) =~= Seq::<char>::empty());
    }
    None
}

/// The first index at or after `i` holding a character other than `c`.
pub open spec fn skip_char(s: Seq<char>, i: int, c: char) -> int
    decreases s.len() - i,
    when 0 <= i <= s.len()
{
    if i == s.len() || s[i] != c {
        i
    } else {
        skip_char(s, i + 1, c)
    }
}

pub proof fn lemma_skip_char_range(s: Seq<char>, i: int, c: char)
    requires
        0 <= i <= s.len(),
    ensures
        i <= skip_char(s, i, c) <= s.len(),
    decreases s.len() - i,
{
    if i == s.len() || s[i] != c {
    } else {
        lemma_skip_char_range(s, i + 1, c);
    }
}

/// Executable skip matching [`skip_char`].
pub fn advance_char(s: &str, n: usize, i: usize, c: char) -> (r: usize)
    requires
        n == s@.len(),
        i <= n,
    ensures
        r == skip_char(s@, i as int, c),
        i <= r <= n,
{
    let mut j: usize = i;
    while j < n && s.get_char(j) == c
        invariant
            i <= j <= n,
            n == s@.len(),
            skip_char(s@, i as int, c) == skip_char(s@, j as int, c),
        decreases n - j,
    {
        j += 1;
    }
    j
}

/// The end index of `s` once trailing `c` characters before `j` are
/// dropped, never moving below `lo`.
pub open spec fn rskip_char(s: Seq<char>, j: int, lo: int, c: char) -> int
    decreases j,
    when 0 <= lo <= j <= s.len()
{
    if j == lo || s[j - 1] != c {
        j
    } else {
        rskip_char(s, j - 1, lo, c)
    }
}

pub proof fn lemma_rskip_char_range(s: Seq<char>, j: int, lo: int, c: char)
    requires
        0 <= lo <= j <= s.len(),
    ensures
        lo <= rskip_char(s, j, lo, c) <= j,
    decreases j,
{
    if j == lo || s[j - 1] != c {
    } else {
        lemma_rskip_char_range(s, j - 1, lo, c);
    }
}

/// Executable backwards skip matching [`rskip_char`].
pub fn retreat_char(s: &str, n: usize, j: usize, lo: usize, c: char) -> (r: usize)
    requires
        n == s@.len(),
        lo <= j <= n,
    ensures
        r == rskip_char(s@, j as int, lo as int, c),
        lo <= r <= j,
{
    let mut k: usize = j;
    while k > lo && s.get_char(k - 1) == c
        invariant
            lo <= k <= j <= n,
            n == s@.len(),
            rskip_char(s@, j as int, lo as int, c) == rskip_char(s@, k as int, lo as int, c),
        decreases k,
    {
        k -= 1;
    }
    k
}

/// The first index at or after `i` holding a non-identifier character.
pub open spec fn skip_ident(s: Seq<char>, i: int) -> int
    decreases s.len() - i,
    when 0 <= i <= s.len()
{
    if i == s.len() || !is_ident(s[i]) {
        i
    } else {
        skip_ident(s, i + 1)
    }
}

pub proof fn lemma_skip_ident_range(s: Seq<char>, i: int)
    requires
        0 <= i <= s.len(),
    ensures
        i <= skip_ident(s, i) <= s.len(),
    decreases s.len() - i,
{
    if i == s.len() || !is_ident(s[i]) {
    } else {
        lemma_skip_ident_range(s, i + 1);
    }
}

/// Executable identifier-run skip matching [`skip_ident`].
pub fn advance_ident(s: &str, n: usize, i: usize) -> (r: usize)
    requires
        n == s@.len(),
        i <= n,
    ensures
        r == skip_ident(s@, i as int),
        i <= r <= n,
{
    let mut j: usize = i;
    while j < n && ident(s.get_char(j))
        invariant
            i <= j <= n,
            n == s@.len(),
            skip_ident(s@, i as int) == skip_ident(s@, j as int),
        decreases n - j,
    {
        j += 1;
    }
    j
}

/// The first index at or after `i` holding a non-alphanumeric character.
pub open spec fn skip_alnum(s: Seq<char>, i: int) -> int
    decreases s.len() - i,
    when 0 <= i <= s.len()
{
    if i == s.len() || !is_alnum(s[i]) {
        i
    } else {
        skip_alnum(s, i + 1)
    }
}

pub proof fn lemma_skip_alnum_range(s: Seq<char>, i: int)
    requires
        0 <= i <= s.len(),
    ensures
        i <= skip_alnum(s, i) <= s.len(),
    decreases s.len() - i,
{
    if i == s.len() || !is_alnum(s[i]) {
    } else {
        lemma_skip_alnum_range(s, i + 1);
    }
}

/// Executable alphanumeric-run skip matching [`skip_alnum`].
pub fn advance_alnum(s: &str, n: usize, i: usize) -> (r: usize)
    requires
        n == s@.len(),
        i <= n,
    ensures
        r == skip_alnum(s@, i as int),
        i <= r <= n,
{
    let mut j: usize = i;
    while j < n && alnum(s.get_char(j))
        invariant
            i <= j <= n,
            n == s@.len(),
            skip_alnum(s@, i as int) == skip_alnum(s@, j as int),
        decreases n - j,
    {
        j += 1;
    }
    j
}

/// Trimming never lengthens the text.
pub proof fn lemma_trim_len(s: Seq<char>)
    ensures
        spec_trim(s).len() <= s.len(),
{
    lemma_skip_spaces_range(s, 0);
    lemma_rskip_spaces_range(s, s.len() as int, skip_spaces(s, 0));
}

/// Executable string equality over views.
pub fn str_eq(a: &str, b: &str) -> (r: bool)
    ensures
        r == (a@ == b@),
{
    let n = a.unicode_len();
    let m = b.unicode_len();
    if n != m {
        proof {
            assert(a@ != b@) by {
                if a@ == b@ {
                    assert(a@.len() == b@.len());
                }
            }
        }
        return false;
    }
    let r = starts_at(a, n, 0, b);
    proof {
        if r {
            assert(a@ =~= b@);
        } else {
            if a@ == b@ {
                assert(forall|k: int| 0 <= k < b@.len() ==> a@[0 + k] == b@[k]);
            }
        }
    }
    r
}

} // verus!
