//! Character-level helpers on strings: substring search, URL segments and
//! trailing-slash trimming.
use vstd::prelude::*;
use vstd::string::*;
use crate::package::texts;

verus! {

/// `n` occurs in `h` starting at position `i`.
pub open spec fn occurs_at(h: Seq<char>, n: Seq<char>, i: int) -> bool {
    0 <= i && i + n.len() <= h.len() && h.subrange(i, i + n.len()) == n
}

/// `n` occurs somewhere in `h` (the empty string occurs in every string).
pub open spec fn seq_contains(h: Seq<char>, n: Seq<char>) -> bool {
    exists|i: int| occurs_at(h, n, i)
}

/// Case-sensitive substring test.
pub fn str_contains(h: &str, n: &str) -> (r: bool)
    ensures
        r == seq_contains(h@, n@),
{
    let hl = h.unicode_len();
    let nl = n.unicode_len();
    if nl > hl {
        assert forall|i: int| !occurs_at(h@, n@, i) by {}
        return false;
    }
    let mut i: usize = 0;
    while i <= hl - nl
        invariant
            hl == h@.len(),
            nl == n@.len(),
            nl <= hl,
            forall|k: int| 0 <= k < i ==> !occurs_at(h@, n@, k),
        decreases hl - nl + 1 - i,
    {
        let mut j: usize = 0;
        let mut same = true;
        while j < nl
            invariant
                hl == h@.len(),
                nl == n@.len(),
                i + nl <= hl,
                j <= nl,
                same == (forall|k: int| 0 <= k < j ==> h@[i + k] == n@[k]),
            decreases nl - j,
        {
            if h.get_char(i + j) != n.get_char(j) {
                same = false;
            }
            j = j + 1;
        }
        if same {
            assert(h@.subrange(i as int, i + nl) =~= n@);
            assert(occurs_at(h@, n@, i as int));
            return true;
        }
        assert(!occurs_at(h@, n@, i as int)) by {
            if occurs_at(h@, n@, i as int) {
                assert forall|k: int| 0 <= k < nl implies h@[i + k] == n@[k] by {
                    assert(h@.subrange(i as int, i + nl)[k] == h@[i + k]);
                }
            }
        }
        i = i + 1;
    }
    assert forall|k: int| !occurs_at(h@, n@, k) by {
        if 0 <= k && k + nl <= hl {
            assert(k < i);
        }
    }
    false
}

/// What follows the last `/` of `s`, or all of `s` when it has none.
pub open spec fn last_segment(s: Seq<char>) -> Seq<char>
    decreases s.len(),
{
    if s.len() == 0 {
        s
    } else if s.last() == '/' {
        Seq::empty()
    } else {
        last_segment(s.drop_last()).push(s.last())
    }
}

/// The last `/`-separated segment of `s`.
pub fn last_segment_of(s: &str) -> (r: String)
    ensures
        r@ == last_segment(s@),
{
    let n = s.unicode_len();
    let mut j: usize = n;
    assert(s@.take(n as int) =~= s@);
    assert(s@.skip(n as int) =~= Seq::<char>::empty());
    while j > 0 && s.get_char(j - 1) != '/'
        invariant
            n == s@.len(),
            j <= n,
            last_segment(s@) == last_segment(s@.take(j as int)) + s@.skip(j as int),
        decreases j,
    {
        let ghost t = s@.take(j as int);
        assert(t.drop_last() =~= s@.take(j - 1));
        assert(t.last() == s@[j - 1]);
        assert(last_segment(t) == last_segment(s@.take(j - 1)).push(s@[j - 1]));
        assert(last_segment(s@.take(j - 1)).push(s@[j - 1]) + s@.skip(j as int)
            =~= last_segment(s@.take(j - 1)) + s@.skip(j - 1));
        j = j - 1;
    }
    assert(last_segment(s@.take(j as int)) =~= Seq::<char>::empty());
    assert(last_segment(s@) =~= s@.skip(j as int));
    String::from_str(s.substring_char(j, n))
}

/// The first index at or after `i` that holds a `/`, or the length of `s`.
pub open spec fn find_slash(s: Seq<char>, i: int) -> int
    decreases s.len() - i,
{
    if i >= s.len() {
        s.len() as int
    } else if s[i] == '/' {
        i
    } else {
        find_slash(s, i + 1)
    }
}

proof fn lemma_find_slash_bounds(s: Seq<char>, i: int)
    requires
        0 <= i,
    ensures
        i <= find_slash(s, i) || (i > s.len() && find_slash(s, i) == s.len()),
        find_slash(s, i) <= s.len() || i > s.len(),
        find_slash(s, i) >= 0,
    decreases s.len() - i,
{
    if i < s.len() && s[i] != '/' {
        lemma_find_slash_bounds(s, i + 1);
    }
}

/// Exec counterpart of `find_slash`.
fn find_slash_from(s: &str, n: usize, i: usize) -> (r: usize)
    requires
        n == s@.len(),
        i <= n,
    ensures
        r == find_slash(s@, i as int),
        i <= r <= n,
{
    let mut k: usize = i;
    while k < n && s.get_char(k) != '/'
        invariant
            n == s@.len(),
            i <= k <= n,
            find_slash(s@, i as int) == find_slash(s@, k as int),
        decreases n - k,
    {
        k = k + 1;
    }
    k
}

/// The third `/`-separated segment of `s` (the host of `scheme://host/...`),
/// if `s` holds at least two `/`.
pub open spec fn host_segment(s: Seq<char>) -> Option<Seq<char>> {
    let p1 = find_slash(s, 0);
    let p2 = find_slash(s, p1 + 1);
    let p3 = find_slash(s, p2 + 1);
    if p1 < s.len() && p2 < s.len() {
        Some(s.subrange(p2 + 1, p3))
    } else {
        None
    }
}

/// The host part of a URL, as `host_segment` says.
pub fn host_of(s: &str) -> (r: Option<String>)
    ensures
        r matches Some(h) ==> host_segment(s@) == Some(h@),
        r is None ==> host_segment(s@) is None,
{
    let n = s.unicode_len();
    let p1 = find_slash_from(s, n, 0);
    if p1 >= n {
        return None;
    }
    let p2 = find_slash_from(s, n, p1 + 1);
    if p2 >= n {
        return None;
    }
    let p3 = find_slash_from(s, n, p2 + 1);
    Some(String::from_str(s.substring_char(p2 + 1, p3)))
}

/// `s` without its trailing `/` characters.
pub open spec fn trim_trailing_slashes(s: Seq<char>) -> Seq<char>
    decreases s.len(),
{
    if s.len() > 0 && s.last() == '/' {
        trim_trailing_slashes(s.drop_last())
    } else {
        s
    }
}

/// Removes every trailing `/`.
pub fn trim_slashes_end(s: &str) -> (r: String)
    ensures
        r@ == trim_trailing_slashes(s@),
{
    let n = s.unicode_len();
    let mut j: usize = n;
    assert(s@.take(n as int) =~= s@);
    while j > 0 && s.get_char(j - 1) == '/'
        invariant
            n == s@.len(),
            j <= n,
            trim_trailing_slashes(s@) == trim_trailing_slashes(s@.take(j as int)),
        decreases j,
    {
        assert(s@.take(j as int).drop_last() =~= s@.take(j - 1));
        j = j - 1;
    }
    String::from_str(s.substring_char(0, j))
}

} // verus!

verus! {

/// Equality of two strings, character by character.
pub fn text_eq(a: &str, b: &str) -> (r: bool)
    ensures
        r == (a@ == b@),
{
    let n = a.unicode_len();
    if n != b.unicode_len() {
        return false;
    }
    let mut i: usize = 0;
    while i < n
        invariant
            n == a@.len(),
            n == b@.len(),
            i <= n,
            forall|k: int| 0 <= k < i ==> a@[k] == b@[k],
        decreases n - i,
    {
        if a.get_char(i) != b.get_char(i) {
            return false;
        }
        i = i + 1;
    }
    assert(a@ =~= b@);
    true
}

/// The first index at or after `i` that holds `c`, or the length of `s`.
pub open spec fn find_char(s: Seq<char>, c: char, i: int) -> int
    decreases s.len() - i,
{
    if i >= s.len() {
        s.len() as int
    } else if s[i] == c {
        i
    } else {
        find_char(s, c, i + 1)
    }
}

/// `s` without one trailing carriage return.
pub open spec fn strip_cr(s: Seq<char>) -> Seq<char> {
    if s.len() > 0 && s.last() == '\r' {
        s.drop_last()
    } else {
        s
    }
}

/// The lines of `s` from position `from` on: pieces between `\n`
/// characters, each without a trailing `\r`; a final line ending adds no
/// empty line.
pub open spec fn lines_from(s: Seq<char>, from: int) -> Seq<Seq<char>>
    decreases s.len() - from,
{
    if from < 0 || from >= s.len() {
        Seq::empty()
    } else {
        let e = find_char(s, '\n', from);
        if e < from || e >= s.len() {
            seq![strip_cr(s.subrange(from, s.len() as int))]
        } else {
            seq![strip_cr(s.subrange(from, e))] + lines_from(s, e + 1)
        }
    }
}

/// The lines of `s`.
pub open spec fn lines_of(s: Seq<char>) -> Seq<Seq<char>> {
    lines_from(s, 0)
}

/// Exec counterpart of `find_char`.
fn find_char_from(s: &str, n: usize, c: char, i: usize) -> (r: usize)
    requires
        n == s@.len(),
        i <= n,
    ensures
        r == find_char(s@, c, i as int),
        i <= r <= n,
{
    let mut k: usize = i;
    while k < n && s.get_char(k) != c
        invariant
            n == s@.len(),
            i <= k <= n,
            find_char(s@, c, i as int) == find_char(s@, c, k as int),
        decreases n - k,
    {
        k = k + 1;
    }
    k
}

/// The characters of `s` from `from` to `to`, without a trailing `\r`.
fn line_between(s: &str, from: usize, to: usize) -> (r: String)
    requires
        from <= to <= s@.len(),
    ensures
        r@ == strip_cr(s@.subrange(from as int, to as int)),
{
    let mut end = to;
    if to > from && s.get_char(to - 1) == '\r' {
        end = to - 1;
        assert(s@.subrange(from as int, to as int).drop_last() =~= s@.subrange(from as int, end as int));
    }
    String::from_str(s.substring_char(from, end))
}

/// Splits `s` into its lines.
pub fn split_lines(s: &str) -> (r: Vec<String>)
    ensures
        texts(r@) == lines_of(s@),
{
    let n = s.unicode_len();
    let mut r: Vec<String> = Vec::new();
    let mut i: usize = 0;
    while i < n
        invariant
            n == s@.len(),
            i <= n,
            texts(r@) + lines_from(s@, i as int) == lines_of(s@),
        decreases n - i,
    {
        let e = find_char_from(s, n, '\n', i);
        let line = line_between(s, i, e);
        let ghost before = r@;
        r.push(line);
        assert(texts(r@) =~= texts(before).push(line@));
        if e >= n {
            assert(lines_from(s@, i as int) == seq![line@]);
            assert(texts(r@) =~= texts(before) + lines_from(s@, i as int));
            i = n;
        } else {
            assert(lines_from(s@, i as int) == seq![line@] + lines_from(s@, e + 1));
            assert(texts(before) + (seq![line@] + lines_from(s@, e + 1)) =~= texts(r@)
                + lines_from(s@, e + 1));
            i = e + 1;
        }
    }
    assert(lines_from(s@, i as int) =~= Seq::<Seq<char>>::empty());
    assert(texts(r@) + Seq::<Seq<char>>::empty() =~= texts(r@));
    r
}

} // verus!
