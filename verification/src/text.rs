//! Character-level helpers shared by the value-list parser, the placeholder
//! substitutor and the log extractor: whitespace classification, first
//! occurrence of a character, and whitespace trimming.

use vstd::prelude::*;

verus! {

/// Whitespace for this library: the ASCII blank characters that occur around
/// values and after the labels of log lines.
pub open spec fn is_ws(c: char) -> bool {
    c == ' ' || c == '\t' || c == '\r' || c == '\n'
}

/// Runtime counterpart of [`is_ws`].
pub fn is_ws_char(c: char) -> (r: bool)
    ensures
        r == is_ws(c),
{
    c == ' ' || c == '\t' || c == '\r' || c == '\n'
}

/// Index of the first occurrence of `c` in `s`, or `s.len()` when `c` does
/// not occur.
pub open spec fn find_char(s: Seq<char>, c: char) -> int
    decreases s.len(),
{
    if s.len() == 0 {
        0
    } else if s[0] == c {
        0
    } else {
        1 + find_char(s.skip(1), c)
    }
}

/// What [`find_char`] returns: an index within bounds, pointing at `c` when
/// `c` occurs, with no occurrence of `c` before it.
pub proof fn lemma_find_char(s: Seq<char>, c: char)
    ensures
        0 <= find_char(s, c) <= s.len(),
        find_char(s, c) < s.len() ==> s[find_char(s, c)] == c,
        forall|j: int| 0 <= j < find_char(s, c) ==> s[j] != c,
    decreases s.len(),
{
    if s.len() == 0 {
    } else if s[0] == c {
    } else {
        lemma_find_char(s.skip(1), c);
        let f = find_char(s, c);
        assert forall|j: int| 0 <= j < f implies s[j] != c by {
            if j > 0 {
                assert(s.skip(1)[j - 1] == s[j]);
            }
        }
        if f < s.len() {
            assert(s.skip(1)[f - 1] == s[f]);
        }
    }
}

/// Runtime search for the first occurrence of `c` in `s`.
pub fn find_char_in(s: &str, c: char) -> (r: usize)
    ensures
        r == find_char(s@, c),
{
    let n = s.unicode_len();
    let mut i: usize = 0;
    while i < n
        invariant
            i <= n,
            n == s@.len(),
            forall|j: int| 0 <= j < i ==> s@[j] != c,
        decreases n - i,
    {
        if s.get_char(i) == c {
            proof {
                lemma_find_char(s@, c);
                let f = find_char(s@, c);
                if f < i {
                    assert(s@[f] != c);
                } else if f > i {
                    assert(s@[i as int] != c);
                }
            }
            return i;
        }
        i += 1;
    }
    proof {
        lemma_find_char(s@, c);
        let f = find_char(s@, c);
        if f < n {
            assert(s@[f] != c);
        }
    }
    n
}

/// Runtime equality of two string slices, character by character.
pub fn str_eq(a: &str, b: &str) -> (r: bool)
    ensures
        r == (a@ == b@),
{
    let n = a.unicode_len();
    if n != b.unicode_len() {
        proof {
            assert(a@ != b@);
        }
        return false;
    }
    let mut i: usize = 0;
    while i < n
        invariant
            i <= n,
            n == a@.len() && n == b@.len(),
            forall|j: int| 0 <= j < i ==> a@[j] == b@[j],
        decreases n - i,
    {
        if a.get_char(i) != b.get_char(i) {
            return false;
        }
        i += 1;
    }
    proof {
        assert(a@ =~= b@);
    }
    true
}

/// `s` with its leading whitespace removed.
pub open spec fn trim_start(s: Seq<char>) -> Seq<char>
    decreases s.len(),
{
    if s.len() > 0 && is_ws(s[0]) {
        trim_start(s.skip(1))
    } else {
        s
    }
}

/// `s` with its trailing whitespace removed.
pub open spec fn trim_end(s: Seq<char>) -> Seq<char>
    decreases s.len(),
{
    if s.len() > 0 && is_ws(s[s.len() - 1]) {
        trim_end(s.take(s.len() - 1))
    } else {
        s
    }
}

/// `s` with both leading and trailing whitespace removed.
pub open spec fn trim(s: Seq<char>) -> Seq<char> {
    trim_end(trim_start(s))
}

/// [`trim_start`] drops exactly the longest whitespace prefix: when
/// everything before `a` is whitespace and `a` is the end or a non-blank
/// character, the result is `s` from `a` on.
pub proof fn lemma_trim_start_at(s: Seq<char>, a: int)
    requires
        0 <= a <= s.len(),
        forall|j: int| 0 <= j < a ==> is_ws(s[j]),
        a < s.len() ==> !is_ws(s[a]),
    ensures
        trim_start(s) == s.skip(a),
    decreases a,
{
    if a == 0 {
        assert(s.skip(0) =~= s);
    } else {
        lemma_trim_start_at(s.skip(1), a - 1);
        assert forall|j: int| 0 <= j < a - 1 implies is_ws(s.skip(1)[j]) by {
            assert(s.skip(1)[j] == s[j + 1]);
        }
        assert(s.skip(1).skip(a - 1) =~= s.skip(a));
    }
}

/// [`trim_end`] drops exactly the longest whitespace suffix: when everything
/// from `b` on is whitespace and `b` is the start or follows a non-blank
/// character, the result is `s` up to `b`.
pub proof fn lemma_trim_end_at(s: Seq<char>, b: int)
    requires
        0 <= b <= s.len(),
        forall|j: int| b <= j < s.len() ==> is_ws(s[j]),
        b > 0 ==> !is_ws(s[b - 1]),
    ensures
        trim_end(s) == s.take(b),
    decreases s.len() - b,
{
    if b == s.len() {
        assert(s.take(b) =~= s);
    } else {
        lemma_trim_end_at(s.take(s.len() - 1), b);
        assert(s.take(s.len() - 1).take(b) =~= s.take(b));
    }
}

/// Runtime trim: the sub-slice of `s` with leading and trailing whitespace
/// removed.
pub fn trim_slice<'a>(s: &'a str) -> (r: &'a str)
    ensures
        r@ == trim(s@),
{
    let n = s.unicode_len();
    let mut a: usize = 0;
    while a < n && is_ws_char(s.get_char(a))
        invariant
            a <= n,
            n == s@.len(),
            forall|j: int| 0 <= j < a ==> is_ws(s@[j]),
        decreases n - a,
    {
        a += 1;
    }
    proof {
        lemma_trim_start_at(s@, a as int);
    }
    if a == n {
        let r = s.substring_char(a, n);
        proof {
            assert(trim_start(s@) =~= Seq::<char>::empty());
        }
        return r;
    }
    let mut b: usize = n;
    while b > a && is_ws_char(s.get_char(b - 1))
        invariant
            a <= b <= n,
            n == s@.len(),
            forall|j: int| b <= j < n ==> is_ws(s@[j]),
        decreases b,
    {
        b -= 1;
    }
    // the scan stopped at a non-blank character, so position a is non-blank
    // and hence b never moved past it
    proof {
        let t = trim_start(s@);
        assert(t =~= s@.skip(a as int));
        assert forall|j: int| (b - a) <= j < t.len() implies is_ws(t[j]) by {
            assert(t[j] == s@[j + a]);
        }
        if b > a {
            assert(t[b - a - 1] == s@[b - 1]);
        }
        lemma_trim_end_at(t, b - a);
        assert(t.take(b - a) =~= s@.subrange(a as int, b as int));
    }
    s.substring_char(a, b)
}

} // verus!
