//! The log extractor.
//!
//! Raw log text is handled line by line, each line on its own.  A line that
//! contains the label `Preparing:` contributes the text after the label —
//! leading blanks dropped, and only when something non-blank follows — to the
//! sequence of SQL templates.  A line that contains the label `Parameters:`
//! contributes the text after that label, with a trailing `, ` appended so
//! that concatenated batches stay comma-separated, to the sequence of value
//! lists.  All other lines are ignored.  The two sequences keep the order of
//! the input; the caller pairs them by position.

use vstd::prelude::*;

use crate::text::{is_ws, is_ws_char, lemma_trim_start_at, trim_start};

verus! {

/// Whether `pat` occurs in `s` starting at position `i`.
pub open spec fn matches_at(s: Seq<char>, pat: Seq<char>, i: int) -> bool {
    0 <= i && i + pat.len() <= s.len() && s.subrange(i, i + pat.len() as int) == pat
}

/// Position of the leftmost occurrence of `pat` in `s`, if any.
pub open spec fn find_sub(s: Seq<char>, pat: Seq<char>) -> Option<int>
    decreases s.len(),
{
    if pat.len() > s.len() {
        None
    } else if matches_at(s, pat, 0) {
        Some(0)
    } else if s.len() == 0 {
        None
    } else {
        match find_sub(s.skip(1), pat) {
            None => None,
            Some(i) => Some(i + 1),
        }
    }
}

/// Occurrences shift by one between `s` and `s` without its first character.
proof fn lemma_matches_shift(s: Seq<char>, pat: Seq<char>, j: int)
    requires
        0 <= j,
        s.len() > 0,
    ensures
        matches_at(s.skip(1), pat, j) == matches_at(s, pat, j + 1),
{
    if j + pat.len() <= s.len() - 1 {
        assert(s.skip(1).subrange(j, j + pat.len() as int) =~= s.subrange(
            j + 1,
            j + 1 + pat.len() as int,
        ));
    }
}

/// What [`find_sub`] returns: the position of an occurrence with no earlier
/// occurrence, or nothing when `pat` does not occur at all.
pub proof fn lemma_find_sub(s: Seq<char>, pat: Seq<char>)
    ensures
        match find_sub(s, pat) {
            Some(i) => matches_at(s, pat, i) && forall|j: int|
                0 <= j < i ==> !matches_at(s, pat, j),
            None => forall|j: int| !matches_at(s, pat, j),
        },
    decreases s.len(),
{
    if pat.len() > s.len() {
        assert forall|j: int| !matches_at(s, pat, j) by {}
    } else if matches_at(s, pat, 0) {
    } else if s.len() == 0 {
        assert forall|j: int| !matches_at(s, pat, j) by {}
    } else {
        lemma_find_sub(s.skip(1), pat);
        match find_sub(s.skip(1), pat) {
            None => {
                assert forall|j: int| !matches_at(s, pat, j) by {
                    if j > 0 {
                        lemma_matches_shift(s, pat, j - 1);
                    }
                }
            },
            Some(i) => {
                lemma_matches_shift(s, pat, i);
                assert forall|j: int| 0 <= j < i + 1 implies !matches_at(s, pat, j) by {
                    if j > 0 {
                        lemma_matches_shift(s, pat, j - 1);
                    }
                }
            },
        }
    }
}

/// Whether `pat` stands at position `i` of `s`, checked character by
/// character.
fn match_at(s: &str, pat: &str, i: usize) -> (b: bool)
    requires
        i + pat@.len() <= s@.len(),
        s@.len() <= usize::MAX,
    ensures
        b == matches_at(s@, pat@, i as int),
{
    let m = pat.unicode_len();
    let mut k: usize = 0;
    while k < m
        invariant
            k <= m,
            m == pat@.len(),
            i + m <= s@.len() <= usize::MAX,
            forall|t: int| 0 <= t < k ==> s@[i + t] == pat@[t],
        decreases m - k,
    {
        if s.get_char(i + k) != pat.get_char(k) {
            proof {
                assert(s@.subrange(i as int, i + m as int)[k as int] == s@[i + k]);
            }
            return false;
        }
        k += 1;
    }
    proof {
        assert(s@.subrange(i as int, i + m as int) =~= pat@);
    }
    true
}

/// Runtime search for the leftmost occurrence of `pat` in `s`.
fn find_substring(s: &str, pat: &str) -> (r: Option<usize>)
    ensures
        r matches Some(i) ==> find_sub(s@, pat@) == Some(i as int),
        r is None ==> find_sub(s@, pat@) is None,
{
    let n = s.unicode_len();
    let m = pat.unicode_len();
    if m > n {
        return None;
    }
    if m == 0 {
        proof {
            assert(s@.subrange(0, 0) =~= pat@);
        }
        return Some(0);
    }
    let mut i: usize = 0;
    while i <= n - m
        invariant
            0 < m <= n,
            n == s@.len(),
            m == pat@.len(),
            i <= n - m + 1,
            forall|j: int| 0 <= j < i ==> !matches_at(s@, pat@, j),
        decreases n - m - i + 1,
    {
        if match_at(s, pat, i) {
            proof {
                lemma_find_sub(s@, pat@);
                match find_sub(s@, pat@) {
                    Some(f) => {
                        if f < i {
                            assert(matches_at(s@, pat@, f));
                        } else if f > i {
                            assert(!matches_at(s@, pat@, i as int));
                        }
                    },
                    None => {
                        assert(!matches_at(s@, pat@, i as int));
                    },
                }
            }
            return Some(i);
        }
        i += 1;
    }
    proof {
        lemma_find_sub(s@, pat@);
        match find_sub(s@, pat@) {
            Some(f) => {
                assert(matches_at(s@, pat@, f));
            },
            None => {},
        }
    }
    None
}

/// The capture of a labelled line: the text after the leftmost occurrence of
/// `label`, leading blanks dropped; nothing when the label is absent or only
/// blanks follow it.
pub open spec fn extract_after_label(line: Seq<char>, label: Seq<char>) -> Option<Seq<char>> {
    match find_sub(line, label) {
        None => None,
        Some(i) => {
            let cap = trim_start(line.skip(i + label.len() as int));
            if cap.len() == 0 {
                None
            } else {
                Some(cap)
            }
        },
    }
}

/// Runtime capture of a labelled line.
fn match_label<'a>(line: &'a str, label: &str) -> (r: Option<&'a str>)
    ensures
        r matches Some(c) ==> extract_after_label(line@, label@) == Some(c@),
        r is None ==> extract_after_label(line@, label@) is None,
{
    let n = line.unicode_len();
    match find_substring(line, label) {
        None => None,
        Some(i) => {
            proof {
                lemma_find_sub(line@, label@);
            }
            let pos = i + label.unicode_len();
            let mut k: usize = pos;
            while k < n && is_ws_char(line.get_char(k))
                invariant
                    pos <= k <= n,
                    n == line@.len(),
                    forall|j: int| pos <= j < k ==> is_ws(line@[j]),
                decreases n - k,
            {
                k += 1;
            }
            proof {
                let tail = line@.skip(pos as int);
                assert forall|j: int| 0 <= j < k - pos implies is_ws(tail[j]) by {
                    assert(tail[j] == line@[j + pos]);
                }
                if k < n {
                    assert(tail[k - pos] == line@[k as int]);
                }
                lemma_trim_start_at(tail, k - pos);
                assert(tail.skip(k - pos) =~= line@.skip(k as int));
            }
            if k == n {
                None
            } else {
                Some(line.substring_char(k, n))
            }
        },
    }
}

/// The SQL templates extracted from the lines, in input order.
pub open spec fn sql_templates_of(lines: Seq<Seq<char>>) -> Seq<Seq<char>>
    decreases lines.len(),
{
    if lines.len() == 0 {
        Seq::<Seq<char>>::empty()
    } else {
        let rest = sql_templates_of(lines.skip(1));
        match extract_after_label(lines[0], "Preparing:"@) {
            Some(t) => seq![t] + rest,
            None => rest,
        }
    }
}

/// The value-list strings extracted from the lines, in input order, each with
/// `, ` appended.
pub open spec fn value_lists_of(lines: Seq<Seq<char>>) -> Seq<Seq<char>>
    decreases lines.len(),
{
    if lines.len() == 0 {
        Seq::<Seq<char>>::empty()
    } else {
        let rest = value_lists_of(lines.skip(1));
        match extract_after_label(lines[0], "Parameters:"@) {
            Some(c) => seq![c + ", "@] + rest,
            None => rest,
        }
    }
}

/// Extending the input by one line extends the extracted templates by that
/// line's capture, if any.
proof fn lemma_sql_templates_snoc(lines: Seq<Seq<char>>, x: Seq<char>)
    ensures
        sql_templates_of(lines.push(x)) == sql_templates_of(lines) + (
        match extract_after_label(x, "Preparing:"@) {
            Some(t) => seq![t],
            None => Seq::<Seq<char>>::empty(),
        }),
    decreases lines.len(),
{
    let ext = lines.push(x);
    assert(sql_templates_of(Seq::<Seq<char>>::empty()) == Seq::<Seq<char>>::empty());
    if lines.len() == 0 {
        assert(ext[0] == x);
        assert(ext.skip(1) =~= Seq::<Seq<char>>::empty());
        assert(sql_templates_of(ext) =~= sql_templates_of(lines) + (
        match extract_after_label(x, "Preparing:"@) {
            Some(t) => seq![t],
            None => Seq::<Seq<char>>::empty(),
        }));
    } else {
        assert(ext[0] == lines[0]);
        assert(ext.skip(1) =~= lines.skip(1).push(x));
        lemma_sql_templates_snoc(lines.skip(1), x);
        assert(sql_templates_of(ext) =~= sql_templates_of(lines) + (
        match extract_after_label(x, "Preparing:"@) {
            Some(t) => seq![t],
            None => Seq::<Seq<char>>::empty(),
        }));
    }
}

/// Extending the input by one line extends the extracted value lists by that
/// line's capture, if any.
proof fn lemma_value_lists_snoc(lines: Seq<Seq<char>>, x: Seq<char>)
    ensures
        value_lists_of(lines.push(x)) == value_lists_of(lines) + (
        match extract_after_label(x, "Parameters:"@) {
            Some(c) => seq![c + ", "@],
            None => Seq::<Seq<char>>::empty(),
        }),
    decreases lines.len(),
{
    let ext = lines.push(x);
    assert(value_lists_of(Seq::<Seq<char>>::empty()) == Seq::<Seq<char>>::empty());
    if lines.len() == 0 {
        assert(ext[0] == x);
        assert(ext.skip(1) =~= Seq::<Seq<char>>::empty());
        assert(value_lists_of(ext) =~= value_lists_of(lines) + (
        match extract_after_label(x, "Parameters:"@) {
            Some(c) => seq![c + ", "@],
            None => Seq::<Seq<char>>::empty(),
        }));
    } else {
        assert(ext[0] == lines[0]);
        assert(ext.skip(1) =~= lines.skip(1).push(x));
        lemma_value_lists_snoc(lines.skip(1), x);
        assert(value_lists_of(ext) =~= value_lists_of(lines) + (
        match extract_after_label(x, "Parameters:"@) {
            Some(c) => seq![c + ", "@],
            None => Seq::<Seq<char>>::empty(),
        }));
    }
}

/// The two parallel sequences extracted from a log: SQL templates and
/// value-list strings, paired by position by the caller.
#[derive(Debug, PartialEq, Eq)]
pub struct LogParser {
    pub sql: Vec<String>,
    pub value: Vec<String>,
}

impl LogParser {
    /// Extract templates and value lists from the given lines.  Yields
    /// nothing only when there are no lines at all; otherwise the batch is
    /// returned, possibly with both sequences empty.
    pub fn parse_lines(lines: Vec<&str>) -> (r: Option<LogParser>)
        ensures
            r is Some <==> lines@.len() > 0,
            r matches Some(lp) ==> lp.sql.deep_view() == sql_templates_of(lines.deep_view())
                && lp.value.deep_view() == value_lists_of(lines.deep_view()),
    {
        if lines.len() == 0 {
            return None;
        }
        let mut sql_lines: Vec<String> = Vec::new();
        let mut value_lines: Vec<String> = Vec::new();
        let n = lines.len();
        let mut i: usize = 0;
        proof {
            assert(lines.deep_view().take(0) =~= Seq::<Seq<char>>::empty());
        }
        while i < n
            invariant
                i <= n,
                n == lines@.len(),
                sql_lines.deep_view() == sql_templates_of(lines.deep_view().take(i as int)),
                value_lines.deep_view() == value_lists_of(lines.deep_view().take(i as int)),
            decreases n - i,
        {
            let ghost prev = lines.deep_view().take(i as int);
            let line = lines[i];
            proof {
                assert(lines.deep_view().take(i + 1) =~= prev.push(line@));
                lemma_sql_templates_snoc(prev, line@);
                lemma_value_lists_snoc(prev, line@);
            }
            let ghost sql_before = sql_lines.deep_view();
            match match_label(line, "Preparing:") {
                Some(cap) => {
                    sql_lines.push(String::from_str(cap));
                    proof {
                        assert(sql_lines.deep_view() =~= sql_before + seq![cap@]);
                    }
                },
                None => {
                    proof {
                        assert(sql_before + Seq::<Seq<char>>::empty() =~= sql_before);
                    }
                },
            }
            let ghost value_before = value_lines.deep_view();
            match match_label(line, "Parameters:") {
                Some(cap) => {
                    let entry = String::from_str(cap).concat(", ");
                    value_lines.push(entry);
                    proof {
                        assert(value_lines.deep_view() =~= value_before + seq![cap@ + ", "@]);
                    }
                },
                None => {
                    proof {
                        assert(value_before + Seq::<Seq<char>>::empty() =~= value_before);
                    }
                },
            }
            i += 1;
        }
        proof {
            assert(lines.deep_view().take(n as int) =~= lines.deep_view());
        }
        Some(LogParser { sql: sql_lines, value: value_lines })
    }
}

} // verus!
