//! The value-list parser and the placeholder substitutor.
//!
//! A value list is a comma-separated sequence of typed values such as
//! `zhangsan(String), 18(Integer)`.  Each segment is trimmed and split at its
//! first `(`: the text before it is the value, the text between that `(` and
//! the next `)` is the type tag (empty when either mark is missing).
//!
//! Substitution walks a SQL template character by character: every character
//! other than `?` is copied verbatim, and each `?` consumes the next value in
//! order, quoted in single quotes when its tag is string-like (`String` or
//! `Timestamp`) and emitted bare otherwise.  A `?` beyond the last value
//! emits nothing; unused trailing values are ignored.  An empty template or
//! an empty value text yields the empty string.

use vstd::prelude::*;

use crate::text::{find_char, find_char_in, lemma_find_char, str_eq, trim, trim_slice};

verus! {

/// One parsed value: its literal text and its type annotation.
#[derive(Debug)]
pub struct Value {
    pub field_value: String,
    pub field_type: String,
}

impl View for Value {
    type V = (Seq<char>, Seq<char>);

    open spec fn view(&self) -> (Seq<char>, Seq<char>) {
        (self.field_value@, self.field_type@)
    }
}

/// The tags whose values are wrapped in single quotes.
pub open spec fn is_string_like(tag: Seq<char>) -> bool {
    tag == "String"@ || tag == "Timestamp"@
}

impl Value {
    /// Whether this value must be single-quoted in the output.
    pub fn is_string(&self) -> (r: bool)
        ensures
            r == is_string_like(self.field_type@),
    {
        str_eq(self.field_type.as_str(), "String") || str_eq(self.field_type.as_str(), "Timestamp")
    }
}

/// `s` split at every occurrence of `sep`; splitting the empty sequence
/// yields one empty segment, as `str::split` does.
pub open spec fn split_on(s: Seq<char>, sep: char) -> Seq<Seq<char>>
    decreases s.len(),
{
    if s.len() == 0 {
        seq![Seq::<char>::empty()]
    } else if s[0] == sep {
        seq![Seq::<char>::empty()] + split_on(s.skip(1), sep)
    } else {
        let rest = split_on(s.skip(1), sep);
        seq![seq![s[0]] + rest[0]] + rest.skip(1)
    }
}

/// Splitting always yields at least one segment.
pub proof fn lemma_split_non_empty(s: Seq<char>, sep: char)
    ensures
        split_on(s, sep).len() >= 1,
    decreases s.len(),
{
    if s.len() == 0 {
    } else if s[0] == sep {
    } else {
        lemma_split_non_empty(s.skip(1), sep);
    }
}

/// A sequence without the separator is a single segment.
pub proof fn lemma_split_whole(s: Seq<char>, sep: char)
    requires
        forall|j: int| 0 <= j < s.len() ==> s[j] != sep,
    ensures
        split_on(s, sep) == seq![s],
    decreases s.len(),
{
    if s.len() == 0 {
        assert(split_on(s, sep) =~~= seq![s]);
    } else {
        assert forall|j: int| 0 <= j < s.skip(1).len() implies s.skip(1)[j] != sep by {
            assert(s.skip(1)[j] == s[j + 1]);
        }
        lemma_split_whole(s.skip(1), sep);
        assert(seq![s[0]] + s.skip(1) =~= s);
        assert(split_on(s, sep) =~~= seq![s]);
    }
}

/// Peeling off the first segment: when the first separator stands at `q`,
/// the split is the text before `q` followed by the split of the text after
/// `q`.
pub proof fn lemma_split_step(s: Seq<char>, sep: char, q: int)
    requires
        0 <= q < s.len(),
        s[q] == sep,
        forall|j: int| 0 <= j < q ==> s[j] != sep,
    ensures
        split_on(s, sep) == seq![s.take(q)] + split_on(s.skip(q + 1), sep),
    decreases q,
{
    if q == 0 {
        assert(s.take(0) =~= Seq::<char>::empty());
    } else {
        assert forall|j: int| 0 <= j < q - 1 implies s.skip(1)[j] != sep by {
            assert(s.skip(1)[j] == s[j + 1]);
        }
        assert(s.skip(1)[q - 1] == s[q]);
        lemma_split_step(s.skip(1), sep, q - 1);
        let rest = split_on(s.skip(1), sep);
        lemma_split_non_empty(s.skip(1).skip(q), sep);
        assert(rest[0] == s.skip(1).take(q - 1));
        assert(seq![s[0]] + s.skip(1).take(q - 1) =~= s.take(q));
        assert(s.skip(1).skip(q) =~= s.skip(q + 1));
        assert(split_on(s, sep) =~= seq![s.take(q)] + split_on(s.skip(q + 1), sep));
    }
}

/// One trimmed segment parsed into value text and type tag: the value is the
/// text before the first `(`, and the tag is the text between that `(` and
/// the next `)` — empty when either mark is missing.
pub open spec fn parse_segment_spec(seg: Seq<char>) -> (Seq<char>, Seq<char>) {
    let t = trim(seg);
    let p = find_char(t, '(');
    if p == t.len() {
        (t, Seq::<char>::empty())
    } else {
        let rest = t.skip(p + 1);
        let q = find_char(rest, ')');
        if q == rest.len() {
            (t.take(p), Seq::<char>::empty())
        } else {
            (t.take(p), rest.take(q))
        }
    }
}

/// The whole value text parsed into an ordered sequence of (value, tag)
/// pairs, one per comma-separated segment.
pub open spec fn parse_values_spec(s: Seq<char>) -> Seq<(Seq<char>, Seq<char>)> {
    split_on(s, ',').map_values(|seg: Seq<char>| parse_segment_spec(seg))
}

/// The value list always parses, whatever the input, and always yields at
/// least one value.
pub proof fn lemma_parse_value_list_total(s: Seq<char>)
    ensures
        parse_values_spec(s).len() >= 1,
{
    lemma_split_non_empty(s, ',');
}

/// Parse one segment.
fn parse_segment(seg: &str) -> (v: Value)
    ensures
        v@ == parse_segment_spec(seg@),
{
    let t = trim_slice(seg);
    let tn = t.unicode_len();
    let p = find_char_in(t, '(');
    proof {
        lemma_find_char(t@, '(');
    }
    if p == tn {
        Value { field_value: String::from_str(t), field_type: String::new() }
    } else {
        let raw = t.substring_char(0, p);
        let rest = t.substring_char(p + 1, tn);
        proof {
            lemma_find_char(rest@, ')');
        }
        let q = find_char_in(rest, ')');
        let tag = if q == rest.unicode_len() {
            String::new()
        } else {
            String::from_str(rest.substring_char(0, q))
        };
        Value { field_value: String::from_str(raw), field_type: tag }
    }
}

/// Parse a comma-separated, type-annotated value text into its ordered
/// values.  Never fails: malformed segments yield empty value text or an
/// empty tag.
pub fn values(value: &str) -> (r: Vec<Value>)
    ensures
        r@.map_values(|v: Value| v@) == parse_values_spec(value@),
{
    let n = value.unicode_len();
    let mut r: Vec<Value> = Vec::new();
    let ghost mut segs: Seq<Seq<char>> = Seq::empty();
    let mut start: usize = 0;
    let mut i: usize = 0;
    proof {
        assert(value@.skip(0) =~= value@);
        assert(segs + split_on(value@, ',') =~= split_on(value@, ','));
    }
    while i < n
        invariant
            start <= i <= n,
            n == value@.len(),
            segs + split_on(value@.skip(start as int), ',') == split_on(value@, ','),
            forall|j: int| start <= j < i ==> value@[j] != ',',
            r@.len() == segs.len(),
            forall|k: int| 0 <= k < segs.len() ==> #[trigger] r@[k]@ == parse_segment_spec(segs[k]),
        decreases n - i,
    {
        if value.get_char(i) == ',' {
            let seg = value.substring_char(start, i);
            let v = parse_segment(seg);
            r.push(v);
            proof {
                let tail = value@.skip(start as int);
                assert forall|j: int| 0 <= j < i - start implies tail[j] != ',' by {
                    assert(tail[j] == value@[j + start]);
                }
                assert(tail[i - start] == value@[i as int]);
                lemma_split_step(tail, ',', i - start);
                assert(tail.take(i - start) =~= seg@);
                assert(tail.skip(i - start + 1) =~= value@.skip(i + 1));
                segs = segs.push(seg@);
                assert(segs + split_on(value@.skip(i + 1), ',') =~= split_on(value@, ','));
            }
            start = i + 1;
        }
        i += 1;
    }
    let seg = value.substring_char(start, n);
    let v = parse_segment(seg);
    r.push(v);
    proof {
        let tail = value@.skip(start as int);
        assert forall|j: int| 0 <= j < tail.len() implies tail[j] != ',' by {
            assert(tail[j] == value@[j + start]);
        }
        lemma_split_whole(tail, ',');
        assert(tail =~= seg@);
        segs = segs.push(seg@);
        assert(segs =~= split_on(value@, ','));
        assert(r@.map_values(|vv: Value| vv@) =~= parse_values_spec(value@));
    }
    r
}

/// How one value is written into the output: single-quoted when its tag is
/// string-like, verbatim otherwise.
pub open spec fn rendered(v: (Seq<char>, Seq<char>)) -> Seq<char> {
    if is_string_like(v.1) {
        seq!['\''] + v.0 + seq!['\'']
    } else {
        v.0
    }
}

/// The substitution walk: characters of `sql` other than `?` are copied;
/// each `?` consumes position `cursor` of `vals` (nothing when the cursor
/// has run past the end) and moves the cursor on.
pub open spec fn substitute_spec(
    sql: Seq<char>,
    vals: Seq<(Seq<char>, Seq<char>)>,
    cursor: int,
) -> Seq<char>
    decreases sql.len(),
{
    if sql.len() == 0 {
        Seq::<char>::empty()
    } else if sql[0] == '?' {
        (if 0 <= cursor < vals.len() {
            rendered(vals[cursor])
        } else {
            Seq::<char>::empty()
        }) + substitute_spec(sql.skip(1), vals, cursor + 1)
    } else {
        seq![sql[0]] + substitute_spec(sql.skip(1), vals, cursor)
    }
}

/// The whole operation: empty template or empty value text short-circuits to
/// the empty string; otherwise the parsed values are substituted into the
/// template from a cursor starting at zero.
pub open spec fn replace_placeholder_spec(sql: Seq<char>, value: Seq<char>) -> Seq<char> {
    if sql.len() == 0 || value.len() == 0 {
        Seq::<char>::empty()
    } else {
        substitute_spec(sql, parse_values_spec(value), 0)
    }
}

/// A template without placeholder markers passes through the walk unchanged,
/// whatever the values and wherever the cursor stands.
proof fn lemma_substitute_no_placeholder(
    sql: Seq<char>,
    vals: Seq<(Seq<char>, Seq<char>)>,
    cursor: int,
)
    requires
        forall|j: int| 0 <= j < sql.len() ==> sql[j] != '?',
    ensures
        substitute_spec(sql, vals, cursor) == sql,
    decreases sql.len(),
{
    if sql.len() == 0 {
        assert(substitute_spec(sql, vals, cursor) =~= sql);
    } else {
        assert forall|j: int| 0 <= j < sql.skip(1).len() implies sql.skip(1)[j] != '?' by {
            assert(sql.skip(1)[j] == sql[j + 1]);
        }
        lemma_substitute_no_placeholder(sql.skip(1), vals, cursor);
        assert(seq![sql[0]] + sql.skip(1) =~= sql);
    }
}

/// A template with no `?` comes back unchanged for any non-empty value text.
pub proof fn lemma_no_placeholder_unchanged(sql: Seq<char>, value: Seq<char>)
    requires
        sql.len() > 0,
        value.len() > 0,
        forall|j: int| 0 <= j < sql.len() ==> sql[j] != '?',
    ensures
        replace_placeholder_spec(sql, value) == sql,
{
    lemma_substitute_no_placeholder(sql, parse_values_spec(value), 0);
}

/// An empty template, or a non-empty template with empty value text, yields
/// the empty string.
pub proof fn lemma_empty_short_circuit(sql: Seq<char>, value: Seq<char>)
    requires
        sql.len() == 0 || value.len() == 0,
    ensures
        replace_placeholder_spec(sql, value) == Seq::<char>::empty(),
{
}

/// The characters of the template that are copied verbatim: everything but
/// the placeholder markers, in template order.
pub open spec fn verbatim_chars(sql: Seq<char>) -> Seq<char>
    decreases sql.len(),
{
    if sql.len() == 0 {
        Seq::<char>::empty()
    } else if sql[0] == '?' {
        verbatim_chars(sql.skip(1))
    } else {
        seq![sql[0]] + verbatim_chars(sql.skip(1))
    }
}

/// The combined length of what the consumed values contribute to the output.
pub open spec fn rendered_total(
    sql: Seq<char>,
    vals: Seq<(Seq<char>, Seq<char>)>,
    cursor: int,
) -> nat
    decreases sql.len(),
{
    if sql.len() == 0 {
        0
    } else if sql[0] == '?' {
        (if 0 <= cursor < vals.len() {
            rendered(vals[cursor]).len()
        } else {
            0
        }) + rendered_total(sql.skip(1), vals, cursor + 1)
    } else {
        rendered_total(sql.skip(1), vals, cursor)
    }
}

/// Every non-`?` character of the template is copied, and nothing else comes
/// from the template: the output is exactly as long as the verbatim
/// characters plus what the values contribute.
pub proof fn lemma_output_length(sql: Seq<char>, vals: Seq<(Seq<char>, Seq<char>)>, cursor: int)
    ensures
        substitute_spec(sql, vals, cursor).len() == verbatim_chars(sql).len() + rendered_total(
            sql,
            vals,
            cursor,
        ),
    decreases sql.len(),
{
    if sql.len() == 0 {
    } else if sql[0] == '?' {
        lemma_output_length(sql.skip(1), vals, cursor + 1);
    } else {
        lemma_output_length(sql.skip(1), vals, cursor);
    }
}

/// Once the cursor has run past the values — in particular when there are
/// none — the walk yields exactly the verbatim characters, order preserved.
pub proof fn lemma_substitute_verbatim(
    sql: Seq<char>,
    vals: Seq<(Seq<char>, Seq<char>)>,
    cursor: int,
)
    requires
        cursor >= vals.len(),
    ensures
        substitute_spec(sql, vals, cursor) == verbatim_chars(sql),
    decreases sql.len(),
{
    if sql.len() == 0 {
    } else if sql[0] == '?' {
        lemma_substitute_verbatim(sql.skip(1), vals, cursor + 1);
        assert(substitute_spec(sql, vals, cursor) =~= verbatim_chars(sql));
    } else {
        lemma_substitute_verbatim(sql.skip(1), vals, cursor);
    }
}

/// String-like values are single-quoted in the output; all others are
/// written bare.
pub proof fn lemma_string_like_quoted(v: (Seq<char>, Seq<char>))
    ensures
        is_string_like(v.1) ==> rendered(v) == seq!['\''] + v.0 + seq!['\''],
        !is_string_like(v.1) ==> rendered(v) == v.0,
{
}

/// A template that is one placeholder marker puts exactly the rendering of
/// the first value into the output.
pub proof fn lemma_single_placeholder(v: (Seq<char>, Seq<char>))
    ensures
        substitute_spec(seq!['?'], seq![v], 0) == rendered(v),
{
    let sql = seq!['?'];
    assert(sql[0] == '?');
    assert(sql.skip(1) =~= Seq::<char>::empty());
    assert(substitute_spec(sql.skip(1), seq![v], 1) =~= Seq::<char>::empty());
    assert(substitute_spec(sql, seq![v], 0) =~= rendered(v));
}

/// Substitute the values parsed from `value` for the `?` placeholders of
/// `sql`, in order.
pub fn replace_placeholder(sql: &str, value: &str) -> (result: String)
    ensures
        result@ == replace_placeholder_spec(sql@, value@),
{
    if sql.is_empty() || value.is_empty() {
        return String::new();
    }
    let vals = values(value);
    let ghost vm = parse_values_spec(value@);
    let mut result = String::new();
    let n = sql.unicode_len();
    let mut i: usize = 0;
    let mut cursor: usize = 0;
    proof {
        assert(sql@.skip(0) =~= sql@);
        assert(result@ + substitute_spec(sql@, vm, 0) =~= substitute_spec(sql@, vm, 0));
    }
    while i < n
        invariant
            i <= n,
            cursor <= i,
            n == sql@.len(),
            vals@.map_values(|v: Value| v@) == vm,
            result@ + substitute_spec(sql@.skip(i as int), vm, cursor as int) == substitute_spec(
                sql@,
                vm,
                0,
            ),
        decreases n - i,
    {
        let ghost prefix = result@;
        let ghost tail = sql@.skip(i as int);
        proof {
            assert(tail[0] == sql@[i as int]);
            assert(tail.skip(1) =~= sql@.skip(i + 1));
        }
        let c = sql.get_char(i);
        if c == '?' {
            if cursor < vals.len() {
                let quoted = vals[cursor].is_string();
                proof {
                    assert(vals@.map_values(|v: Value| v@)[cursor as int] == vm[cursor as int]);
                    reveal_strlit("'");
                    assert("'"@ =~= seq!['\'']);
                }
                if quoted {
                    result.append("'");
                    result.append(vals[cursor].field_value.as_str());
                    result.append("'");
                } else {
                    result.append(vals[cursor].field_value.as_str());
                }
                proof {
                    assert(result@ =~= prefix + rendered(vm[cursor as int]));
                }
            }
            cursor += 1;
            proof {
                assert(prefix + substitute_spec(tail, vm, cursor - 1) =~= result@
                    + substitute_spec(sql@.skip(i + 1), vm, cursor as int));
            }
        } else {
            let piece = sql.substring_char(i, i + 1);
            proof {
                assert(piece@ =~= seq![sql@[i as int]]);
            }
            result.append(piece);
            proof {
                assert(prefix + substitute_spec(tail, vm, cursor as int) =~= result@
                    + substitute_spec(sql@.skip(i + 1), vm, cursor as int));
            }
        }
        i += 1;
    }
    proof {
        assert(sql@.skip(n as int) =~= Seq::<char>::empty());
        assert(result@ + Seq::<char>::empty() =~= result@);
    }
    result
}

} // verus!
