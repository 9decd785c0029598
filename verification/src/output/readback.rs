//! What is written to an env file can be read back from it.

use crate::output::env::{
    entry_of, escaped, lemma_line_length, line_length, line_of, needs_quotes, parsed, read_into,
    text_of, unquoted, written,
};
use crate::output::order::{inserted, sorted_by_key};
use crate::strmap::{
    distinct_keys, has_key, lemma_lookup_put_all, lemma_position, lemma_put_distinct, lookup,
    position, put, put_all, Pairs,
};
use crate::text::{find_from, is_space, lemma_find_from, occurs_at, trim, trim_end, trim_start};
use vstd::prelude::*;

verus! {

/// A key that a line of an env file holds as it is: not empty, without `=`
/// and line feed, without white space at its ends, and no comment sign at
/// its start.
pub open spec fn plain_key(k: Seq<char>) -> bool {
    &&& k.len() > 0
    &&& !k.contains('=')
    &&& !k.contains('\n')
    &&& !is_space(k[0])
    &&& !is_space(k.last())
    &&& k[0] != '#'
}

/// A value that a line of an env file holds as it is: without line feed and
/// double quote, without white space at its ends, and not in single quotes.
pub open spec fn plain_value(v: Seq<char>) -> bool {
    &&& !v.contains('\n')
    &&& !v.contains('"')
    &&& v.len() > 0 ==> !is_space(v[0]) && !is_space(v.last())
    &&& !(v.len() >= 2 && v[0] == '\'' && v.last() == '\'')
}

/// Every key and every value is plain.
pub open spec fn plain(entries: Pairs) -> bool {
    forall|i: int|
        0 <= i < entries.len() ==> plain_key((#[trigger] entries[i]).0) && plain_value(
            entries[i].1,
        )
}

/// Trimming leaves a text alone that has no white space at its ends.
pub proof fn lemma_trim_keeps(s: Seq<char>)
    requires
        s.len() > 0 ==> !is_space(s[0]) && !is_space(s.last()),
    ensures
        trim(s) == s,
{
}

/// Escaping leaves a text alone that has no double quote.
pub proof fn lemma_escaped_keeps(v: Seq<char>)
    requires
        !v.contains('"'),
    ensures
        escaped(v) == v,
    decreases v.len(),
{
    if v.len() > 0 {
        let front = v.drop_last();
        assert(v[v.len() - 1] != '"');
        assert forall|j: int| 0 <= j < front.len() implies front[j] != '"' by {
            assert(front[j] == v[j]);
        }
        lemma_escaped_keeps(front);
        assert(front.push(v.last()) =~= v);
    }
}

/// The line that is written for a plain entry holds that entry, and has no
/// line feed but the one at its end.
pub proof fn lemma_line_reads_back(k: Seq<char>, v: Seq<char>)
    requires
        plain_key(k),
        plain_value(v),
    ensures
        ({
            let line = line_of(k, v);
            &&& line.len() > 0
            &&& line.last() == '\n'
            &&& forall|j: int| 0 <= j < line.len() - 1 ==> line[j] != '\n'
            &&& entry_of(line.drop_last()) == Some((k, v))
        }),
{
    reveal_strlit("=\"");
    reveal_strlit("\"\n");
    reveal_strlit("=");
    reveal_strlit("\n");
    lemma_escaped_keeps(v);
    let line = line_of(k, v);
    let body = line.drop_last();
    let sign = seq!['='];
    let shown = if needs_quotes(v) {
        seq!['"'] + v + seq!['"']
    } else {
        v
    };
    assert(body =~= k + sign + shown);
    assert(line =~= body.push('\n'));
    assert forall|j: int| 0 <= j < k.len() implies k[j] != '\n' && k[j] != '=' by {
        assert(k.contains(k[j]));
    }
    assert forall|j: int| 0 <= j < v.len() implies v[j] != '\n' && v[j] != '"' by {
        assert(v.contains(v[j]));
    }
    assert forall|j: int| 0 <= j < line.len() - 1 implies line[j] != '\n' by {
        if j < k.len() {
            assert(line[j] == k[j]);
        } else if j == k.len() {
        } else if needs_quotes(v) {
            if j == k.len() + 1 {
            } else if j < k.len() + 2 + v.len() {
                assert(line[j] == v[j - k.len() - 2]);
            } else {
            }
        } else {
            assert(line[j] == v[j - k.len() - 1]);
        }
    }
    // the body has no white space at its ends, so trimming keeps it
    assert(body[0] == k[0]);
    assert(!is_space('='));
    assert(!is_space('"'));
    assert(!is_space(body.last())) by {
        if needs_quotes(v) {
            assert(body.last() == '"');
        } else if v.len() > 0 {
            assert(body.last() == v.last());
        } else {
            assert(body.last() == '=');
        }
    }
    lemma_trim_keeps(body);
    // the first `=` stands right after the key
    lemma_find_from(body, sign, 0);
    assert(occurs_at(body, sign, k.len() as int)) by {
        assert(body.subrange(k.len() as int, k.len() as int + 1) =~= sign);
    }
    assert forall|q: int| 0 <= q < k.len() implies !occurs_at(body, sign, q) by {
        if occurs_at(body, sign, q) {
            assert(body.subrange(q, q + 1)[0] == sign[0]);
            assert(body[q] == k[q]);
        }
    }
    assert(find_from(body, sign, 0) == Some(k.len() as int));
    assert(body.take(k.len() as int) =~= k);
    lemma_trim_keeps(k);
    assert(body.skip(k.len() as int + 1) =~= shown);
    assert(shown.len() > 0 ==> !is_space(shown.last()) && !is_space(shown[0])) by {
        if needs_quotes(v) {
            assert(shown[0] == '"' && shown.last() == '"');
        }
    }
    lemma_trim_keeps(shown);
    if needs_quotes(v) {
        assert(shown.len() >= 2 && shown[0] == '"' && shown.last() == '"');
        assert(shown.subrange(1, shown.len() - 1) =~= v);
    } else {
        if v.len() >= 2 {
            assert(v.contains(v[0]));
        }
        assert(unquoted(v) == v);
    }
}

/// Nothing is read from an empty text.
pub proof fn lemma_read_nothing(acc: Pairs)
    ensures
        read_into(acc, Seq::empty()) == acc,
{
    let none = Seq::<char>::empty();
    assert(none.take(0) =~= none);
}

/// A first line that holds an entry is read, and then the rest.
pub proof fn lemma_read_first_line(acc: Pairs, line: Seq<char>, rest: Seq<char>)
    requires
        line.len() > 0,
        line.last() == '\n',
        forall|j: int| 0 <= j < line.len() - 1 ==> line[j] != '\n',
        entry_of(line.drop_last()) is Some,
    ensures
        ({
            let entry = entry_of(line.drop_last())->0;
            read_into(acc, line + rest) == read_into(put(acc, entry.0, entry.1), rest)
        }),
{
    let s = line + rest;
    let n = line.len() - 1;
    assert forall|j: int| 0 <= j < n implies s[j] != '\n' by {
        assert(s[j] == line[j]);
    }
    assert(s[n] == line[n]);
    lemma_line_length(s, n);
    assert(s.take(n) =~= line.drop_last());
    assert(s.skip(n + 1) =~= rest);
    if rest.len() == 0 {
        let entry = entry_of(line.drop_last())->0;
        lemma_read_nothing(put(acc, entry.0, entry.1));
    }
}

/// The text of entries is the line of the first and then the text of the
/// others.
pub proof fn lemma_text_of_first(entries: Pairs)
    requires
        entries.len() > 0,
    ensures
        text_of(entries) == line_of(entries[0].0, entries[0].1) + text_of(entries.drop_first()),
    decreases entries.len(),
{
    let front = entries.drop_last();
    if entries.len() == 1 {
        assert(text_of(front) =~= Seq::<char>::empty());
        assert(text_of(entries.drop_first()) =~= Seq::<char>::empty());
        assert(text_of(entries) =~= line_of(entries[0].0, entries[0].1) + Seq::<char>::empty());
    } else {
        lemma_text_of_first(front);
        assert(front.drop_first() =~= entries.drop_first().drop_last());
        assert(entries.drop_first().last() == entries.last());
        assert(front[0] == entries[0]);
        assert(text_of(entries) =~= line_of(entries[0].0, entries[0].1) + text_of(
            entries.drop_first(),
        ));
    }
}

/// Storing all entries is storing the first and then the others.
pub proof fn lemma_put_all_first(acc: Pairs, entries: Pairs)
    requires
        entries.len() > 0,
    ensures
        put_all(acc, entries) == put_all(
            put(acc, entries[0].0, entries[0].1),
            entries.drop_first(),
        ),
    decreases entries.len(),
{
    let front = entries.drop_last();
    if entries.len() == 1 {
        assert(put_all(acc, front) == acc);
        assert(entries.drop_first() =~= Seq::<(Seq<char>, Seq<char>)>::empty());
    } else {
        lemma_put_all_first(acc, front);
        assert(front.drop_first() =~= entries.drop_first().drop_last());
        assert(entries.drop_first().last() == entries.last());
        assert(front[0] == entries[0]);
    }
}

/// Reading the text of plain entries stores those entries, in their order.
pub proof fn lemma_read_text(acc: Pairs, entries: Pairs)
    requires
        plain(entries),
    ensures
        read_into(acc, text_of(entries)) == put_all(acc, entries),
    decreases entries.len(),
{
    if entries.len() == 0 {
        lemma_read_nothing(acc);
    } else {
        let first = entries[0];
        let others = entries.drop_first();
        lemma_text_of_first(entries);
        lemma_put_all_first(acc, entries);
        lemma_line_reads_back(first.0, first.1);
        lemma_read_first_line(acc, line_of(first.0, first.1), text_of(others));
        assert forall|i: int| 0 <= i < others.len() implies plain_key(
            (#[trigger] others[i]).0,
        ) && plain_value(others[i].1) by {
            assert(others[i] == entries[i + 1]);
        }
        lemma_read_text(put(acc, first.0, first.1), others);
    }
}

/// Storing entries with distinct keys in the empty map gives those entries.
pub proof fn lemma_put_all_is_the_entries(entries: Pairs)
    requires
        distinct_keys(entries),
    ensures
        put_all(Seq::empty(), entries) == entries,
    decreases entries.len(),
{
    if entries.len() > 0 {
        let front = entries.drop_last();
        assert(distinct_keys(front)) by {
            assert forall|i: int, j: int| 0 <= i < j < front.len() implies front[i].0
                != front[j].0 by {
                assert(front[i] == entries[i] && front[j] == entries[j]);
            }
        }
        lemma_put_all_is_the_entries(front);
        lemma_position(front, entries.last().0);
        if position(front, entries.last().0) is Some {
            let p = position(front, entries.last().0)->0;
            assert(front[p] == entries[p]);
            assert(entries[p].0 != entries[entries.len() - 1].0);
        }
        assert(front.push(entries.last()) =~= entries);
    } else {
        assert(entries =~= Seq::<(Seq<char>, Seq<char>)>::empty());
    }
}

/// An env file that holds plain entries with distinct keys is read back as
/// those entries, in their order.
pub proof fn theorem_env_text_reads_back(entries: Pairs)
    requires
        plain(entries),
        distinct_keys(entries),
    ensures
        parsed(text_of(entries)) == entries,
{
    lemma_read_text(Seq::empty(), entries);
    lemma_put_all_is_the_entries(entries);
}

/// What `inserted` holds: the new entry and the old ones.
pub proof fn lemma_inserted_holds(sorted: Pairs, e: (Seq<char>, Seq<char>), x: (
    Seq<char>,
    Seq<char>,
))
    ensures
        inserted(sorted, e).contains(x) <==> x == e || sorted.contains(x),
    decreases sorted.len(),
{
    let out = inserted(sorted, e);
    if sorted.len() > 0 && crate::text::lex_less(e.0, sorted.last().0) {
        let front = sorted.drop_last();
        let mid = inserted(front, e);
        lemma_inserted_holds(front, e, x);
        assert(sorted =~= front.push(sorted.last()));
        if out.contains(x) {
            let q = choose|q: int| 0 <= q < out.len() && out[q] == x;
            if q < mid.len() {
                assert(mid[q] == x);
                assert(mid.contains(x));
                if front.contains(x) {
                    let r = choose|r: int| 0 <= r < front.len() && front[r] == x;
                    assert(sorted[r] == x);
                }
            } else {
                assert(sorted[sorted.len() - 1] == x);
            }
        }
        if x == e || sorted.contains(x) {
            if sorted.contains(x) && x != e {
                let r = choose|r: int| 0 <= r < sorted.len() && sorted[r] == x;
                if r < front.len() {
                    assert(front[r] == x);
                    assert(front.contains(x));
                    let q = choose|q: int| 0 <= q < mid.len() && mid[q] == x;
                    assert(out[q] == x);
                } else {
                    assert(out[out.len() - 1] == x);
                }
            } else {
                let q = choose|q: int| 0 <= q < mid.len() && mid[q] == x;
                assert(out[q] == x);
            }
        }
    } else {
        if out.contains(x) {
            let q = choose|q: int| 0 <= q < out.len() && out[q] == x;
            if q < sorted.len() {
                assert(sorted[q] == x);
            }
        }
        if sorted.contains(x) {
            let r = choose|r: int| 0 <= r < sorted.len() && sorted[r] == x;
            assert(out[r] == x);
        }
        assert(out[out.len() - 1] == e);
    }
}

/// The sorted entries are the entries.
pub proof fn lemma_sorted_holds(entries: Pairs, x: (Seq<char>, Seq<char>))
    ensures
        sorted_by_key(entries).contains(x) <==> entries.contains(x),
    decreases entries.len(),
{
    if entries.len() > 0 {
        let front = entries.drop_last();
        lemma_sorted_holds(front, x);
        lemma_inserted_holds(sorted_by_key(front), entries.last(), x);
        assert(entries =~= front.push(entries.last()));
        if front.contains(x) {
            let r = choose|r: int| 0 <= r < front.len() && front[r] == x;
            assert(entries[r] == x);
        }
        if entries.contains(x) {
            let r = choose|r: int| 0 <= r < entries.len() && entries[r] == x;
            if r < front.len() {
                assert(front[r] == x);
            }
        }
    }
}

/// Putting an entry with a new key into entries with distinct keys leaves
/// the keys distinct.
pub proof fn lemma_inserted_distinct(sorted: Pairs, e: (Seq<char>, Seq<char>))
    requires
        distinct_keys(sorted),
        forall|j: int| 0 <= j < sorted.len() ==> sorted[j].0 != e.0,
    ensures
        distinct_keys(inserted(sorted, e)),
    decreases sorted.len(),
{
    let out = inserted(sorted, e);
    if sorted.len() > 0 && crate::text::lex_less(e.0, sorted.last().0) {
        let front = sorted.drop_last();
        let last = sorted.last();
        let mid = inserted(front, e);
        assert forall|j: int| 0 <= j < front.len() implies front[j] == sorted[j] by {}
        lemma_inserted_distinct(front, e);
        assert forall|i: int, j: int| 0 <= i < j < out.len() implies out[i].0 != out[j].0 by {
            if j < mid.len() {
                assert(out[i] == mid[i] && out[j] == mid[j]);
            } else {
                assert(out[i] == mid[i]);
                assert(mid.contains(mid[i]));
                lemma_inserted_holds(front, e, mid[i]);
                if mid[i] != e {
                    let r = choose|r: int| 0 <= r < front.len() && front[r] == mid[i];
                    assert(sorted[r] == mid[i]);
                    assert(sorted[r].0 != sorted[sorted.len() - 1].0);
                } else {
                    assert(sorted[sorted.len() - 1].0 != e.0);
                }
            }
        }
    } else {
        assert forall|i: int, j: int| 0 <= i < j < out.len() implies out[i].0 != out[j].0 by {
            if j < sorted.len() {
            } else {
                assert(out[i] == sorted[i]);
            }
        }
    }
}

/// Sorting entries with distinct keys leaves the keys distinct.
pub proof fn lemma_sorted_distinct(entries: Pairs)
    requires
        distinct_keys(entries),
    ensures
        distinct_keys(sorted_by_key(entries)),
    decreases entries.len(),
{
    if entries.len() > 0 {
        let front = entries.drop_last();
        let last = entries.last();
        assert forall|j: int| 0 <= j < front.len() implies front[j] == entries[j] by {}
        lemma_sorted_distinct(front);
        let sorted = sorted_by_key(front);
        assert forall|j: int| 0 <= j < sorted.len() implies sorted[j].0 != last.0 by {
            assert(sorted.contains(sorted[j]));
            lemma_sorted_holds(front, sorted[j]);
            let r = choose|r: int| 0 <= r < front.len() && front[r] == sorted[j];
            assert(entries[r] == sorted[j]);
            assert(entries[r].0 != entries[entries.len() - 1].0);
        }
        lemma_inserted_distinct(sorted, last);
    }
}

/// With distinct keys, a key maps to a value exactly if the map holds the
/// entry of the two.
pub proof fn lemma_lookup_is_holding(m: Pairs, k: Seq<char>, v: Seq<char>)
    requires
        distinct_keys(m),
    ensures
        lookup(m, k) == Some(v) <==> m.contains((k, v)),
{
    lemma_position(m, k);
    if m.contains((k, v)) {
        let q = choose|q: int| 0 <= q < m.len() && m[q] == (k, v);
        if position(m, k) is Some {
            let p = position(m, k)->0;
            if p != q {
                if p < q {
                    assert(m[p].0 != m[q].0);
                } else {
                    assert(m[q].0 != m[p].0);
                }
            }
        }
    }
    if lookup(m, k) == Some(v) {
        let p = position(m, k)->0;
        assert(m[p] == (k, v));
    }
}

/// Sorting does not change what a key maps to.
pub proof fn lemma_sorted_lookup(entries: Pairs, k: Seq<char>)
    requires
        distinct_keys(entries),
    ensures
        lookup(sorted_by_key(entries), k) == lookup(entries, k),
{
    let sorted = sorted_by_key(entries);
    lemma_sorted_distinct(entries);
    lemma_position(entries, k);
    lemma_position(sorted, k);
    match lookup(entries, k) {
        Some(v) => {
            lemma_lookup_is_holding(entries, k, v);
            lemma_sorted_holds(entries, (k, v));
            lemma_lookup_is_holding(sorted, k, v);
        },
        None => {
            if lookup(sorted, k) is Some {
                let v = lookup(sorted, k)->0;
                lemma_lookup_is_holding(sorted, k, v);
                lemma_sorted_holds(entries, (k, v));
                lemma_lookup_is_holding(entries, k, v);
            }
        },
    }
}

/// The character `c` does not occur in `s`.
pub open spec fn lacks(s: Seq<char>, c: char) -> bool {
    forall|j: int| 0 <= j < s.len() ==> s[j] != c
}

/// A key as a line of an env file gives it: without `=` and line feed,
/// without white space at its ends, and no comment sign at its start. It may
/// be empty.
pub open spec fn safe_key(k: Seq<char>) -> bool {
    &&& lacks(k, '=')
    &&& lacks(k, '\n')
    &&& k.len() > 0 ==> !is_space(k[0]) && !is_space(k.last()) && k[0] != '#'
}

/// Every key is safe and no value holds a line feed: each entry fits on a
/// line of its own, and that line gives the key back.
pub open spec fn safe(entries: Pairs) -> bool {
    forall|i: int|
        0 <= i < entries.len() ==> safe_key((#[trigger] entries[i]).0) && lacks(
            entries[i].1,
            '\n',
        )
}

/// What is read back from the line that is written for an entry.
pub open spec fn read_back(e: (Seq<char>, Seq<char>)) -> (Seq<char>, Seq<char>) {
    match entry_of(line_of(e.0, e.1).drop_last()) {
        Some(read) => read,
        None => e,
    }
}

/// What is read back from the lines that are written for `entries`.
pub open spec fn reread(entries: Pairs) -> Pairs {
    entries.map_values(|e: (Seq<char>, Seq<char>)| read_back(e))
}

/// Where the leading white space of a text ends.
pub proof fn lemma_trim_start(s: Seq<char>) -> (a: int)
    ensures
        0 <= a <= s.len(),
        trim_start(s) == s.skip(a),
        a < s.len() ==> !is_space(s[a]),
        forall|j: int| 0 <= j < a ==> is_space(s[j]),
    decreases s.len(),
{
    if s.len() > 0 && is_space(s[0]) {
        let rest = s.drop_first();
        let b = lemma_trim_start(rest);
        assert(rest.skip(b) =~= s.skip(b + 1));
        assert forall|j: int| 0 <= j < b + 1 implies is_space(s[j]) by {
            if j > 0 {
                assert(rest[j - 1] == s[j]);
            }
        }
        if b + 1 < s.len() {
            assert(rest[b] == s[b + 1]);
        }
        b + 1
    } else {
        assert(s.skip(0) =~= s);
        0
    }
}

/// Where the trailing white space of a text begins.
pub proof fn lemma_trim_end(s: Seq<char>) -> (b: int)
    ensures
        0 <= b <= s.len(),
        trim_end(s) == s.take(b),
        b > 0 ==> !is_space(s[b - 1]),
        forall|j: int| b <= j < s.len() ==> is_space(s[j]),
    decreases s.len(),
{
    if s.len() > 0 && is_space(s.last()) {
        let front = s.drop_last();
        let b = lemma_trim_end(front);
        assert(front.take(b) =~= s.take(b));
        assert forall|j: int| b <= j < s.len() implies is_space(s[j]) by {
            if j < front.len() {
                assert(front[j] == s[j]);
            }
        }
        if b > 0 {
            assert(front[b - 1] == s[b - 1]);
        }
        b
    } else {
        assert(s.take(s.len() as int) =~= s);
        s.len() as int
    }
}

/// Trimming keeps the part of a text from its first to its last character
/// that is no white space.
pub proof fn lemma_trim(s: Seq<char>) -> (r: (int, int))
    ensures
        0 <= r.0 <= r.1 <= s.len(),
        trim(s) == s.subrange(r.0, r.1),
        r.0 < r.1 ==> !is_space(s[r.0]) && !is_space(s[r.1 - 1]),
        forall|j: int| 0 <= j < s.len() && !is_space(s[j]) ==> r.0 <= j < r.1,
{
    let a = lemma_trim_start(s);
    let rest = s.skip(a);
    let b = lemma_trim_end(rest);
    assert(rest.take(b) =~= s.subrange(a, a + b));
    if b > 0 {
        assert(rest[b - 1] == s[a + b - 1]);
        assert(rest[0] == s[a]);
    }
    assert forall|j: int| 0 <= j < s.len() && !is_space(s[j]) implies a <= j < a + b by {
        if j >= a + b {
            assert(rest[j - a] == s[j]);
        }
    }
    if a < a + b {
    }
    (a, a + b)
}

/// A text without `c` has none after its double quotes are escaped, unless
/// `c` is the backslash or the double quote.
pub proof fn lemma_escaped_lacks(v: Seq<char>, c: char)
    requires
        lacks(v, c),
        c != '\\',
        c != '"',
    ensures
        lacks(escaped(v), c),
    decreases v.len(),
{
    if v.len() > 0 {
        let front = v.drop_last();
        assert forall|j: int| 0 <= j < front.len() implies front[j] != c by {
            assert(front[j] == v[j]);
        }
        lemma_escaped_lacks(front, c);
        assert(v[v.len() - 1] != c);
    }
}

/// The line that is written for a safe entry gives the key back, whatever
/// becomes of the value, and has no line feed but the one at its end.
pub proof fn lemma_line_reads_key(k: Seq<char>, v: Seq<char>)
    requires
        safe_key(k),
        lacks(v, '\n'),
    ensures
        ({
            let line = line_of(k, v);
            &&& line.len() > 0
            &&& line.last() == '\n'
            &&& forall|j: int| 0 <= j < line.len() - 1 ==> line[j] != '\n'
            &&& entry_of(line.drop_last()) is Some
            &&& read_back((k, v)).0 == k
        }),
{
    reveal_strlit("=\"");
    reveal_strlit("\"\n");
    reveal_strlit("=");
    reveal_strlit("\n");
    lemma_escaped_lacks(v, '\n');
    let line = line_of(k, v);
    let body = line.drop_last();
    let sign = seq!['='];
    let shown = if needs_quotes(v) {
        seq!['"'] + escaped(v) + seq!['"']
    } else {
        v
    };
    assert(body =~= k + sign + shown);
    assert(line =~= body.push('\n'));
    assert forall|j: int| 0 <= j < line.len() - 1 implies line[j] != '\n' by {
        if j < k.len() {
            assert(line[j] == k[j]);
        } else if j == k.len() {
        } else if needs_quotes(v) {
            if j == k.len() + 1 {
            } else if j < k.len() + 2 + escaped(v).len() {
                assert(line[j] == escaped(v)[j - k.len() - 2]);
            } else {
            }
        } else {
            assert(line[j] == v[j - k.len() - 1]);
        }
    }
    assert(!is_space('='));
    assert(body[k.len() as int] == '=');
    if k.len() > 0 {
        assert(body[0] == k[0]);
    }
    let (a, b) = lemma_trim(body);
    let l = trim(body);
    assert(a == 0 && b > k.len());
    assert(l.len() > k.len());
    assert(l[0] == body[0]);
    assert forall|q: int| 0 <= q <= k.len() implies l[q] == body[q] by {}
    lemma_find_from(l, sign, 0);
    assert(occurs_at(l, sign, k.len() as int)) by {
        assert(l.subrange(k.len() as int, k.len() as int + 1) =~= sign);
    }
    assert forall|q: int| 0 <= q < k.len() implies !occurs_at(l, sign, q) by {
        if occurs_at(l, sign, q) {
            assert(l.subrange(q, q + 1)[0] == sign[0]);
            assert(l[q] == k[q]);
        }
    }
    assert(find_from(l, sign, 0) == Some(k.len() as int));
    assert(l.take(k.len() as int) =~= k);
    lemma_trim_keeps(k);
}

/// The first line of a text has no line feed in it, and ends at one or at
/// the end of the text.
pub proof fn lemma_first_line(s: Seq<char>)
    ensures
        0 <= line_length(s) <= s.len(),
        lacks(s.take(line_length(s)), '\n'),
        line_length(s) < s.len() ==> s[line_length(s)] == '\n',
    decreases s.len(),
{
    if s.len() == 0 || s[0] == '\n' {
    } else {
        let rest = s.drop_first();
        lemma_first_line(rest);
        let n = line_length(rest);
        let line = s.take(n + 1);
        assert forall|j: int| 0 <= j < line.len() implies line[j] != '\n' by {
            if j > 0 {
                assert(rest.take(n)[j - 1] == s[j]);
            }
        }
        if n + 1 < s.len() {
            assert(rest[n] == s[n + 1]);
        }
    }
}

/// The entry that a line without line feed holds is safe.
pub proof fn lemma_entry_is_safe(line: Seq<char>)
    requires
        lacks(line, '\n'),
    ensures
        entry_of(line) matches Some(e) ==> safe_key(e.0) && lacks(e.1, '\n'),
{
    let sign = seq!['='];
    let (a, b) = lemma_trim(line);
    let l = trim(line);
    if l.len() > 0 && l[0] != '#' {
        lemma_find_from(l, sign, 0);
        if find_from(l, sign, 0) is Some {
            let p = find_from(l, sign, 0)->0;
            let pre = l.take(p);
            let (a2, b2) = lemma_trim(pre);
            let k = trim(pre);
            assert forall|j: int| 0 <= j < k.len() implies k[j] != '=' && k[j] != '\n' by {
                let q = a2 + j;
                assert(k[j] == pre[q]);
                assert(pre[q] == l[q]);
                assert(l[q] == line[a + q]);
                if l[q] == '=' {
                    assert(l.subrange(q, q + 1) =~= sign);
                    assert(occurs_at(l, sign, q));
                }
            }
            if k.len() > 0 {
                assert(p > 0);
                assert(pre[0] == l[0]);
                assert(l[0] == line[a]);
                assert(!is_space(pre[0]));
                assert(a2 == 0);
                assert(k[0] == pre[0]);
                assert(k.last() == pre[b2 - 1]);
            }
            let post = l.skip(p + 1);
            let (a3, b3) = lemma_trim(post);
            let tv = trim(post);
            assert forall|j: int| 0 <= j < tv.len() implies tv[j] != '\n' by {
                assert(tv[j] == post[a3 + j]);
                assert(post[a3 + j] == l[p + 1 + a3 + j]);
                assert(l[p + 1 + a3 + j] == line[a + p + 1 + a3 + j]);
            }
            let v = unquoted(tv);
            assert forall|j: int| 0 <= j < v.len() implies v[j] != '\n' by {
                if v != tv {
                    assert(v[j] == tv[j + 1]);
                }
            }
        }
    }
}

/// Storing a safe entry in safe entries leaves them safe.
pub proof fn lemma_put_safe(m: Pairs, k: Seq<char>, v: Seq<char>)
    requires
        safe(m),
        safe_key(k),
        lacks(v, '\n'),
    ensures
        safe(put(m, k, v)),
{
    lemma_position(m, k);
    let out = put(m, k, v);
    assert forall|i: int| 0 <= i < out.len() implies safe_key((#[trigger] out[i]).0) && lacks(
        out[i].1,
        '\n',
    ) by {
        if out[i] != (k, v) {
            assert(out[i] == m[i]);
        }
    }
}

/// What is read from a text into safe entries with distinct keys is safe and
/// has distinct keys.
pub proof fn lemma_read_is_safe(acc: Pairs, s: Seq<char>)
    requires
        safe(acc),
        distinct_keys(acc),
    ensures
        safe(read_into(acc, s)),
        distinct_keys(read_into(acc, s)),
    decreases s.len(),
{
    lemma_first_line(s);
    let n = line_length(s);
    lemma_entry_is_safe(s.take(n));
    let with_line = match entry_of(s.take(n)) {
        Some((k, v)) => put(acc, k, v),
        None => acc,
    };
    match entry_of(s.take(n)) {
        Some((k, v)) => {
            lemma_put_safe(acc, k, v);
            lemma_put_distinct(acc, k, v);
        },
        None => {},
    }
    if 0 <= n < s.len() {
        lemma_read_is_safe(with_line, s.skip(n + 1));
    }
}

/// Storing safe entries in safe entries leaves them safe, and leaves the
/// keys distinct.
pub proof fn lemma_put_all_safe(m: Pairs, more: Pairs)
    requires
        safe(m),
        safe(more),
        distinct_keys(m),
    ensures
        safe(put_all(m, more)),
        distinct_keys(put_all(m, more)),
    decreases more.len(),
{
    if more.len() > 0 {
        let front = more.drop_last();
        assert forall|i: int| 0 <= i < front.len() implies safe_key((#[trigger] front[i]).0)
            && lacks(front[i].1, '\n') by {
            assert(front[i] == more[i]);
        }
        lemma_put_all_safe(m, front);
        assert(safe_key(more[more.len() - 1].0));
        lemma_put_safe(put_all(m, front), more.last().0, more.last().1);
        lemma_put_distinct(put_all(m, front), more.last().0, more.last().1);
    }
}

/// Plain entries are safe.
pub proof fn lemma_plain_is_safe(entries: Pairs)
    requires
        plain(entries),
    ensures
        safe(entries),
{
    assert forall|i: int| 0 <= i < entries.len() implies safe_key((#[trigger] entries[i]).0)
        && lacks(entries[i].1, '\n') by {
        let k = entries[i].0;
        let v = entries[i].1;
        assert(plain_key(k) && plain_value(v));
        assert forall|j: int| 0 <= j < k.len() implies k[j] != '=' && k[j] != '\n' by {
            assert(k.contains(k[j]));
        }
        assert forall|j: int| 0 <= j < v.len() implies v[j] != '\n' by {
            assert(v.contains(v[j]));
        }
    }
}

/// Reading the text of safe entries stores what is read back from their
/// lines, in their order.
pub proof fn lemma_read_safe_text(acc: Pairs, entries: Pairs)
    requires
        safe(entries),
    ensures
        read_into(acc, text_of(entries)) == put_all(acc, reread(entries)),
    decreases entries.len(),
{
    if entries.len() == 0 {
        lemma_read_nothing(acc);
        assert(reread(entries) =~= Seq::<(Seq<char>, Seq<char>)>::empty());
    } else {
        let first = entries[0];
        let others = entries.drop_first();
        lemma_text_of_first(entries);
        assert(reread(entries)[0] === read_back(first));
        assert(reread(entries).drop_first() =~= reread(others));
        lemma_put_all_first(acc, reread(entries));
        assert(safe_key(first.0));
        lemma_line_reads_key(first.0, first.1);
        lemma_read_first_line(acc, line_of(first.0, first.1), text_of(others));
        assert forall|i: int| 0 <= i < others.len() implies safe_key((#[trigger] others[i]).0)
            && lacks(others[i].1, '\n') by {
            assert(others[i] == entries[i + 1]);
        }
        let read = read_back(first);
        lemma_read_safe_text(put(acc, read.0, read.1), others);
    }
}

/// Entries with the same keys hold a key at the same position.
pub proof fn lemma_position_by_keys(a: Pairs, b: Pairs, k: Seq<char>)
    requires
        a.len() == b.len(),
        forall|i: int| 0 <= i < a.len() ==> a[i].0 == b[i].0,
    ensures
        position(a, k) == position(b, k),
{
    lemma_position(a, k);
    lemma_position(b, k);
    if position(a, k) is Some && position(b, k) is Some {
        let p = position(a, k)->0;
        let q = position(b, k)->0;
        if p < q {
            assert(b[p].0 == a[p].0);
        } else if q < p {
            assert(a[q].0 == b[q].0);
        }
    } else if position(a, k) is Some {
        let p = position(a, k)->0;
        assert(b[p].0 == a[p].0);
    } else if position(b, k) is Some {
        let q = position(b, k)->0;
        assert(a[q].0 == b[q].0);
    }
}

/// What has been written to an env file is found there again. Where the
/// values that are written are plain, the file that `written` describes
/// maps each of their keys to its value, whatever the file held before.
pub proof fn theorem_written_values_are_found(
    existing: Seq<char>,
    values: Pairs,
    key: Seq<char>,
)
    requires
        distinct_keys(values),
        plain(values),
        has_key(values, key),
    ensures
        lookup(parsed(written(existing, values)), key) == lookup(values, key),
{
    let none = Seq::<(Seq<char>, Seq<char>)>::empty();
    let before = parsed(existing);
    lemma_read_is_safe(none, existing);
    lemma_plain_is_safe(values);
    let merged = put_all(before, values);
    lemma_put_all_safe(before, values);
    lemma_lookup_put_all(before, values, key);
    let sorted = sorted_by_key(merged);
    lemma_sorted_distinct(merged);
    lemma_sorted_lookup(merged, key);
    assert(safe(sorted)) by {
        assert forall|i: int| 0 <= i < sorted.len() implies safe_key((#[trigger] sorted[i]).0)
            && lacks(sorted[i].1, '\n') by {
            assert(sorted.contains(sorted[i]));
            lemma_sorted_holds(merged, sorted[i]);
            let r = choose|r: int| 0 <= r < merged.len() && merged[r] == sorted[i];
            assert(safe_key(merged[r].0));
        }
    }
    let again = reread(sorted);
    lemma_read_safe_text(none, sorted);
    assert forall|i: int| 0 <= i < sorted.len() implies (#[trigger] again[i]).0
        == sorted[i].0 by {
        assert(safe_key(sorted[i].0));
        lemma_line_reads_key(sorted[i].0, sorted[i].1);
    }
    assert(distinct_keys(again)) by {
        assert forall|i: int, j: int| 0 <= i < j < again.len() implies again[i].0
            != again[j].0 by {
            assert(again[i].0 == sorted[i].0 && again[j].0 == sorted[j].0);
        }
    }
    lemma_put_all_is_the_entries(again);
    lemma_position_by_keys(again, sorted, key);
    lemma_position(sorted, key);
    lemma_position(values, key);
    let p = position(sorted, key)->0;
    let q = position(values, key)->0;
    assert(sorted[p] == (key, values[q].1));
    assert(plain_key(values[q].0) && plain_value(values[q].1));
    lemma_line_reads_back(key, values[q].1);
    assert(again[p] == read_back(sorted[p]));
}

/// Writing makes no key up: a key that the file did not hold and that is
/// not written is not found in the file that `written` describes.
pub proof fn theorem_other_keys_are_not_made_up(
    existing: Seq<char>,
    values: Pairs,
    key: Seq<char>,
)
    requires
        distinct_keys(values),
        plain(values),
        !has_key(values, key),
        !has_key(parsed(existing), key),
    ensures
        !has_key(parsed(written(existing, values)), key),
{
    let none = Seq::<(Seq<char>, Seq<char>)>::empty();
    let before = parsed(existing);
    lemma_read_is_safe(none, existing);
    lemma_plain_is_safe(values);
    let merged = put_all(before, values);
    lemma_put_all_safe(before, values);
    lemma_lookup_put_all(before, values, key);
    let sorted = sorted_by_key(merged);
    lemma_sorted_distinct(merged);
    lemma_sorted_lookup(merged, key);
    assert(safe(sorted)) by {
        assert forall|i: int| 0 <= i < sorted.len() implies safe_key((#[trigger] sorted[i]).0)
            && lacks(sorted[i].1, '\n') by {
            assert(sorted.contains(sorted[i]));
            lemma_sorted_holds(merged, sorted[i]);
            let r = choose|r: int| 0 <= r < merged.len() && merged[r] == sorted[i];
            assert(safe_key(merged[r].0));
        }
    }
    let again = reread(sorted);
    lemma_read_safe_text(none, sorted);
    assert forall|i: int| 0 <= i < sorted.len() implies (#[trigger] again[i]).0
        == sorted[i].0 by {
        assert(safe_key(sorted[i].0));
        lemma_line_reads_key(sorted[i].0, sorted[i].1);
    }
    assert(distinct_keys(again)) by {
        assert forall|i: int, j: int| 0 <= i < j < again.len() implies again[i].0
            != again[j].0 by {
            assert(again[i].0 == sorted[i].0 && again[j].0 == sorted[j].0);
        }
    }
    lemma_put_all_is_the_entries(again);
    lemma_position_by_keys(again, sorted, key);
}

} // verus!
