//! Env files: `KEY=value` lines.

use crate::output::order::{sorted_by_key, sorted_entries};
use crate::strmap::{pairs_of, put, put_all, Pairs, StrMap};
use crate::text::{
    chars_of, find, find_from, lemma_find_from, push_all, slice_of, string_of, trim, trimmed,
};
use vstd::prelude::*;

verus! {

/// The length of the first line of `s`: the position of its first line feed,
/// or its length where it has none.
pub open spec fn line_length(s: Seq<char>) -> int
    decreases s.len(),
{
    if s.len() == 0 || s[0] == '\n' {
        0
    } else {
        1 + line_length(s.drop_first())
    }
}

/// `v` without the pair of double or single quotes around it, if it has one.
pub open spec fn unquoted(v: Seq<char>) -> Seq<char> {
    if v.len() >= 2 && ((v[0] == '"' && v.last() == '"') || (v[0] == '\'' && v.last() == '\'')) {
        v.subrange(1, v.len() - 1)
    } else {
        v
    }
}

/// The entry that a line holds. A blank line, a comment and a line without
/// `=` hold none. Key and value are what stands before and after the first
/// `=`, trimmed, the value without the quotes around it.
pub open spec fn entry_of(line: Seq<char>) -> Option<(Seq<char>, Seq<char>)> {
    let l = trim(line);
    if l.len() == 0 || l[0] == '#' {
        None
    } else {
        match find_from(l, seq!['='], 0) {
            Some(p) => Some((trim(l.take(p)), unquoted(trim(l.skip(p + 1))))),
            None => None,
        }
    }
}

/// `acc` with the entries of the lines of `s` stored in it, line by line; a
/// key that comes again takes the later value.
pub open spec fn read_into(acc: Pairs, s: Seq<char>) -> Pairs
    decreases s.len(),
{
    let n = line_length(s);
    let with_line = match entry_of(s.take(n)) {
        Some((k, v)) => put(acc, k, v),
        None => acc,
    };
    if 0 <= n < s.len() {
        read_into(with_line, s.skip(n + 1))
    } else {
        with_line
    }
}

/// The entries that an env file with the contents `contents` holds.
pub open spec fn parsed(contents: Seq<char>) -> Pairs {
    read_into(Seq::empty(), contents)
}

/// Whether a value is written in quotes: one with a space, a `#` or a double
/// quote in it is.
pub open spec fn needs_quotes(v: Seq<char>) -> bool {
    v.contains(' ') || v.contains('#') || v.contains('"')
}

/// `v` with a backslash before every double quote.
pub open spec fn escaped(v: Seq<char>) -> Seq<char>
    decreases v.len(),
{
    if v.len() == 0 {
        Seq::empty()
    } else if v.last() == '"' {
        escaped(v.drop_last()) + seq!['\\', '"']
    } else {
        escaped(v.drop_last()).push(v.last())
    }
}

/// The line that holds the entry of `k` and `v`, with its line feed.
pub open spec fn line_of(k: Seq<char>, v: Seq<char>) -> Seq<char> {
    if needs_quotes(v) {
        k + "=\""@ + escaped(v) + "\"\n"@
    } else {
        k + "="@ + v + "\n"@
    }
}

/// The lines that hold `entries`, in their order.
pub open spec fn text_of(entries: Pairs) -> Seq<char>
    decreases entries.len(),
{
    if entries.len() == 0 {
        Seq::empty()
    } else {
        text_of(entries.drop_last()) + line_of(entries.last().0, entries.last().1)
    }
}

/// The contents of an env file that held `existing` after `values` have been
/// written to it: the entries that it had, with the new values stored over
/// them, in the order of the keys.
pub open spec fn written(existing: Seq<char>, values: Pairs) -> Seq<char> {
    text_of(sorted_by_key(put_all(parsed(existing), values)))
}

/// The length of the first line is where the first line feed stands.
pub proof fn lemma_line_length(s: Seq<char>, n: int)
    requires
        0 <= n <= s.len(),
        forall|j: int| 0 <= j < n ==> s[j] != '\n',
        n == s.len() || s[n] == '\n',
    ensures
        line_length(s) == n,
    decreases n,
{
    if n > 0 {
        lemma_line_length(s.drop_first(), n - 1);
    }
}

/// The entry that a line holds.
pub fn parse_line(line: &Vec<char>) -> (r: Option<(String, String)>)
    ensures
        match r {
            Some((k, v)) => entry_of(line@) == Some((k@, v@)),
            None => entry_of(line@) is None,
        },
{
    let l = trimmed(line);
    if l.len() == 0 || l[0] == '#' {
        return None;
    }
    let mut sign: Vec<char> = Vec::new();
    sign.push('=');
    assert(sign@ =~= seq!['=']);
    match find(&l, &sign, 0) {
        None => None,
        Some(p) => {
            proof {
                lemma_find_from(l@, sign@, 0);
            }
            let key = trimmed(&slice_of(&l, 0, p));
            let value = trimmed(&slice_of(&l, p + 1, l.len()));
            let n = value.len();
            let bare = if n >= 2 && ((value[0] == '"' && value[n - 1] == '"') || (value[0] == '\''
                && value[n - 1] == '\'')) {
                slice_of(&value, 1, n - 1)
            } else {
                value
            };
            Some((string_of(&key), string_of(&bare)))
        },
    }
}

/// The entries that an env file with the contents `contents` holds. Blank
/// lines and comments are passed over; values may stand in quotes.
pub fn read_existing(contents: &str) -> (map: StrMap)
    ensures
        map@ == parsed(contents@),
{
    let text = chars_of(contents);
    let n = text.len();
    let mut map = StrMap::new();
    let mut start: usize = 0;
    assert(text@.skip(0) =~= text@);
    loop
        invariant
            start <= n == text.len(),
            text@ == contents@,
            read_into(map@, text@.skip(start as int)) == parsed(contents@),
        decreases n - start,
    {
        let ghost rest = text@.skip(start as int);
        let mut end: usize = start;
        while end < n && text[end] != '\n'
            invariant
                start <= end <= n == text.len(),
                forall|j: int| start <= j < end ==> text@[j] != '\n',
            decreases n - end,
        {
            end += 1;
        }
        proof {
            lemma_line_length(rest, end - start);
            assert(rest.take(end - start) =~= text@.subrange(start as int, end as int));
        }
        let line = slice_of(&text, start, end);
        match parse_line(&line) {
            Some((k, v)) => {
                map.insert(k, v);
            },
            None => {},
        }
        if end >= n {
            return map;
        }
        assert(rest.skip(end - start + 1) =~= text@.skip(end as int + 1));
        start = end + 1;
    }
}

/// Whether `c` occurs in `v`.
fn has_char(v: &Vec<char>, c: char) -> (r: bool)
    ensures
        r == v@.contains(c),
{
    let mut i: usize = 0;
    while i < v.len()
        invariant
            i <= v.len(),
            forall|j: int| 0 <= j < i ==> v@[j] != c,
        decreases v.len() - i,
    {
        if v[i] == c {
            return true;
        }
        i += 1;
    }
    false
}

/// Appends the line that holds the entry of `key` and `value` to `out`.
fn push_line(out: &mut Vec<char>, key: &str, value: &str)
    ensures
        final(out)@ == old(out)@ + line_of(key@, value@),
{
    let k = chars_of(key);
    let v = chars_of(value);
    let ghost before = out@;
    push_all(out, &k);
    out.push('=');
    proof {
        reveal_strlit("=\"");
        reveal_strlit("\"\n");
        reveal_strlit("=");
        reveal_strlit("\n");
    }
    if has_char(&v, ' ') || has_char(&v, '#') || has_char(&v, '"') {
        out.push('"');
        let ghost head = out@;
        let mut i: usize = 0;
        assert(v@.take(0) =~= Seq::empty());
        while i < v.len()
            invariant
                i <= v.len(),
                out@ == head + escaped(v@.take(i as int)),
            decreases v.len() - i,
        {
            assert(v@.take(i as int + 1).drop_last() =~= v@.take(i as int));
            if v[i] == '"' {
                out.push('\\');
                out.push('"');
                assert(out@ =~= head + (escaped(v@.take(i as int)) + seq!['\\', '"']));
            } else {
                out.push(v[i]);
                assert(out@ =~= head + escaped(v@.take(i as int)).push(v@[i as int]));
            }
            i += 1;
        }
        assert(v@.take(v.len() as int) =~= v@);
        out.push('"');
        out.push('\n');
        assert(out@ =~= before + (key@ + "=\""@ + escaped(value@) + "\"\n"@));
    } else {
        push_all(out, &v);
        out.push('\n');
        assert(out@ =~= before + (key@ + "="@ + value@ + "\n"@));
    }
}

/// The contents of an env file that held `existing` after `values` have been
/// written to it. The entries that the file had are kept, the new values
/// stored over them; the lines stand in the order of the keys, and a value
/// with a space, a `#` or a double quote in it stands in double quotes.
pub fn write(existing: &str, values: &StrMap) -> (contents: String)
    ensures
        contents@ == written(existing@, values@),
{
    let mut merged = read_existing(existing);
    merged.extend(values);
    let entries = sorted_entries(&merged);
    let ghost all = pairs_of(entries@);
    let mut out: Vec<char> = Vec::new();
    let mut i: usize = 0;
    assert(all.take(0) =~= Seq::empty());
    while i < entries.len()
        invariant
            i <= entries.len(),
            all == pairs_of(entries@),
            out@ == text_of(all.take(i as int)),
        decreases entries.len() - i,
    {
        assert(all.take(i as int + 1).drop_last() =~= all.take(i as int));
        assert(all.take(i as int + 1).last() == all[i as int]);
        push_line(&mut out, entries[i].0.as_str(), entries[i].1.as_str());
        i += 1;
    }
    assert(all.take(entries.len() as int) =~= all);
    string_of(&out)
}

} // verus!
