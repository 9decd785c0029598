//! The credentials as lines for standard output.

use crate::output::order::{sorted_by_key, sorted_entries};
use crate::strmap::{pairs_of, Pairs, StrMap};
use crate::text::{concat3, lemma_texts_push, texts};
use vstd::prelude::*;

verus! {

/// One line for each entry: key, `=`, value.
pub open spec fn lines_of(entries: Pairs) -> Seq<Seq<char>> {
    entries.map_values(|e: (Seq<char>, Seq<char>)| e.0 + "="@ + e.1)
}

/// The lines that stand for `values`, in the order of the keys.
pub open spec fn printed(values: Pairs) -> Seq<Seq<char>> {
    lines_of(sorted_by_key(values))
}

/// The lines to print for `values`: one `key=value` line for each entry, in
/// the order of the keys.
pub fn write(values: &StrMap) -> (lines: Vec<String>)
    ensures
        texts(lines@) == printed(values@),
{
    let entries = sorted_entries(values);
    let ghost all = pairs_of(entries@);
    let mut lines: Vec<String> = Vec::new();
    let mut i: usize = 0;
    assert(texts(lines@) =~= lines_of(all).take(0));
    while i < entries.len()
        invariant
            i <= entries.len(),
            all == pairs_of(entries@),
            texts(lines@) == lines_of(all).take(i as int),
        decreases entries.len() - i,
    {
        let line = concat3(entries[i].0.as_str(), "=", entries[i].1.as_str());
        proof {
            lemma_texts_push(lines@, line);
            assert(lines_of(all).take(i as int + 1) =~= lines_of(all).take(i as int).push(
                line@,
            ));
        }
        lines.push(line);
        i += 1;
    }
    assert(lines_of(all).take(entries.len() as int) =~= lines_of(all));
    lines
}

} // verus!
