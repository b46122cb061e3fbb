//! The layout database entry format: a rendered entry followed by one
//! `#` per rediscovery, so the last line counts how often a layout was
//! found.

use vstd::prelude::*;
use crate::parse::{
    spec_split_nl, spec_lines, lemma_split_nl_nonempty, lemma_split_nl_append,
    lemma_split_nl_newline, collect_chars,
};

verus! {

/// The popularity a file content encodes: the length of its last line
/// when that line is nonempty and all `#`, else zero.
pub open spec fn spec_popularity(s: Seq<char>) -> int {
    let lines = spec_lines(s);
    if lines.len() == 0 {
        0
    } else {
        let ll = lines.last();
        if ll.len() > 0 && (forall|i: int| 0 <= i < ll.len() ==> ll[i] == '#') {
            ll.len() as int
        } else {
            0
        }
    }
}

/// Count how often the layout in a database file was found: the
/// number of `#` characters on the last line, when nothing else is on
/// it.
pub fn count_popularity(content: &str) -> (r: usize)
    ensures
        r == spec_popularity(content@),
{
    let cs = collect_chars(content);
    let lines = crate::parse::split_lines(&cs);
    let ghost lv = lines@.map_values(|v: Vec<char>| v@);
    if lines.len() == 0 {
        return 0;
    }
    let ll = &lines[lines.len() - 1];
    proof {
        assert(ll@ == lv.last());
    }
    let mut hashes: usize = 0;
    let mut others: usize = 0;
    let mut i: usize = 0;
    while i < ll.len()
        invariant
            i <= ll@.len(),
            hashes + others == i,
            others == 0 <==> (forall|m: int| 0 <= m < i ==> ll@[m] == '#'),
        decreases ll@.len() - i,
    {
        if ll[i] == '#' {
            hashes += 1;
        } else {
            others += 1;
        }
        i += 1;
    }
    if others == 0 && hashes > 0 {
        hashes
    } else {
        0
    }
}

/// The next content of a layout's database file: a fresh file holds
/// the rendered entry and one marker; an existing file gains one more
/// marker.
pub fn db_update(existing: Option<&str>, entry: &str) -> (r: String)
    ensures
        existing matches Some(s) ==> r@ == s@ + seq!['#'],
        existing is None ==> r@ == entry@ + seq!['#'],
{
    let base = match existing {
        Some(s) => s,
        None => entry,
    };
    let mut cs = collect_chars(base);
    cs.push('#');
    let r = crate::parse::string_from_chars(cs);
    proof {
        assert(base@.push('#') =~= base@ + seq!['#']);
    }
    r
}

/// Writing the same layout twice leaves a file whose last line is two
/// markers: the popularity count is exactly two.
pub proof fn lemma_db_dedup(entry: Seq<char>)
    requires
        entry.len() >= 1,
        entry.last() == '\n',
    ensures
        spec_lines((entry + seq!['#']) + seq!['#']).last() =~= seq!['#', '#'],
        spec_popularity((entry + seq!['#']) + seq!['#']) == 2,
{
    let body = entry.drop_last();
    assert(entry =~= body + seq!['\n']);
    lemma_split_nl_newline(body);
    let p = spec_split_nl(entry);
    assert(p == spec_split_nl(body).push(Seq::empty()));
    lemma_split_nl_nonempty(body);
    lemma_split_nl_append(entry, seq!['#', '#']);
    assert((entry + seq!['#']) + seq!['#'] =~= entry + seq!['#', '#']);
    let q = spec_split_nl(entry + seq!['#', '#']);
    assert(q == p.update(p.len() - 1, p.last() + seq!['#', '#']));
    assert(q.last() =~= seq!['#', '#']);
    assert(q.last().len() > 0);
    assert(spec_lines(entry + seq!['#', '#']) == q);
    assert(spec_lines(entry + seq!['#', '#']).last() == q.last());
    assert(forall|i: int| 0 <= i < q.last().len() ==> q.last()[i] == '#');
}

} // verus!
