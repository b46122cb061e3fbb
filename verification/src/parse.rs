//! Layout text format: three rows of ten whitespace-separated keys,
//! each key one or two glyphs.  Parsing and printing are exact inverses
//! on well-behaved layouts.

use vstd::prelude::*;
use crate::layout::{Layout, KeyGlyphs};
use crate::chars::{
    is_space_char, char_is_space, lower_chars_of, upper_chars_of, is_alpha_char,
    char_to_lowercase, char_to_uppercase, char_is_alphabetic,
};

verus! {

/// The pieces of a character sequence between newline characters; the
/// result always holds at least one (possibly empty) piece.
pub open spec fn spec_split_nl(s: Seq<char>) -> Seq<Seq<char>>
    decreases s.len(),
{
    if s.len() == 0 {
        seq![Seq::empty()]
    } else {
        let r = spec_split_nl(s.drop_last());
        if s.last() == '\n' {
            r.push(Seq::empty())
        } else {
            r.update(r.len() - 1, r.last().push(s.last()))
        }
    }
}

pub proof fn lemma_split_nl_nonempty(s: Seq<char>)
    ensures
        spec_split_nl(s).len() >= 1,
    decreases s.len(),
{
    if s.len() > 0 {
        lemma_split_nl_nonempty(s.drop_last());
    }
}

/// The lines of a text, as `str::lines` sees them: split at newlines,
/// with one final trailing newline not opening a last empty line.
pub open spec fn spec_lines(s: Seq<char>) -> Seq<Seq<char>> {
    let p = spec_split_nl(s);
    if p.last().len() == 0 {
        p.drop_last()
    } else {
        p
    }
}

/// The whitespace-separated words of a line, in order; every word is a
/// maximal nonempty run of non-whitespace characters.
pub open spec fn spec_split_ws(s: Seq<char>) -> Seq<Seq<char>>
    decreases s.len(),
{
    if s.len() == 0 {
        Seq::empty()
    } else {
        let r = spec_split_ws(s.drop_last());
        let c = s.last();
        if is_space_char(c) {
            r
        } else if s.len() >= 2 && !is_space_char(s[s.len() - 2]) {
            r.update(r.len() - 1, r.last().push(c))
        } else {
            r.push(seq![c])
        }
    }
}

/// Collect the characters of a string slice.
pub fn collect_chars(s: &str) -> (r: Vec<char>)
    ensures
        r@ == s@,
{
    let mut v: Vec<char> = Vec::new();
    for c in it: s.chars()
        invariant
            v@.len() == it.index(),
            forall|j: int| 0 <= j < v@.len() ==> v@[j] == it.seq()[j],
            it.seq() == s@,
    {
        v.push(c);
    }
    proof {
        assert(v@ =~= s@);
    }
    v
}

/// Split a character sequence into its lines.
pub fn split_lines(cs: &Vec<char>) -> (r: Vec<Vec<char>>)
    ensures
        r@.map_values(|v: Vec<char>| v@) == spec_lines(cs@),
{
    let mut done: Vec<Vec<char>> = Vec::new();
    let mut cur: Vec<char> = Vec::new();
    let mut i: usize = 0;
    while i < cs.len()
        invariant
            i <= cs@.len(),
            spec_split_nl(cs@.take(i as int)) == done@.map_values(|v: Vec<char>| v@).push(cur@),
        decreases cs@.len() - i,
    {
        let ghost pref = cs@.take(i as int);
        let c = cs[i];
        if c == '\n' {
            done.push(cur);
            cur = Vec::new();
        } else {
            cur.push(c);
        }
        i += 1;
        proof {
            assert(cs@.take(i as int).drop_last() =~= pref);
            assert(cs@.take(i as int).last() == c);
            if c == '\n' {
                assert(done@.map_values(|v: Vec<char>| v@).push(cur@) =~~= spec_split_nl(
                    cs@.take(i as int),
                ));
            } else {
                assert(done@.map_values(|v: Vec<char>| v@).push(cur@) =~~= spec_split_nl(
                    cs@.take(i as int),
                ));
            }
        }
    }
    proof {
        assert(cs@.take(cs@.len() as int) =~= cs@);
    }
    let cur_is_empty = cur.len() == 0;
    if !cur_is_empty {
        done.push(cur);
    }
    proof {
        let p = spec_split_nl(cs@);
        if cur_is_empty {
            assert(p.last() =~= Seq::<char>::empty());
            assert(done@.map_values(|v: Vec<char>| v@) =~~= p.drop_last());
        } else {
            assert(done@.map_values(|v: Vec<char>| v@) =~~= p);
        }
    }
    done
}

/// Split a line into its whitespace-separated words.
pub fn split_words(cs: &Vec<char>) -> (r: Vec<Vec<char>>)
    ensures
        r@.map_values(|v: Vec<char>| v@) == spec_split_ws(cs@),
        forall|i: int| 0 <= i < r@.len() ==> (#[trigger] r@[i])@.len() >= 1,
{
    let mut done: Vec<Vec<char>> = Vec::new();
    let mut cur: Vec<char> = Vec::new();
    let mut i: usize = 0;
    while i < cs.len()
        invariant
            i <= cs@.len(),
            cur@.len() == 0 ==> spec_split_ws(cs@.take(i as int)) == done@.map_values(
                |v: Vec<char>| v@,
            ),
            cur@.len() > 0 ==> spec_split_ws(cs@.take(i as int)) == done@.map_values(
                |v: Vec<char>| v@,
            ).push(cur@),
            cur@.len() == 0 <==> (i == 0 || is_space_char(cs@[i - 1])),
            forall|m: int| 0 <= m < done@.len() ==> (#[trigger] done@[m])@.len() >= 1,
        decreases cs@.len() - i,
    {
        let ghost pref = cs@.take(i as int);
        let c = cs[i];
        let sp = char_is_space(c);
        if sp {
            if cur.len() > 0 {
                done.push(cur);
                cur = Vec::new();
            }
        } else {
            cur.push(c);
        }
        i += 1;
        proof {
            assert(cs@.take(i as int).drop_last() =~= pref);
            assert(cs@.take(i as int).last() == c);
            if !sp {
                if pref.len() >= 1 && !is_space_char(pref.last()) {
                    assert(done@.map_values(|v: Vec<char>| v@).push(cur@) =~~= spec_split_ws(
                        cs@.take(i as int),
                    ));
                } else {
                    assert(done@.map_values(|v: Vec<char>| v@).push(cur@) =~~= spec_split_ws(
                        cs@.take(i as int),
                    ));
                }
            }
        }
    }
    proof {
        assert(cs@.take(cs@.len() as int) =~= cs@);
    }
    if cur.len() > 0 {
        done.push(cur);
    }
    proof {
        assert(done@.map_values(|v: Vec<char>| v@) =~~= spec_split_ws(cs@));
    }
    done
}

/// The outcome of reading one key token.
pub enum TokenParse {
    Key(char, char),
    TooLong,
    BadCase(char),
}

/// One or two glyphs per key; a single alphabetic glyph generates its
/// case pair, and fails when either case mapping is not one character.
pub open spec fn spec_parse_token(tok: Seq<char>) -> TokenParse {
    if tok.len() >= 3 {
        TokenParse::TooLong
    } else if tok.len() == 2 {
        TokenParse::Key(tok[0], tok[1])
    } else {
        let c = tok[0];
        if is_alpha_char(c) && lower_chars_of(c).len() == 1 && upper_chars_of(c).len() == 1 {
            TokenParse::Key(lower_chars_of(c)[0], upper_chars_of(c)[0])
        } else {
            TokenParse::BadCase(c)
        }
    }
}

/// The outcome of reading one row of tokens, from token `idx` on.
pub enum RowParse {
    Keys(Seq<KeyGlyphs>),
    TooManyKeys,
    TooManyChars { key: int },
    BadCase { glyph: char, key: int },
    MissingKeys { found: int },
}

/// Read a row: exactly ten keys, errors reported in token order.
pub open spec fn spec_parse_row(toks: Seq<Seq<char>>, idx: int) -> RowParse
    decreases toks.len() - idx,
{
    if idx >= toks.len() {
        if idx < 10 {
            RowParse::MissingKeys { found: idx }
        } else {
            RowParse::Keys(Seq::empty())
        }
    } else if idx >= 10 {
        RowParse::TooManyKeys
    } else {
        match spec_parse_token(toks[idx]) {
            TokenParse::TooLong => RowParse::TooManyChars { key: idx },
            TokenParse::BadCase(c) => RowParse::BadCase { glyph: c, key: idx },
            TokenParse::Key(a, b) => match spec_parse_row(toks, idx + 1) {
                RowParse::Keys(rest) => RowParse::Keys(seq![(a, b)] + rest),
                e => e,
            },
        }
    }
}

/// The outcome of reading a whole layout text.
pub enum LayoutParse {
    Done(Seq<KeyGlyphs>),
    TooManyKeys { row: int },
    TooManyChars { row: int, key: int },
    BadCase { glyph: char, row: int, key: int },
    MissingKeys { row: int, found: int },
    MissingRows { found: int },
    Duplicates(Seq<KeyGlyphs>),
}

/// Read rows `r` to 2 from the line list; extra lines are ignored.
pub open spec fn spec_parse_rows(lines: Seq<Seq<char>>, r: int) -> LayoutParse
    decreases 3 - r,
{
    if r >= 3 {
        LayoutParse::Done(Seq::empty())
    } else if r >= lines.len() {
        LayoutParse::MissingRows { found: lines.len() as int }
    } else {
        match spec_parse_row(spec_split_ws(lines[r]), 0) {
            RowParse::Keys(ks) => match spec_parse_rows(lines, r + 1) {
                LayoutParse::Done(rest) => LayoutParse::Done(ks + rest),
                e => e,
            },
            RowParse::TooManyKeys => LayoutParse::TooManyKeys { row: r },
            RowParse::TooManyChars { key } => LayoutParse::TooManyChars { row: r, key },
            RowParse::BadCase { glyph, key } => LayoutParse::BadCase { glyph, row: r, key },
            RowParse::MissingKeys { found } => LayoutParse::MissingKeys { row: r, found },
        }
    }
}

/// Read a layout text: three rows of ten keys, then the glyphs must be
/// pairwise distinct.
pub open spec fn spec_parse(text: Seq<char>) -> LayoutParse {
    match spec_parse_rows(spec_lines(text), 0) {
        LayoutParse::Done(ks) => if crate::layout::spec_distinct_glyphs(ks) {
            LayoutParse::Done(ks)
        } else {
            LayoutParse::Duplicates(ks)
        },
        e => e,
    }
}

/// Why a layout text was rejected.
#[derive(Debug, Clone, PartialEq, Eq)]
pub enum LayoutError {
    TooManyKeys { row: usize },
    TooManyChars { row: usize, key: usize },
    CaseConversionFailed { glyph: char, row: usize, key: usize },
    MissingKeys { row: usize, found: usize },
    MissingRows { found: usize },
    DuplicateSymbols { dups: Vec<char> },
}

/// A glyph that occurs on two different glyph slots of the keys.
pub open spec fn spec_is_duplicated(ks: Seq<KeyGlyphs>, c: char) -> bool {
    exists|i: int, j: int|
        0 <= i < j < 2 * ks.len() && #[trigger] crate::layout::spec_glyph_at(ks, i)
            == #[trigger] crate::layout::spec_glyph_at(ks, j) && crate::layout::spec_glyph_at(
            ks,
            j,
        ) == c
}

/// The parser's result agrees with the specified outcome, variant by
/// variant; the duplicate list holds glyphs that each occur on two
/// glyph slots.
pub open spec fn parse_matches(text: Seq<char>, r: Result<Layout, LayoutError>) -> bool {
    match spec_parse(text) {
        LayoutParse::Done(ks) => r matches Ok(l) && l@ == ks,
        LayoutParse::TooManyKeys { row } => r matches Err(LayoutError::TooManyKeys { row: r2 })
            && r2 as int == row,
        LayoutParse::TooManyChars { row, key } => r matches Err(LayoutError::TooManyChars {
            row: r2,
            key: k2,
        }) && r2 as int == row && k2 as int == key,
        LayoutParse::BadCase { glyph, row, key } => r matches Err(
            LayoutError::CaseConversionFailed { glyph: g2, row: r2, key: k2 },
        ) && g2 == glyph && r2 as int == row && k2 as int == key,
        LayoutParse::MissingKeys { row, found } => r matches Err(LayoutError::MissingKeys {
            row: r2,
            found: f2,
        }) && r2 as int == row && f2 as int == found,
        LayoutParse::MissingRows { found } => r matches Err(LayoutError::MissingRows { found: f2 })
            && f2 as int == found,
        LayoutParse::Duplicates(ks) => r matches Err(LayoutError::DuplicateSymbols { dups })
            && dups@.len() >= 1 && (forall|d: int|
            0 <= d < dups@.len() ==> spec_is_duplicated(ks, #[trigger] dups@[d])),
    }
}

/// Prepending already-parsed keys to a pending row outcome.
pub open spec fn row_prepend(s: Seq<KeyGlyphs>, pr: RowParse) -> RowParse {
    match pr {
        RowParse::Keys(rest) => RowParse::Keys(s + rest),
        e => e,
    }
}

/// Prepending already-parsed keys to a pending layout outcome.
pub open spec fn rows_prepend(s: Seq<KeyGlyphs>, pr: LayoutParse) -> LayoutParse {
    match pr {
        LayoutParse::Done(rest) => LayoutParse::Done(s + rest),
        e => e,
    }
}

/// The glyph on slot `i` of the keys collected so far.
fn glyph_at(keys: &Vec<KeyGlyphs>, i: usize) -> (r: char)
    requires
        i < 2 * keys@.len(),
    ensures
        r == crate::layout::spec_glyph_at(keys@, i as int),
{
    if i % 2 == 0 {
        keys[i / 2].0
    } else {
        keys[i / 2].1
    }
}

/// Does glyph slot `j` repeat any earlier glyph slot?
fn clashes_before(keys: &Vec<KeyGlyphs>, j: usize) -> (r: bool)
    requires
        keys@.len() == 30,
        j < 60,
    ensures
        r <==> exists|i: int|
            0 <= i < j && crate::layout::spec_glyph_at(keys@, i) == crate::layout::spec_glyph_at(
                keys@,
                j as int,
            ),
{
    let g = glyph_at(keys, j);
    let mut i: usize = 0;
    while i < j
        invariant
            keys@.len() == 30,
            j < 60,
            i <= j,
            g == crate::layout::spec_glyph_at(keys@, j as int),
            forall|m: int|
                0 <= m < i ==> crate::layout::spec_glyph_at(keys@, m)
                    != crate::layout::spec_glyph_at(keys@, j as int),
        decreases j - i,
    {
        if glyph_at(keys, i) == g {
            return true;
        }
        i += 1;
    }
    false
}

/// Parse a layout from its text form: three newline-separated rows of
/// ten whitespace-separated keys each, one or two glyphs per key, all
/// sixty glyphs distinct.
pub fn layout_from_str(text: &str) -> (r: Result<Layout, LayoutError>)
    ensures
        parse_matches(text@, r),
        r matches Ok(l) ==> l.wf() && l.distinct_glyphs(),
{
    let cs = collect_chars(text);
    let lines = split_lines(&cs);
    let ghost lv = lines@.map_values(|v: Vec<char>| v@);
    let mut keys: Vec<KeyGlyphs> = Vec::new();
    let mut row: usize = 0;
    while row < 3
        invariant
            lv == spec_lines(text@),
            lv == lines@.map_values(|v: Vec<char>| v@),
            row <= 3,
            keys@.len() == 10 * row,
            rows_prepend(keys@, spec_parse_rows(lv, row as int)) == spec_parse_rows(lv, 0),
        decreases 3 - row,
    {
        if row >= lines.len() {
            proof {
                assert(spec_parse_rows(lv, row as int) == LayoutParse::MissingRows {
                    found: lv.len() as int,
                });
            }
            return Err(LayoutError::MissingRows { found: lines.len() });
        }
        let words = split_words(&lines[row]);
        let ghost wv = words@.map_values(|v: Vec<char>| v@);
        proof {
            assert(lv[row as int] == lines@[row as int]@);
            assert(wv == spec_split_ws(lv[row as int]));
        }
        let mut rkeys: Vec<KeyGlyphs> = Vec::new();
        let mut idx: usize = 0;
        while idx < words.len()
            invariant
                lv == spec_lines(text@),
                lv == lines@.map_values(|v: Vec<char>| v@),
                row < 3,
                row < lv.len(),
                keys@.len() == 10 * row,
                rows_prepend(keys@, spec_parse_rows(lv, row as int)) == spec_parse_rows(lv, 0),
                wv == spec_split_ws(lv[row as int]),
                wv == words@.map_values(|v: Vec<char>| v@),
                forall|m: int| 0 <= m < words@.len() ==> (#[trigger] words@[m])@.len() >= 1,
                idx <= words@.len(),
                idx <= 10,
                rkeys@.len() == idx,
                row_prepend(rkeys@, spec_parse_row(wv, idx as int)) == spec_parse_row(wv, 0),
            decreases words@.len() - idx,
        {
            if idx >= 10 {
                proof {
                    assert(spec_parse_row(wv, idx as int) == RowParse::TooManyKeys);
                    assert(spec_parse_rows(lv, row as int) == LayoutParse::TooManyKeys {
                        row: row as int,
                    });
                }
                return Err(LayoutError::TooManyKeys { row });
            }
            let tok = &words[idx];
            let ghost old_rkeys = rkeys@;
            proof {
                assert(tok@ == wv[idx as int]);
            }
            if tok.len() >= 3 {
                proof {
                    assert(spec_parse_row(wv, idx as int) == RowParse::TooManyChars {
                        key: idx as int,
                    });
                    assert(spec_parse_rows(lv, row as int) == LayoutParse::TooManyChars {
                        row: row as int,
                        key: idx as int,
                    });
                }
                return Err(LayoutError::TooManyChars { row, key: idx });
            } else if tok.len() == 2 {
                rkeys.push((tok[0], tok[1]));
            } else {
                let c = tok[0];
                let alpha = char_is_alphabetic(c);
                let low = char_to_lowercase(c);
                let up = char_to_uppercase(c);
                if !alpha || low.len() != 1 || up.len() != 1 {
                    proof {
                        assert(spec_parse_token(wv[idx as int]) == TokenParse::BadCase(c));
                        assert(spec_parse_row(wv, idx as int) == RowParse::BadCase {
                            glyph: c,
                            key: idx as int,
                        });
                        assert(spec_parse_rows(lv, row as int) == LayoutParse::BadCase {
                            glyph: c,
                            row: row as int,
                            key: idx as int,
                        });
                    }
                    return Err(LayoutError::CaseConversionFailed { glyph: c, row, key: idx });
                }
                rkeys.push((low[0], up[0]));
            }
            idx += 1;
            proof {
                match spec_parse_token(wv[idx - 1]) {
                    TokenParse::Key(a, b) => {
                        assert(rkeys@ == old_rkeys.push((a, b)));
                        assert(row_prepend(old_rkeys, spec_parse_row(wv, idx as int - 1))
                            == spec_parse_row(wv, 0));
                        assert(row_prepend(rkeys@, spec_parse_row(wv, idx as int))
                            == row_prepend(old_rkeys, spec_parse_row(wv, idx as int - 1))) by {
                            match spec_parse_row(wv, idx as int) {
                                RowParse::Keys(rest) => {
                                    assert(old_rkeys + (seq![(a, b)] + rest) =~= rkeys@ + rest);
                                },
                                _ => {},
                            }
                        }
                    },
                    _ => {
                        assert(false);
                    },
                }
            }
        }
        if idx < 10 {
            proof {
                assert(spec_parse_row(wv, idx as int) == RowParse::MissingKeys {
                    found: idx as int,
                });
                assert(spec_parse_rows(lv, row as int) == LayoutParse::MissingKeys {
                    row: row as int,
                    found: idx as int,
                });
            }
            return Err(LayoutError::MissingKeys { row, found: idx });
        }
        proof {
            assert(idx == 10 && wv.len() == 10);
            assert(spec_parse_row(wv, 10) == RowParse::Keys(Seq::<KeyGlyphs>::empty()));
            assert(rkeys@ + Seq::<KeyGlyphs>::empty() =~= rkeys@);
            assert(spec_parse_row(wv, 0) == RowParse::Keys(rkeys@));
        }
        let ghost old_keys = keys@;
        let mut rk = rkeys;
        keys.append(&mut rk);
        row += 1;
        proof {
            assert(keys@ == old_keys + spec_parse_row(wv, 0)->Keys_0);
            match spec_parse_rows(lv, row as int) {
                LayoutParse::Done(rest) => {
                    assert(old_keys + ((spec_parse_row(wv, 0)->Keys_0) + rest) =~= keys@ + rest);
                },
                _ => {},
            }
        }
    }
    proof {
        assert(spec_parse_rows(lv, 3) == LayoutParse::Done(Seq::<KeyGlyphs>::empty()));
        assert(keys@ + Seq::<KeyGlyphs>::empty() =~= keys@);
        assert(spec_parse_rows(lv, 0) == LayoutParse::Done(keys@));
    }
    let mut dups: Vec<char> = Vec::new();
    let mut j: usize = 0;
    while j < 60
        invariant
            keys@.len() == 30,
            j <= 60,
            dups@.len() == 0 <==> (forall|a: int, b: int|
                0 <= a < b < j ==> crate::layout::spec_glyph_at(keys@, a)
                    != crate::layout::spec_glyph_at(keys@, b)),
            forall|d: int| 0 <= d < dups@.len() ==> spec_is_duplicated(keys@, #[trigger] dups@[d]),
        decreases 60 - j,
    {
        if clashes_before(&keys, j) {
            let g = glyph_at(&keys, j);
            dups.push(g);
        }
        j += 1;
    }
    if dups.len() > 0 {
        proof {
            assert(!crate::layout::spec_distinct_glyphs(keys@));
        }
        return Err(LayoutError::DuplicateSymbols { dups });
    }
    proof {
        assert(crate::layout::spec_distinct_glyphs(keys@));
    }
    Ok(Layout { keys })
}

/// The printed form of one key: two spaces and the primary glyph when
/// the shifted glyph lowercases to the primary, else one space and
/// both glyphs.
pub open spec fn spec_key_chunk(key: KeyGlyphs) -> Seq<char> {
    if lower_chars_of(key.1).len() >= 1 && lower_chars_of(key.1)[0] == key.0 {
        seq![' ', ' ', key.0]
    } else {
        seq![' ', key.0, key.1]
    }
}

/// The printed form of the first `n` keys of the row starting at
/// `base`.
pub open spec fn spec_row_str(l: Seq<KeyGlyphs>, base: int, n: int) -> Seq<char>
    decreases n,
{
    if n <= 0 {
        Seq::empty()
    } else {
        spec_row_str(l, base, n - 1) + spec_key_chunk(l[base + n - 1])
    }
}

/// The printed form of the first `r` rows, each closed by a newline.
pub open spec fn spec_rows_str(l: Seq<KeyGlyphs>, r: int) -> Seq<char>
    decreases r,
{
    if r <= 0 {
        Seq::empty()
    } else {
        spec_rows_str(l, r - 1) + spec_row_str(l, (r - 1) * 10, 10) + seq!['\n']
    }
}

/// The printed form of a whole layout: three rows, three newlines.
pub open spec fn spec_layout_str(l: Seq<KeyGlyphs>) -> Seq<char> {
    spec_rows_str(l, 3)
}

/// Relies on String's FromIterator for char: collecting characters
/// yields a string of exactly those characters.
#[verifier::external_body]
pub(crate) fn string_from_chars(v: Vec<char>) -> (s: String)
    ensures
        s@ == v@,
{
    v.into_iter().collect()
}

/// Print a layout in its text form.
pub fn layout_to_str(layout: &Layout) -> (r: String)
    requires
        layout.wf(),
    ensures
        r@ == spec_layout_str(layout@),
{
    let mut out: Vec<char> = Vec::new();
    let mut row: usize = 0;
    while row < 3
        invariant
            layout.wf(),
            row <= 3,
            out@ == spec_rows_str(layout@, row as int),
        decreases 3 - row,
    {
        let mut k: usize = 0;
        while k < 10
            invariant
                layout.wf(),
                row < 3,
                k <= 10,
                out@ == spec_rows_str(layout@, row as int) + spec_row_str(
                    layout@,
                    row as int * 10,
                    k as int,
                ),
            decreases 10 - k,
        {
            let key = layout.keys[row * 10 + k];
            let low = char_to_lowercase(key.1);
            if low[0] == key.0 {
                out.push(' ');
                out.push(' ');
                out.push(key.0);
            } else {
                out.push(' ');
                out.push(key.0);
                out.push(key.1);
            }
            k += 1;
            proof {
                assert(out@ =~= spec_rows_str(layout@, row as int) + spec_row_str(
                    layout@,
                    row as int * 10,
                    k as int,
                ));
            }
        }
        out.push('\n');
        row += 1;
        proof {
            assert(out@ =~= spec_rows_str(layout@, row as int));
        }
    }
    string_from_chars(out)
}

/// The filename substitute for a primary glyph: punctuation that is
/// awkward in file names maps to a fixed letter, all else to itself.
pub open spec fn spec_subst_char(c: char) -> char {
    if c == '/' {
        'Z'
    } else if c == '?' {
        'S'
    } else if c == '<' {
        'L'
    } else if c == '>' {
        'G'
    } else if c == ':' {
        'I'
    } else if c == ';' {
        'J'
    } else if c == '\\' {
        'X'
    } else if c == '|' {
        'T'
    } else if c == '.' {
        'O'
    } else if c == ',' {
        'Q'
    } else if c == '\'' {
        'V'
    } else if c == '"' {
        'W'
    } else {
        c
    }
}

/// The substituted primaries of the first `n` keys of a row.
pub open spec fn spec_fname_row(l: Seq<KeyGlyphs>, base: int, n: int) -> Seq<char>
    decreases n,
{
    if n <= 0 {
        Seq::empty()
    } else {
        spec_fname_row(l, base, n - 1) + seq![spec_subst_char(l[base + n - 1].0)]
    }
}

/// The database filename of a layout: its substituted primaries, rows
/// separated by underscores, with the layout extension.
pub open spec fn spec_layout_filename(l: Seq<KeyGlyphs>) -> Seq<char> {
    spec_fname_row(l, 0, 10) + seq!['_'] + spec_fname_row(l, 10, 10) + seq!['_'] + spec_fname_row(
        l,
        20,
        10,
    ) + seq!['.', 'k', 'b', 'l']
}

fn subst_char(c: char) -> (r: char)
    ensures
        r == spec_subst_char(c),
{
    if c == '/' {
        'Z'
    } else if c == '?' {
        'S'
    } else if c == '<' {
        'L'
    } else if c == '>' {
        'G'
    } else if c == ':' {
        'I'
    } else if c == ';' {
        'J'
    } else if c == '\\' {
        'X'
    } else if c == '|' {
        'T'
    } else if c == '.' {
        'O'
    } else if c == ',' {
        'Q'
    } else if c == '\'' {
        'V'
    } else if c == '"' {
        'W'
    } else {
        c
    }
}

/// Compute the filesystem-safe filename a layout is stored under.
pub fn layout_to_filename(layout: &Layout) -> (r: String)
    requires
        layout.wf(),
    ensures
        r@ == spec_layout_filename(layout@),
{
    let mut out: Vec<char> = Vec::new();
    let mut row: usize = 0;
    while row < 3
        invariant
            layout.wf(),
            row <= 3,
            row == 0 ==> out@ == Seq::<char>::empty(),
            row == 1 ==> out@ == spec_fname_row(layout@, 0, 10) + seq!['_'],
            row == 2 ==> out@ == spec_fname_row(layout@, 0, 10) + seq!['_'] + spec_fname_row(
                layout@,
                10,
                10,
            ) + seq!['_'],
            row == 3 ==> out@ == spec_fname_row(layout@, 0, 10) + seq!['_'] + spec_fname_row(
                layout@,
                10,
                10,
            ) + seq!['_'] + spec_fname_row(layout@, 20, 10),
        decreases 3 - row,
    {
        let ghost start = out@;
        let mut k: usize = 0;
        while k < 10
            invariant
                layout.wf(),
                row < 3,
                k <= 10,
                out@ == start + spec_fname_row(layout@, row as int * 10, k as int),
            decreases 10 - k,
        {
            out.push(subst_char(layout.keys[row * 10 + k].0));
            k += 1;
            proof {
                assert(out@ =~= start + spec_fname_row(layout@, row as int * 10, k as int));
            }
        }
        if row < 2 {
            out.push('_');
        }
        row += 1;
        proof {
            if row == 1 {
                assert(out@ =~= spec_fname_row(layout@, 0, 10) + seq!['_']);
            } else if row == 2 {
                assert(out@ =~= spec_fname_row(layout@, 0, 10) + seq!['_'] + spec_fname_row(
                    layout@,
                    10,
                    10,
                ) + seq!['_']);
            } else {
                assert(out@ =~= spec_fname_row(layout@, 0, 10) + seq!['_'] + spec_fname_row(
                    layout@,
                    10,
                    10,
                ) + seq!['_'] + spec_fname_row(layout@, 20, 10));
            }
        }
    }
    out.push('.');
    out.push('k');
    out.push('b');
    out.push('l');
    proof {
        assert(out@ =~= spec_layout_filename(layout@));
    }
    string_from_chars(out)
}

/// A character safe in file names on common filesystems: an ASCII
/// letter or digit, an underscore, or a period.
pub open spec fn spec_fname_safe_char(c: char) -> bool {
    (97 <= c as int && c as int <= 122) || (65 <= c as int && c as int <= 90) || (48 <= c as int
        && c as int <= 57) || c == '_' || c == '.'
}

/// One of the punctuation glyphs that the filename encoding replaces.
pub open spec fn spec_fname_mapped_char(c: char) -> bool {
    c == '/' || c == '?' || c == '<' || c == '>' || c == ':' || c == ';' || c == '\\' || c == '|'
        || c == '.' || c == ',' || c == '\'' || c == '"'
}

/// Filename safety: when every primary glyph is itself safe or one of
/// the mapped punctuation characters, the whole filename consists of
/// safe characters only.
pub proof fn lemma_filename_safe(l: Seq<KeyGlyphs>)
    requires
        l.len() == 30,
        forall|k: int|
            0 <= k < 30 ==> spec_fname_safe_char((#[trigger] l[k]).0) || spec_fname_mapped_char(
                l[k].0,
            ),
    ensures
        forall|i: int|
            0 <= i < spec_layout_filename(l).len() ==> spec_fname_safe_char(
                #[trigger] spec_layout_filename(l)[i],
            ),
{
    lemma_fname_row_safe(l, 0, 10);
    lemma_fname_row_safe(l, 10, 10);
    lemma_fname_row_safe(l, 20, 10);
    assert forall|i: int| 0 <= i < spec_layout_filename(l).len() implies spec_fname_safe_char(
        #[trigger] spec_layout_filename(l)[i],
    ) by {
        let a = spec_fname_row(l, 0, 10);
        let b = spec_fname_row(l, 10, 10);
        let c = spec_fname_row(l, 20, 10);
        assert(spec_layout_filename(l) == a + seq!['_'] + b + seq!['_'] + c + seq![
            '.',
            'k',
            'b',
            'l',
        ]);
    }
}

/// Every character of a substituted row is safe, under the same
/// condition on the primaries.
proof fn lemma_fname_row_safe(l: Seq<KeyGlyphs>, base: int, n: int)
    requires
        0 <= base,
        base + n <= l.len(),
        l.len() == 30,
        forall|k: int|
            0 <= k < 30 ==> spec_fname_safe_char((#[trigger] l[k]).0) || spec_fname_mapped_char(
                l[k].0,
            ),
    ensures
        spec_fname_row(l, base, n).len() == (if n >= 0 {
            n
        } else {
            0
        }),
        forall|i: int|
            0 <= i < spec_fname_row(l, base, n).len() ==> spec_fname_safe_char(
                #[trigger] spec_fname_row(l, base, n)[i],
            ),
    decreases n,
{
    if n > 0 {
        lemma_fname_row_safe(l, base, n - 1);
        assert(spec_fname_safe_char(spec_subst_char(l[base + n - 1].0)));
    }
}

/// A key is printed as a single glyph when its shifted glyph
/// lowercases to its primary.
pub open spec fn spec_single_printed(key: KeyGlyphs) -> bool {
    lower_chars_of(key.1).len() >= 1 && lower_chars_of(key.1)[0] == key.0
}

/// The token a key prints as.
pub open spec fn spec_token_of(key: KeyGlyphs) -> Seq<char> {
    if spec_single_printed(key) {
        seq![key.0]
    } else {
        seq![key.0, key.1]
    }
}

/// Appending newline-free text extends the last line.
pub proof fn lemma_split_nl_append(x: Seq<char>, y: Seq<char>)
    requires
        forall|i: int| 0 <= i < y.len() ==> y[i] != '\n',
    ensures
        spec_split_nl(x + y) == spec_split_nl(x).update(
            spec_split_nl(x).len() - 1,
            spec_split_nl(x).last() + y,
        ),
    decreases y.len(),
{
    lemma_split_nl_nonempty(x);
    let r = spec_split_nl(x);
    if y.len() == 0 {
        assert(x + y =~= x);
        assert(r.last() + y =~= r.last());
        assert(r.update(r.len() - 1, r.last() + y) =~~= r);
    } else {
        let y2 = y.drop_last();
        let c = y.last();
        lemma_split_nl_append(x, y2);
        assert(x + y =~= (x + y2).push(c));
        let s = (x + y2).push(c);
        assert(s.drop_last() =~= x + y2);
        assert(s.last() == c && c != '\n');
        let r2 = spec_split_nl(x + y2);
        assert(spec_split_nl(s) == r2.update(r2.len() - 1, r2.last().push(c)));
        assert(r2 == r.update(r.len() - 1, r.last() + y2));
        assert(r2.last() == r.last() + y2);
        assert((r.last() + y2).push(c) =~= r.last() + y);
        assert(r2.update(r2.len() - 1, r2.last().push(c)) =~~= r.update(
            r.len() - 1,
            r.last() + y,
        ));
    }
}

/// Appending a newline closes the last line and opens an empty one.
pub proof fn lemma_split_nl_newline(x: Seq<char>)
    ensures
        spec_split_nl(x + seq!['\n']) == spec_split_nl(x).push(Seq::empty()),
{
    let s = x + seq!['\n'];
    assert(s.drop_last() =~= x);
    assert(s.last() == '\n');
}

/// Appending one whitespace character leaves the word list unchanged.
proof fn lemma_ws_append_space(x: Seq<char>, c: char)
    requires
        is_space_char(c),
    ensures
        spec_split_ws(x.push(c)) == spec_split_ws(x),
{
    assert(x.push(c).drop_last() =~= x);
}

/// Appending a word after whitespace (or at the start) appends it to
/// the word list.
proof fn lemma_ws_append_tok(x: Seq<char>, t: Seq<char>)
    requires
        t.len() >= 1,
        forall|i: int| 0 <= i < t.len() ==> !is_space_char(#[trigger] t[i]),
        x.len() == 0 || is_space_char(x.last()),
    ensures
        spec_split_ws(x + t) == spec_split_ws(x).push(t),
    decreases t.len(),
{
    let s = x + t;
    if t.len() == 1 {
        assert(s =~= x.push(t[0]));
        assert(s.drop_last() =~= x);
        assert(s.last() == t[0] && !is_space_char(t[0]));
        if s.len() >= 2 {
            assert(s[s.len() - 2] == x.last());
        }
        assert(seq![t[0]] =~= t);
    } else {
        let t2 = t.drop_last();
        let c = t.last();
        lemma_ws_append_tok(x, t2);
        assert(s =~= (x + t2).push(c));
        let s2 = x + t2;
        assert(s.drop_last() =~= s2);
        assert(s.last() == c && !is_space_char(c));
        assert(s.len() >= 2);
        assert(s[s.len() - 2] == t2.last());
        assert(!is_space_char(t2.last()));
        let r2 = spec_split_ws(s2);
        assert(spec_split_ws(s) == r2.update(r2.len() - 1, r2.last().push(c)));
        assert(r2 == spec_split_ws(x).push(t2));
        assert(r2.last() == t2);
        assert(t2.push(c) =~= t);
        assert(r2.update(r2.len() - 1, r2.last().push(c)) =~~= spec_split_ws(x).push(t));
    }
}

/// No character of a printed row is a newline, and rows are never
/// empty.
proof fn lemma_row_str_no_newline(l: Seq<KeyGlyphs>, base: int, n: int)
    requires
        0 <= base,
        base + n <= l.len(),
        forall|k: int|
            0 <= k < l.len() ==> !is_space_char((#[trigger] l[k]).0) && !is_space_char(l[k].1),
    ensures
        forall|i: int|
            0 <= i < spec_row_str(l, base, n).len() ==> #[trigger] spec_row_str(l, base, n)[i]
                != '\n',
    decreases n,
{
    if n > 0 {
        lemma_row_str_no_newline(l, base, n - 1);
        assert forall|i: int| 0 <= i < spec_row_str(l, base, n).len() implies #[trigger] spec_row_str(
            l,
            base,
            n,
        )[i] != '\n' by {
            let prev = spec_row_str(l, base, n - 1);
            let ch = spec_key_chunk(l[base + n - 1]);
            assert(spec_row_str(l, base, n) == prev + ch);
            if i >= prev.len() {
                assert(ch[i - prev.len()] == ' ' || ch[i - prev.len()] == l[base + n - 1].0 || ch[i
                    - prev.len()] == l[base + n - 1].1);
            }
        }
    }
}

/// The words of a printed row are exactly its key tokens.
proof fn lemma_row_str_tokens(l: Seq<KeyGlyphs>, base: int, n: int)
    requires
        0 <= base,
        0 <= n,
        base + n <= l.len(),
        n <= 10,
        forall|k: int|
            0 <= k < l.len() ==> !is_space_char((#[trigger] l[k]).0) && !is_space_char(l[k].1),
    ensures
        spec_split_ws(spec_row_str(l, base, n)) == Seq::new(
            n as nat,
            |m: int| spec_token_of(l[base + m]),
        ),
    decreases n,
{
    if n <= 0 {
        assert(spec_row_str(l, base, 0) =~= Seq::<char>::empty());
        assert(spec_split_ws(Seq::<char>::empty()) =~= Seq::<Seq<char>>::empty());
        assert(Seq::new(0nat, |m: int| spec_token_of(l[base + m])) =~= Seq::<Seq<char>>::empty());
    } else {
        lemma_row_str_tokens(l, base, n - 1);
        let x = spec_row_str(l, base, n - 1);
        let key = l[base + n - 1];
        let prev = Seq::new((n - 1) as nat, |m: int| spec_token_of(l[base + m]));
        assert(spec_split_ws(x) == prev);
        let x1 = x.push(' ');
        lemma_ws_append_space(x, ' ');
        assert(spec_split_ws(x1) == prev);
        if spec_single_printed(key) {
            let x2 = x1.push(' ');
            lemma_ws_append_space(x1, ' ');
            assert(spec_split_ws(x2) == prev);
            assert(spec_row_str(l, base, n) =~= x2 + seq![key.0]);
            assert(x2.last() == ' ' && is_space_char(' '));
            lemma_ws_append_tok(x2, seq![key.0]);
            assert(spec_split_ws(spec_row_str(l, base, n)) == prev.push(seq![key.0]));
            assert(seq![key.0] == spec_token_of(key));
        } else {
            assert(spec_row_str(l, base, n) =~= x1 + seq![key.0, key.1]);
            assert(x1.last() == ' ' && is_space_char(' '));
            lemma_ws_append_tok(x1, seq![key.0, key.1]);
            assert(spec_split_ws(spec_row_str(l, base, n)) == prev.push(seq![key.0, key.1]));
            assert(seq![key.0, key.1] == spec_token_of(key));
        }
        assert(spec_split_ws(spec_row_str(l, base, n)) =~~= Seq::new(
            n as nat,
            |m: int| spec_token_of(l[base + m]),
        ));
    }
}

/// Ten perfectly-parsing tokens read back as the ten keys they print.
proof fn lemma_parse_row_perfect(toks: Seq<Seq<char>>, l: Seq<KeyGlyphs>, base: int, idx: int)
    requires
        toks.len() == 10,
        0 <= base,
        base + 10 <= l.len(),
        0 <= idx <= 10,
        forall|m: int|
            0 <= m < 10 ==> #[trigger] spec_parse_token(toks[m]) == TokenParse::Key(
                l[base + m].0,
                l[base + m].1,
            ),
    ensures
        spec_parse_row(toks, idx) == RowParse::Keys(l.subrange(base + idx, base + 10)),
    decreases 10 - idx,
{
    if idx == 10 {
        assert(l.subrange(base + 10, base + 10) =~= Seq::<KeyGlyphs>::empty());
    } else {
        lemma_parse_row_perfect(toks, l, base, idx + 1);
        let key = l[base + idx];
        assert(spec_parse_token(toks[idx]) == TokenParse::Key(key.0, key.1));
        assert(seq![(key.0, key.1)] + l.subrange(base + idx + 1, base + 10) =~= l.subrange(
            base + idx,
            base + 10,
        ));
    }
}

/// A printed key token parses back to the key it came from.
proof fn lemma_token_roundtrip(key: KeyGlyphs)
    requires
        spec_single_printed(key) ==> is_alpha_char(key.0) && lower_chars_of(key.0) == seq![key.0]
            && upper_chars_of(key.0) == seq![key.1],
    ensures
        spec_parse_token(spec_token_of(key)) == TokenParse::Key(key.0, key.1),
{
    let tok = spec_token_of(key);
    if spec_single_printed(key) {
        assert(tok == seq![key.0]);
        assert(tok.len() == 1);
        assert(tok[0] == key.0);
        assert(lower_chars_of(tok[0]).len() == 1 && upper_chars_of(tok[0]).len() == 1);
        assert(lower_chars_of(tok[0])[0] == key.0 && upper_chars_of(tok[0])[0] == key.1);
    } else {
        assert(tok == seq![key.0, key.1]);
        assert(tok.len() == 2);
    }
}

/// Round trip: printing a layout and parsing the text gives the same
/// layout back, provided no glyph is whitespace and every key printed
/// in single-glyph form regenerates its own case pair.
pub proof fn lemma_layout_str_roundtrip(l: Seq<KeyGlyphs>)
    requires
        l.len() == 30,
        crate::layout::spec_distinct_glyphs(l),
        forall|k: int|
            0 <= k < 30 ==> !is_space_char((#[trigger] l[k]).0) && !is_space_char(l[k].1),
        forall|k: int|
            0 <= k < 30 && spec_single_printed(#[trigger] l[k]) ==> is_alpha_char(l[k].0)
                && lower_chars_of(l[k].0) == seq![l[k].0] && upper_chars_of(l[k].0) == seq![
                l[k].1,
            ],
    ensures
        spec_parse(spec_layout_str(l)) == LayoutParse::Done(l),
{
    let r0 = spec_row_str(l, 0, 10);
    let r1 = spec_row_str(l, 10, 10);
    let r2 = spec_row_str(l, 20, 10);
    let nl = seq!['\n'];
    let text = spec_layout_str(l);
    assert(spec_rows_str(l, 0) =~= Seq::<char>::empty());
    assert(spec_rows_str(l, 1) == spec_rows_str(l, 0) + r0 + nl);
    assert(spec_rows_str(l, 2) == spec_rows_str(l, 1) + r1 + nl);
    assert(spec_rows_str(l, 3) == spec_rows_str(l, 2) + r2 + nl);
    lemma_row_str_no_newline(l, 0, 10);
    lemma_row_str_no_newline(l, 10, 10);
    lemma_row_str_no_newline(l, 20, 10);
    // Lines: [r0, r1, r2] with the trailing newline dropped.
    let e = Seq::<char>::empty();
    lemma_split_nl_append(e, r0);
    assert(spec_split_nl(e) =~= seq![Seq::<char>::empty()]);
    assert(e + r0 =~= r0);
    assert(Seq::<char>::empty() + r0 =~= r0);
    assert(spec_split_nl(r0) =~~= seq![r0]);
    lemma_split_nl_newline(r0);
    assert(spec_split_nl(r0 + nl) =~~= seq![r0, e]);
    lemma_split_nl_append(r0 + nl, r1);
    assert(e + r1 =~= r1);
    assert(spec_split_nl(r0 + nl + r1) =~~= seq![r0, r1]);
    lemma_split_nl_newline(r0 + nl + r1);
    assert(spec_split_nl(r0 + nl + r1 + nl) =~~= seq![r0, r1, e]);
    lemma_split_nl_append(r0 + nl + r1 + nl, r2);
    assert(e + r2 =~= r2);
    assert(spec_split_nl(r0 + nl + r1 + nl + r2) =~~= seq![r0, r1, r2]);
    lemma_split_nl_newline(r0 + nl + r1 + nl + r2);
    assert(text =~= r0 + nl + r1 + nl + r2 + nl);
    assert(spec_split_nl(text) =~~= seq![r0, r1, r2, e]);
    assert(spec_split_nl(text).last().len() == 0);
    let lines = spec_lines(text);
    assert(lines =~~= seq![r0, r1, r2]);
    // Words: each row splits into its ten key tokens.
    lemma_row_str_tokens(l, 0, 10);
    lemma_row_str_tokens(l, 10, 10);
    lemma_row_str_tokens(l, 20, 10);
    // Tokens: every token parses back to its own key.
    let toks0 = Seq::new(10nat, |mm: int| spec_token_of(l[0 + mm]));
    let toks1 = Seq::new(10nat, |mm: int| spec_token_of(l[10 + mm]));
    let toks2 = Seq::new(10nat, |mm: int| spec_token_of(l[20 + mm]));
    assert forall|m: int| 0 <= m < 10 implies #[trigger] spec_parse_token(toks0[m])
        == TokenParse::Key(l[m].0, l[m].1) by {
        assert(toks0[m] == spec_token_of(l[m]));
        lemma_token_roundtrip(l[m]);
    }
    assert forall|m: int| 0 <= m < 10 implies #[trigger] spec_parse_token(toks1[m])
        == TokenParse::Key(l[10 + m].0, l[10 + m].1) by {
        assert(toks1[m] == spec_token_of(l[10 + m]));
        lemma_token_roundtrip(l[10 + m]);
    }
    assert forall|m: int| 0 <= m < 10 implies #[trigger] spec_parse_token(toks2[m])
        == TokenParse::Key(l[20 + m].0, l[20 + m].1) by {
        assert(toks2[m] == spec_token_of(l[20 + m]));
        lemma_token_roundtrip(l[20 + m]);
    }
    lemma_parse_row_perfect(toks0, l, 0, 0);
    lemma_parse_row_perfect(toks1, l, 10, 0);
    lemma_parse_row_perfect(toks2, l, 20, 0);
    assert(spec_parse_rows(lines, 3) == LayoutParse::Done(Seq::<KeyGlyphs>::empty()));
    assert(spec_parse_rows(lines, 2) == LayoutParse::Done(
        l.subrange(20, 30) + Seq::<KeyGlyphs>::empty(),
    ));
    assert(spec_parse_rows(lines, 1) == LayoutParse::Done(
        l.subrange(10, 20) + (l.subrange(20, 30) + Seq::<KeyGlyphs>::empty()),
    ));
    assert(spec_parse_rows(lines, 0) == LayoutParse::Done(
        l.subrange(0, 10) + (l.subrange(10, 20) + (l.subrange(20, 30)
            + Seq::<KeyGlyphs>::empty())),
    ));
    assert(l.subrange(0, 10) + (l.subrange(10, 20) + (l.subrange(20, 30)
        + Seq::<KeyGlyphs>::empty())) =~= l);
    assert(spec_parse_rows(lines, 0) == LayoutParse::Done(l));
}

} // verus!
