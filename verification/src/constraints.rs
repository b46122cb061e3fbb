//! Constraint counters: the exact integer content of every constraint
//! penalty.  Callers scale these counts by their configured weights.

use vstd::prelude::*;
use crate::layout::{Layout, KeyGlyphs};
use crate::model::{KuehlmakModel, KuehlmakParams, spec_key_finger, spec_key_hand};
use crate::chars::{is_alpha_char, char_is_alphabetic};

verus! {

/// Is `c` one of the glyphs in `keys`?
pub fn chars_contain(keys: &Vec<char>, c: char) -> (r: bool)
    ensures
        r == keys@.contains(c),
{
    let mut i: usize = 0;
    while i < keys.len()
        invariant
            i <= keys@.len(),
            forall|m: int| 0 <= m < i ==> keys@[m] != c,
        decreases keys@.len() - i,
    {
        if keys[i] == c {
            return true;
        }
        i += 1;
    }
    false
}

/// The primaries among the five left-hand bottom-row keys that belong
/// to the glyph set z, x, c, v, in key order.
pub open spec fn spec_zxcv_found(l: Seq<KeyGlyphs>, m: int) -> Seq<char>
    decreases m,
{
    if m <= 0 {
        Seq::empty()
    } else {
        let prev = spec_zxcv_found(l, m - 1);
        let g = l[20 + m - 1].0;
        if g == 'z' || g == 'x' || g == 'c' || g == 'v' {
            prev.push(g)
        } else {
            prev
        }
    }
}

/// The zxcv score: matched keys, plus one when all four stand in order.
pub open spec fn spec_zxcv_score(l: Seq<KeyGlyphs>) -> int {
    let found = spec_zxcv_found(l, 5);
    if found == seq!['z', 'x', 'c', 'v'] {
        found.len() as int + 1
    } else {
        found.len() as int
    }
}

/// Count how well z, x, c, v sit on the left-hand bottom row; 5 means
/// all four in order, and the penalty is (5 - r) fifths.
pub fn eval_zxcv(l: &Layout) -> (r: u8)
    requires
        l.wf(),
    ensures
        r == spec_zxcv_score(l@),
        r <= 5,
{
    let mut found: Vec<char> = Vec::new();
    let mut m: usize = 0;
    while m < 5
        invariant
            l.wf(),
            m <= 5,
            found@ == spec_zxcv_found(l@, m as int),
            found@.len() <= m,
        decreases 5 - m,
    {
        let g = l.keys[20 + m].0;
        if g == 'z' || g == 'x' || g == 'c' || g == 'v' {
            found.push(g);
        }
        m += 1;
    }
    let in_order = found.len() == 4 && found[0] == 'z' && found[1] == 'x' && found[2] == 'c'
        && found[3] == 'v';
    proof {
        if in_order {
            assert(found@ =~= seq!['z', 'x', 'c', 'v']);
        } else {
            assert(found@ != seq!['z', 'x', 'c', 'v']) by {
                if found@.len() == 4 {
                    assert(seq!['z', 'x', 'c', 'v'][0] == 'z' && seq!['z', 'x', 'c', 'v'][1] == 'x'
                        && seq!['z', 'x', 'c', 'v'][2] == 'c' && seq!['z', 'x', 'c', 'v'][3]
                        == 'v');
                }
            }
        }
    }
    if in_order {
        (found.len() + 1) as u8
    } else {
        found.len() as u8
    }
}

/// How many alphabetic glyphs sit on the non-alpha positions: the last
/// key of the top row and the last three keys of the bottom row.
pub open spec fn spec_nonalpha_count(l: Seq<KeyGlyphs>) -> int {
    (if is_alpha_char(l[9].0) {
        1int
    } else {
        0
    }) + (if is_alpha_char(l[27].0) {
        1int
    } else {
        0
    }) + (if is_alpha_char(l[28].0) {
        1int
    } else {
        0
    }) + (if is_alpha_char(l[29].0) {
        1int
    } else {
        0
    })
}

/// Count alphabetic glyphs on the non-alpha key positions; the penalty
/// is r quarters.
pub fn eval_nonalpha(l: &Layout) -> (r: u8)
    requires
        l.wf(),
    ensures
        r == spec_nonalpha_count(l@),
        r <= 4,
{
    let mut n: u8 = 0;
    if char_is_alphabetic(l.keys[9].0) {
        n += 1;
    }
    if char_is_alphabetic(l.keys[27].0) {
        n += 1;
    }
    if char_is_alphabetic(l.keys[28].0) {
        n += 1;
    }
    if char_is_alphabetic(l.keys[29].0) {
        n += 1;
    }
    n
}

/// How many primaries of row `row` lie in the key set, over the first
/// `m` columns.
pub open spec fn spec_row_matches(l: Seq<KeyGlyphs>, row: int, keys: Seq<char>, m: int) -> int
    decreases m,
{
    if m <= 0 {
        0
    } else {
        spec_row_matches(l, row, keys, m - 1) + (if keys.contains(l[row * 10 + m - 1].0) {
            1int
        } else {
            0
        })
    }
}

/// Count the keys of one row whose primary glyph lies in the given key
/// set; the penalty is (10 - r) tenths.
pub fn eval_row(l: &Layout, row: usize, keys: &Vec<char>) -> (r: u8)
    requires
        l.wf(),
        row < 3,
    ensures
        r == spec_row_matches(l@, row as int, keys@, 10),
        r <= 10,
{
    let mut n: u8 = 0;
    let mut m: usize = 0;
    while m < 10
        invariant
            l.wf(),
            row < 3,
            m <= 10,
            n == spec_row_matches(l@, row as int, keys@, m as int),
            n <= m,
        decreases 10 - m,
    {
        if chars_contain(keys, l.keys[row * 10 + m].0) {
            n += 1;
        }
        m += 1;
    }
    n
}

/// The first home-row position (0..10) whose primary is `c`.
pub open spec fn spec_home_pos_from(l: Seq<KeyGlyphs>, c: char, p: int) -> Option<int>
    decreases 10 - p,
{
    if p >= 10 || p < 0 {
        None
    } else if l[10 + p].0 == c {
        Some(p)
    } else {
        spec_home_pos_from(l, c, p + 1)
    }
}

/// The homing-scan state after the first `i` homing-only glyphs: the
/// required homing finger (0 none, 1 index, 2 middle) and whether some
/// glyph sits on a wrong home-row position.
pub open spec fn spec_homing_scan(l: Seq<KeyGlyphs>, ho: Seq<char>, i: int) -> (u8, bool)
    decreases i,
{
    if i <= 0 {
        (0u8, false)
    } else {
        let prev = spec_homing_scan(l, ho, i - 1);
        if prev.1 {
            prev
        } else {
            match spec_home_pos_from(l, ho[i - 1], 0) {
                None => prev,
                Some(p) => {
                    if p == 3 || p == 6 {
                        if prev.0 == 0 {
                            (1u8, false)
                        } else if prev.0 != 1 {
                            (prev.0, true)
                        } else {
                            prev
                        }
                    } else if p == 2 || p == 7 {
                        if prev.0 == 0 {
                            (2u8, false)
                        } else if prev.0 != 2 {
                            (prev.0, true)
                        } else {
                            prev
                        }
                    } else {
                        (prev.0, true)
                    }
                },
            }
        }
    }
}

/// How many of the two candidate home positions of a finger pair hold a
/// homing glyph.
pub open spec fn spec_homing_pair(l: Seq<KeyGlyphs>, keys: Seq<char>, a: int, b: int) -> int {
    (if keys.contains(l[a].0) {
        1int
    } else {
        0
    }) + (if keys.contains(l[b].0) {
        1int
    } else {
        0
    })
}

/// The homing penalty numerator, 0..=3: thirds of the final penalty.
pub open spec fn spec_homing_num(l: Seq<KeyGlyphs>, keys: Seq<char>, ho: Seq<char>) -> int {
    let index = spec_homing_pair(l, keys, 13, 16);
    let middle = spec_homing_pair(l, keys, 12, 17);
    let scan = spec_homing_scan(l, ho, ho.len() as int);
    let best = if scan.0 == 0 {
        if index >= middle {
            index
        } else {
            middle
        }
    } else if scan.0 == 1 {
        index
    } else {
        middle
    };
    2 - best + (if scan.1 {
        1int
    } else {
        0
    })
}

/// Find the first home-row position holding glyph `c`.
fn home_pos(l: &Layout, c: char) -> (r: Option<usize>)
    requires
        l.wf(),
    ensures
        match r {
            Some(p) => p < 10 && spec_home_pos_from(l@, c, 0) == Some(p as int),
            None => spec_home_pos_from(l@, c, 0) is None,
        },
{
    let mut p: usize = 0;
    while p < 10
        invariant
            l.wf(),
            p <= 10,
            spec_home_pos_from(l@, c, 0) == spec_home_pos_from(l@, c, p as int),
        decreases 10 - p,
    {
        if l.keys[10 + p].0 == c {
            return Some(p);
        }
        p += 1;
    }
    None
}

/// Compute the homing penalty numerator: 2 minus the better homing-key
/// count of the index or middle fingers, plus one when a homing-only
/// glyph sits on a wrong position.  The penalty is r thirds.
pub fn eval_homing(l: &Layout, keys: &Vec<char>, homing_only: &Vec<char>) -> (r: u8)
    requires
        l.wf(),
    ensures
        r == spec_homing_num(l@, keys@, homing_only@),
        r <= 3,
{
    let a = if chars_contain(keys, l.keys[13].0) {
        1u8
    } else {
        0
    };
    let b = if chars_contain(keys, l.keys[16].0) {
        1u8
    } else {
        0
    };
    let index = a + b;
    let a2 = if chars_contain(keys, l.keys[12].0) {
        1u8
    } else {
        0
    };
    let b2 = if chars_contain(keys, l.keys[17].0) {
        1u8
    } else {
        0
    };
    let middle = a2 + b2;
    let mut hf: u8 = 0;
    let mut wrong: bool = false;
    let mut i: usize = 0;
    while i < homing_only.len()
        invariant
            l.wf(),
            i <= homing_only@.len(),
            (hf, wrong) == spec_homing_scan(l@, homing_only@, i as int),
            hf <= 2,
        decreases homing_only@.len() - i,
    {
        if !wrong {
            match home_pos(l, homing_only[i]) {
                Some(p) => {
                    if p == 3 || p == 6 {
                        if hf == 0 {
                            hf = 1;
                        } else if hf != 1 {
                            wrong = true;
                        }
                    } else if p == 2 || p == 7 {
                        if hf == 0 {
                            hf = 2;
                        } else if hf != 2 {
                            wrong = true;
                        }
                    } else {
                        wrong = true;
                    }
                },
                None => {},
            }
        }
        i += 1;
    }
    let best = if hf == 0 {
        if index >= middle {
            index
        } else {
            middle
        }
    } else if hf == 1 {
        index
    } else {
        middle
    };
    2 - best + (if wrong {
        1u8
    } else {
        0
    })
}

/// The match credit of primary `i` of layout `a` against layout `b`:
/// 4 on the same key, 2 on the same finger, 1 on the same hand, 0 when
/// the glyph is absent or on the other hand.
pub open spec fn spec_match_credit(p: KuehlmakParams, a: Seq<KeyGlyphs>, b: Seq<KeyGlyphs>, i: int) -> int {
    match spec_first_primary(b, a[i].0, 0) {
        None => 0,
        Some(j) => {
            if i == j {
                4
            } else if spec_key_finger(p, i) == spec_key_finger(p, j) {
                2
            } else if spec_key_hand(p, i) == spec_key_hand(p, j) {
                1
            } else {
                0
            }
        },
    }
}

/// The first key position (0..30) of `b` whose primary is `c`.
pub open spec fn spec_first_primary(b: Seq<KeyGlyphs>, c: char, j: int) -> Option<int>
    decreases 30 - j,
{
    if j >= 30 || j < 0 {
        None
    } else if b[j].0 == c {
        Some(j)
    } else {
        spec_first_primary(b, c, j + 1)
    }
}

/// The total match credit of the first `n` keys of `a` against `b`.
pub open spec fn spec_credit_sum(p: KuehlmakParams, a: Seq<KeyGlyphs>, b: Seq<KeyGlyphs>, n: int) -> int
    decreases n,
{
    if n <= 0 {
        0
    } else {
        spec_credit_sum(p, a, b, n - 1) + spec_match_credit(p, a, b, n - 1)
    }
}

/// The bare credit of a key pair: 4 on the same key, 2 on the same
/// finger, 1 on the same hand, 0 across hands.
pub open spec fn spec_credit_val(p: KuehlmakParams, i: int, j: int) -> int {
    if i == j {
        4
    } else if spec_key_finger(p, i) == spec_key_finger(p, j) {
        2
    } else if spec_key_hand(p, i) == spec_key_hand(p, j) {
        1
    } else {
        0
    }
}

/// The credit of one (i, j) cell of the matching grid: the pair credit
/// when the primaries match, else zero.
pub open spec fn spec_pair_credit(
    p: KuehlmakParams,
    a: Seq<KeyGlyphs>,
    b: Seq<KeyGlyphs>,
    i: int,
    j: int,
) -> int {
    if a[i].0 == b[j].0 {
        spec_credit_val(p, i, j)
    } else {
        0
    }
}

/// One grid row: cells (i, 0) to (i, m-1).
pub open spec fn spec_row_credit(
    p: KuehlmakParams,
    a: Seq<KeyGlyphs>,
    b: Seq<KeyGlyphs>,
    i: int,
    m: int,
) -> int
    decreases m,
{
    if m <= 0 {
        0
    } else {
        spec_row_credit(p, a, b, i, m - 1) + spec_pair_credit(p, a, b, i, m - 1)
    }
}

/// One grid column: cells (0, j) to (n-1, j).
pub open spec fn spec_col_credit(
    p: KuehlmakParams,
    a: Seq<KeyGlyphs>,
    b: Seq<KeyGlyphs>,
    j: int,
    n: int,
) -> int
    decreases n,
{
    if n <= 0 {
        0
    } else {
        spec_col_credit(p, a, b, j, n - 1) + spec_pair_credit(p, a, b, n - 1, j)
    }
}

/// The grid summed row by row: rows 0..n, each over columns 0..m.
pub open spec fn spec_grid_credit(
    p: KuehlmakParams,
    a: Seq<KeyGlyphs>,
    b: Seq<KeyGlyphs>,
    n: int,
    m: int,
) -> int
    decreases n,
{
    if n <= 0 {
        0
    } else {
        spec_grid_credit(p, a, b, n - 1, m) + spec_row_credit(p, a, b, n - 1, m)
    }
}

/// The credit of a cell is symmetric in the two layouts.
proof fn lemma_pair_credit_sym(
    p: KuehlmakParams,
    a: Seq<KeyGlyphs>,
    b: Seq<KeyGlyphs>,
    i: int,
    j: int,
)
    ensures
        spec_pair_credit(p, a, b, i, j) == spec_pair_credit(p, b, a, j, i),
{
}

/// A row of the transposed grid is a column of the grid.
proof fn lemma_row_is_transposed_col(
    p: KuehlmakParams,
    a: Seq<KeyGlyphs>,
    b: Seq<KeyGlyphs>,
    j: int,
    m: int,
)
    ensures
        spec_row_credit(p, b, a, j, m) == spec_col_credit(p, a, b, j, m),
    decreases m,
{
    if m > 0 {
        lemma_row_is_transposed_col(p, a, b, j, m - 1);
        lemma_pair_credit_sym(p, a, b, m - 1, j);
    }
}

/// Widening every row by one column adds that column's sum.
proof fn lemma_grid_peel_col(
    p: KuehlmakParams,
    a: Seq<KeyGlyphs>,
    b: Seq<KeyGlyphs>,
    n: int,
    m: int,
)
    requires
        m >= 1,
    ensures
        spec_grid_credit(p, a, b, n, m) == spec_grid_credit(p, a, b, n, m - 1) + spec_col_credit(
            p,
            a,
            b,
            m - 1,
            n,
        ),
    decreases n,
{
    if n > 0 {
        lemma_grid_peel_col(p, a, b, n - 1, m);
    }
}

/// Summing the grid row by row equals summing it column by column.
proof fn lemma_grid_transpose(
    p: KuehlmakParams,
    a: Seq<KeyGlyphs>,
    b: Seq<KeyGlyphs>,
    n: int,
    m: int,
)
    ensures
        spec_grid_credit(p, a, b, n, m) == spec_grid_credit(p, b, a, m, n),
    decreases m,
{
    if m <= 0 {
        lemma_grid_empty_rows(p, a, b, n, m);
    } else {
        lemma_grid_transpose(p, a, b, n, m - 1);
        lemma_grid_peel_col(p, a, b, n, m);
        lemma_row_is_transposed_col(p, a, b, m - 1, n);
    }
}

/// A grid with empty rows sums to zero.
proof fn lemma_grid_empty_rows(
    p: KuehlmakParams,
    a: Seq<KeyGlyphs>,
    b: Seq<KeyGlyphs>,
    n: int,
    m: int,
)
    requires
        m <= 0,
    ensures
        spec_grid_credit(p, a, b, n, m) == 0,
    decreases n,
{
    if n > 0 {
        lemma_grid_empty_rows(p, a, b, n - 1, m);
    }
}

/// A found first-primary position carries the glyph searched for, and
/// nothing before it does.
proof fn lemma_first_primary_found(b: Seq<KeyGlyphs>, c: char, s: int)
    requires
        0 <= s,
    ensures
        spec_first_primary(b, c, s) matches Some(j) ==> s <= j < 30 && b[j].0 == c,
        spec_first_primary(b, c, s) is None ==> forall|j: int|
            s <= j < 30 ==> (#[trigger] b[j]).0 != c,
    decreases 30 - s,
{
    if s < 30 {
        lemma_first_primary_found(b, c, s + 1);
    }
}

/// On a layout with distinct glyphs, primaries are pairwise distinct.
proof fn lemma_primary_unique(b: Seq<KeyGlyphs>, j1: int, j2: int)
    requires
        b.len() == 30,
        crate::layout::spec_distinct_glyphs(b),
        0 <= j1 < 30,
        0 <= j2 < 30,
        j1 != j2,
    ensures
        b[j1].0 != b[j2].0,
{
    assert(crate::layout::spec_glyph_at(b, 2 * j1) == b[j1].0);
    assert(crate::layout::spec_glyph_at(b, 2 * j2) == b[j2].0);
}

/// With distinct primaries, the match credit of key `i` equals its
/// whole grid row: at most one cell of the row is nonzero.
proof fn lemma_match_credit_is_row(
    p: KuehlmakParams,
    a: Seq<KeyGlyphs>,
    b: Seq<KeyGlyphs>,
    i: int,
    m: int,
)
    requires
        a.len() == 30,
        b.len() == 30,
        crate::layout::spec_distinct_glyphs(b),
        0 <= i < 30,
        0 <= m <= 30,
    ensures
        spec_row_credit(p, a, b, i, m) == match spec_first_primary(b, a[i].0, 0) {
            None => 0int,
            Some(j) => if j < m {
                spec_credit_val(p, i, j)
            } else {
                0
            },
        },
    decreases m,
{
    lemma_first_primary_found(b, a[i].0, 0);
    if m > 0 {
        lemma_match_credit_is_row(p, a, b, i, m - 1);
        match spec_first_primary(b, a[i].0, 0) {
            Option::None => {
                assert(b[m - 1].0 != a[i].0);
            },
            Option::Some(j) => {
                if m - 1 != j {
                    lemma_primary_unique(b, j, m - 1);
                }
            },
        }
    }
}

/// With distinct primaries, the credit sum is the full grid sum.
proof fn lemma_credit_sum_is_grid(
    p: KuehlmakParams,
    a: Seq<KeyGlyphs>,
    b: Seq<KeyGlyphs>,
    n: int,
)
    requires
        a.len() == 30,
        b.len() == 30,
        crate::layout::spec_distinct_glyphs(b),
        0 <= n <= 30,
    ensures
        spec_credit_sum(p, a, b, n) == spec_grid_credit(p, a, b, n, 30),
    decreases n,
{
    if n > 0 {
        lemma_credit_sum_is_grid(p, a, b, n - 1);
        lemma_match_credit_is_row(p, a, b, n - 1, 30);
        lemma_first_primary_found(b, a[n - 1].0, 0);
    }
}

/// Layout distance is symmetric: on layouts with distinct glyphs, the
/// credit of `a` against `b` equals the credit of `b` against `a`, so
/// the two distances are the same.
pub proof fn lemma_layout_distance_symmetric(
    p: KuehlmakParams,
    a: Seq<KeyGlyphs>,
    b: Seq<KeyGlyphs>,
)
    requires
        a.len() == 30,
        b.len() == 30,
        crate::layout::spec_distinct_glyphs(a),
        crate::layout::spec_distinct_glyphs(b),
    ensures
        spec_credit_sum(p, a, b, 30) == spec_credit_sum(p, b, a, 30),
{
    lemma_credit_sum_is_grid(p, a, b, 30);
    lemma_credit_sum_is_grid(p, b, a, 30);
    lemma_grid_transpose(p, a, b, 30, 30);
}

/// Resolve each glyph of a forced-key string to the key position that
/// carries it as primary; absent glyphs make the whole resolution fail.
pub fn find_char_indexes_in_layout(layout: &Layout, search: &str) -> (r: Option<
    Vec<(char, usize)>,
>)
    requires
        layout.wf(),
    ensures
        match r {
            Some(v) => v@.len() == search@.len() && forall|i: int|
                0 <= i < v@.len() ==> (#[trigger] v@[i]).0 == search@[i] && v@[i].1 < 30
                    && spec_first_primary(layout@, search@[i], 0) == Some(v@[i].1 as int),
            None => exists|i: int|
                0 <= i < search@.len() && spec_first_primary(layout@, #[trigger] search@[i], 0)
                    is None,
        },
{
    let cs = crate::parse::collect_chars(search);
    let mut v: Vec<(char, usize)> = Vec::new();
    let mut i: usize = 0;
    while i < cs.len()
        invariant
            layout.wf(),
            cs@ == search@,
            i <= cs@.len(),
            v@.len() == i,
            forall|m: int|
                0 <= m < i ==> (#[trigger] v@[m]).0 == search@[m] && v@[m].1 < 30
                    && spec_first_primary(layout@, search@[m], 0) == Some(v@[m].1 as int),
        decreases cs@.len() - i,
    {
        match first_primary(layout, cs[i]) {
            Some(j) => {
                v.push((cs[i], j));
            },
            None => {
                return None;
            },
        }
        i += 1;
    }
    Some(v)
}

fn first_primary(b: &Layout, c: char) -> (r: Option<usize>)
    requires
        b.wf(),
    ensures
        match r {
            Some(j) => j < 30 && spec_first_primary(b@, c, 0) == Some(j as int),
            None => spec_first_primary(b@, c, 0) is None,
        },
{
    let mut j: usize = 0;
    while j < 30
        invariant
            b.wf(),
            j <= 30,
            spec_first_primary(b@, c, 0) == spec_first_primary(b@, c, j as int),
        decreases 30 - j,
    {
        if b.keys[j].0 == c {
            return Some(j);
        }
        j += 1;
    }
    None
}

impl KuehlmakModel {
    /// How far layout `a` stands from layout `b`, as a count out of 120:
    /// 0 when every primary sits on the same key, 120 when nothing
    /// matches.  The distance is r/120.
    pub fn layout_distance(&self, a: &Layout, b: &Layout) -> (r: u32)
        requires
            self.wf(),
            a.wf(),
            b.wf(),
        ensures
            r as int == 120 - spec_credit_sum(self.params, a@, b@, 30),
            r <= 120,
    {
        let mut credit: u32 = 0;
        let mut i: usize = 0;
        while i < 30
            invariant
                self.wf(),
                a.wf(),
                b.wf(),
                i <= 30,
                credit == spec_credit_sum(self.params, a@, b@, i as int),
                credit <= 4 * i,
            decreases 30 - i,
        {
            match first_primary(b, a.keys[i].0) {
                Some(j) => {
                    if i == j {
                        credit += 4;
                    } else {
                        let fi = self.key_props[i].finger;
                        let fj = self.key_props[j].finger;
                        if fi == fj {
                            credit += 2;
                        } else {
                            let hi = self.key_props[i].hand;
                            let hj = self.key_props[j].hand;
                            if hi == hj {
                                credit += 1;
                            }
                        }
                    }
                },
                None => {},
            }
            i += 1;
        }
        120 - credit
    }
}

/// How many forced keys are violated, over the first `n` entries.
pub open spec fn spec_forced_mismatches(l: Seq<KeyGlyphs>, forced: Seq<(char, usize)>, n: int) -> int
    decreases n,
{
    if n <= 0 {
        0
    } else {
        spec_forced_mismatches(l, forced, n - 1) + (if l[forced[n - 1].1 as int].0 != forced[n
            - 1].0 {
            1int
        } else {
            0
        })
    }
}

/// The forced-key penalty as an exact fraction `num / den`: each
/// violated (glyph, position) pair contributes one share, no violations
/// earn a small bonus of minus one share, and an empty set contributes
/// exactly zero.
pub fn eval_forced_coded(l: &Layout, forced: &Vec<(char, usize)>) -> (r: (i64, u64))
    requires
        l.wf(),
        forced@.len() < 1000000,
        forall|m: int| 0 <= m < forced@.len() ==> (#[trigger] forced@[m]).1 < 30,
    ensures
        forced@.len() == 0 ==> r == (0i64, 1u64),
        forced@.len() > 0 && spec_forced_mismatches(l@, forced@, forced@.len() as int) == 0 ==> r
            == (-1i64, forced@.len() as u64),
        forced@.len() > 0 && spec_forced_mismatches(l@, forced@, forced@.len() as int) > 0 ==> r
            == (spec_forced_mismatches(l@, forced@, forced@.len() as int) as i64, forced@.len() as u64),
{
    if forced.len() == 0 {
        return (0, 1);
    }
    let mut mm: u64 = 0;
    let mut n: usize = 0;
    while n < forced.len()
        invariant
            l.wf(),
            forced@.len() < 1000000,
            forall|m: int| 0 <= m < forced@.len() ==> (#[trigger] forced@[m]).1 < 30,
            n <= forced@.len(),
            mm == spec_forced_mismatches(l@, forced@, n as int),
            mm <= n,
        decreases forced@.len() - n,
    {
        let (c, idx) = forced[n];
        if l.keys[idx].0 != c {
            mm += 1;
        }
        n += 1;
    }
    if mm == 0 {
        (-1, forced.len() as u64)
    } else {
        (mm as i64, forced.len() as u64)
    }
}

/// When no constraint set is configured, every counter is absent and
/// the forced-key share is exactly zero: the constraint score of such a
/// configuration is zero.
pub proof fn lemma_empty_forced_is_zero(l: Seq<KeyGlyphs>, forced: Seq<(char, usize)>)
    requires
        forced.len() == 0,
    ensures
        spec_forced_mismatches(l, forced, forced.len() as int) == 0,
{
}

} // verus!
