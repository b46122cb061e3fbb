//! The evaluator core: exact integer accumulation of per-key strokes,
//! classified bigram and trigram counts under precision truncation with
//! rescaling, and the derived integer aggregates.  Floating-point
//! weighting of these counts is the caller's business.

use vstd::prelude::*;
use crate::layout::{Layout, KeyGlyphs, spec_mirror_layout};
use crate::model::{
    KuehlmakModel, KuehlmakParams, KeyProps, Hand, spec_key_hand, spec_key_finger,
    spec_key_props, spec_hand_index, hand_index,
};
use crate::classify::{
    spec_bigram_type, spec_trigram_type, BIGRAM_ALTERNATE, BIGRAM_SAMEKEY, BIGRAM_SFB,
    BIGRAM_UROLL, BIGRAM_LSB1, BIGRAM_LSB2, BIGRAM_LSB3, TRIGRAM_D_SAMEKEY, TRIGRAM_SHD_SFB,
    TRIGRAM_D_UROLL, TRIGRAM_D_LSB1, TRIGRAM_D_LSB2, TRIGRAM_D_LSB3, TRIGRAM_REDIRECT,
    TRIGRAM_SHD_SAMEKEY, TRIGRAM_CONTORT,
};

verus! {

/// The corpus bound that keeps every accumulation inside u64.
pub const MAX_NGRAM_TOTAL: u64 = 0x0800_0000_0000_0000;

/// Corpus statistics as plain data: symbol counts, and bigram and
/// trigram counts in descending count order, with the full totals that
/// the listed n-grams were drawn from.
#[derive(Clone, Debug)]
pub struct TextStats {
    pub unigrams: Vec<(char, u64)>,
    pub bigrams: Vec<((char, char), u64)>,
    pub trigrams: Vec<((char, char, char), u64)>,
    pub total_bigrams: u64,
    pub total_trigrams: u64,
}

/// The sum of the counts of the first `n` entries.
pub open spec fn spec_sum_prefix<T>(s: Seq<(T, u64)>, n: int) -> int
    decreases n,
{
    if n <= 0 {
        0
    } else {
        spec_sum_prefix(s, n - 1) + s[n - 1].1
    }
}

pub proof fn lemma_sum_prefix_mono<T>(s: Seq<(T, u64)>, i: int, j: int)
    requires
        0 <= i <= j <= s.len(),
    ensures
        spec_sum_prefix(s, i) <= spec_sum_prefix(s, j),
    decreases j - i,
{
    if i < j {
        lemma_sum_prefix_mono(s, i, j - 1);
    }
}

impl TextStats {
    /// Descending order, positive counts, sums under the stated totals,
    /// and totals small enough that all arithmetic stays exact.
    pub open spec fn wf(self) -> bool {
        &&& spec_sum_prefix(self.unigrams@, self.unigrams@.len() as int) < MAX_NGRAM_TOTAL
        &&& spec_sum_prefix(self.bigrams@, self.bigrams@.len() as int) <= self.total_bigrams
        &&& spec_sum_prefix(self.trigrams@, self.trigrams@.len() as int) <= self.total_trigrams
        &&& self.total_bigrams < MAX_NGRAM_TOTAL
        &&& self.total_trigrams < MAX_NGRAM_TOTAL
        &&& forall|i: int| 0 <= i < self.unigrams@.len() ==> (#[trigger] self.unigrams@[i]).1 >= 1
        &&& forall|i: int| 0 <= i < self.bigrams@.len() ==> (#[trigger] self.bigrams@[i]).1 >= 1
        &&& forall|i: int| 0 <= i < self.trigrams@.len() ==> (#[trigger] self.trigrams@[i]).1 >= 1
        &&& forall|i: int, j: int|
            0 <= i <= j < self.bigrams@.len() ==> (#[trigger] self.bigrams@[i]).1 >= (
            #[trigger] self.bigrams@[j]).1
        &&& forall|i: int, j: int|
            0 <= i <= j < self.trigrams@.len() ==> (#[trigger] self.trigrams@[i]).1 >= (
            #[trigger] self.trigrams@[j]).1
    }
}

/// The first key (0..30) carrying glyph `c`, searching from `k`.
pub open spec fn spec_key_from(l: Seq<KeyGlyphs>, c: char, k: int) -> Option<int>
    decreases 30 - k,
{
    if k >= 30 || k < 0 {
        None
    } else if l[k].0 == c || l[k].1 == c {
        Some(k)
    } else {
        spec_key_from(l, c, k + 1)
    }
}

/// The key a corpus symbol maps to: the space symbol maps to the thumb
/// key, all other glyphs to the first key that carries them.
pub open spec fn spec_key_of(l: Seq<KeyGlyphs>, c: char) -> Option<int> {
    if c == ' ' {
        Some(30)
    } else {
        spec_key_from(l, c, 0)
    }
}

pub proof fn lemma_key_of_range(l: Seq<KeyGlyphs>, c: char, k: int)
    requires
        0 <= k <= 30,
    ensures
        spec_key_from(l, c, k) matches Some(m) ==> k <= m < 30,
    decreases 30 - k,
{
    if k < 30 {
        lemma_key_of_range(l, c, k + 1);
    }
}

/// Map a symbol to its key, if the layout (or the thumb key) carries it.
pub fn map_char(l: &Layout, c: char) -> (r: Option<u8>)
    requires
        l.wf(),
    ensures
        match r {
            Some(k) => k <= 30 && spec_key_of(l@, c) == Some(k as int),
            None => spec_key_of(l@, c) is None,
        },
{
    if c == ' ' {
        return Some(30);
    }
    let mut k: usize = 0;
    while k < 30
        invariant
            l.wf(),
            c != ' ',
            k <= 30,
            spec_key_from(l@, c, 0) == spec_key_from(l@, c, k as int),
        decreases 30 - k,
    {
        let (a, b) = l.keys[k];
        if a == c || b == c {
            proof {
                assert(spec_key_from(l@, c, k as int) == Some(k as int));
            }
            return Some(k as u8);
        }
        k += 1;
    }
    None
}

/// Strokes landing on key `k` from the first `n` symbol entries.
pub open spec fn spec_heat(l: Seq<KeyGlyphs>, ug: Seq<(char, u64)>, n: int, k: int) -> int
    decreases n,
{
    if n <= 0 {
        0
    } else {
        spec_heat(l, ug, n - 1, k) + (if spec_key_of(l, ug[n - 1].0) == Some(k) {
            ug[n - 1].1 as int
        } else {
            0
        })
    }
}

/// Total strokes from the first `n` symbol entries that hit any key.
pub open spec fn spec_strokes(l: Seq<KeyGlyphs>, ug: Seq<(char, u64)>, n: int) -> int
    decreases n,
{
    if n <= 0 {
        0
    } else {
        spec_strokes(l, ug, n - 1) + (if spec_key_of(l, ug[n - 1].0) is Some {
            ug[n - 1].1 as int
        } else {
            0
        })
    }
}

pub proof fn lemma_strokes_le_sum(l: Seq<KeyGlyphs>, ug: Seq<(char, u64)>, n: int)
    ensures
        0 <= spec_strokes(l, ug, n) <= spec_sum_prefix(ug, n),
    decreases n,
{
    if n > 0 {
        lemma_strokes_le_sum(l, ug, n - 1);
    }
}

pub proof fn lemma_heat_le_strokes(l: Seq<KeyGlyphs>, ug: Seq<(char, u64)>, n: int, k: int)
    ensures
        0 <= spec_heat(l, ug, n, k) <= spec_strokes(l, ug, n),
    decreases n,
{
    if n > 0 {
        lemma_heat_le_strokes(l, ug, n - 1, k);
    }
}

/// The cost carried by finger `f` over the first `k` keys: strokes on
/// each key times its cost, summed over the finger's keys.
pub open spec fn spec_finger_cost_from(p: KuehlmakParams, hm: Seq<u64>, f: int, k: int) -> int
    decreases k,
{
    if k <= 0 {
        0
    } else {
        spec_finger_cost_from(p, hm, f, k - 1) + (if spec_key_finger(p, k - 1) as int == f {
            hm[k - 1] * spec_key_props(p, k - 1).cost
        } else {
            0
        })
    }
}

/// The strokes carried by hand `h` over the first `k` keys.
pub open spec fn spec_hand_strokes_from(p: KuehlmakParams, hm: Seq<u64>, h: int, k: int) -> int
    decreases k,
{
    if k <= 0 {
        0
    } else {
        spec_hand_strokes_from(p, hm, h, k - 1) + (if spec_hand_index(spec_key_hand(p, k - 1))
            == h {
            hm[k - 1] as int
        } else {
            0
        })
    }
}

/// The truncation threshold: the part of the n-gram total that the
/// evaluation walks, `precision` being given in thousandths.
pub open spec fn spec_percentile(total: u64, precision: u64) -> int {
    (total * precision) / 1000
}

/// What one bigram entry adds to the bin of category `t`, hand `h`:
/// its count when both symbols map to keys, the landing key's hand is
/// not `Any`, and the pair falls in that category on that hand.
pub open spec fn spec_big_contrib(
    p: KuehlmakParams,
    l: Seq<KeyGlyphs>,
    e: ((char, char), u64),
    t: int,
    h: int,
) -> int {
    match (spec_key_of(l, e.0.0), spec_key_of(l, e.0.1)) {
        (Some(k0), Some(k1)) => {
            if spec_key_hand(p, k1) != Hand::Any && spec_bigram_type(p, k0, k1) as int == t
                && spec_hand_index(spec_key_hand(p, k1)) == h {
                e.1 as int
            } else {
                0
            }
        },
        _ => 0,
    }
}

/// The raw bin of category `t`, hand `h`, over the processed prefix:
/// entries are walked in order while the cumulative count has not yet
/// passed the threshold.
pub open spec fn spec_big_bins(
    p: KuehlmakParams,
    l: Seq<KeyGlyphs>,
    bs: Seq<((char, char), u64)>,
    pct: int,
    t: int,
    h: int,
) -> int
    decreases bs.len(),
{
    if bs.len() == 0 || pct < 0 {
        0
    } else {
        spec_big_contrib(p, l, bs[0], t, h) + spec_big_bins(
            p,
            l,
            bs.drop_first(),
            pct - bs[0].1,
            t,
            h,
        )
    }
}

/// The cumulative count of the processed prefix; the rescale divides
/// by this.
pub open spec fn spec_big_counted<T>(bs: Seq<(T, u64)>, pct: int) -> int
    decreases bs.len(),
{
    if bs.len() == 0 || pct < 0 {
        0
    } else {
        bs[0].1 + spec_big_counted(bs.drop_first(), pct - bs[0].1)
    }
}

/// Same-hand strokes on hand `h`: counts of processed bigrams landing
/// on `h` that are not alternations.  Not rescaled.
pub open spec fn spec_same_hand(
    p: KuehlmakParams,
    l: Seq<KeyGlyphs>,
    bs: Seq<((char, char), u64)>,
    pct: int,
    h: int,
) -> int
    decreases bs.len(),
{
    if bs.len() == 0 || pct < 0 {
        0
    } else {
        let head = match (spec_key_of(l, bs[0].0.0), spec_key_of(l, bs[0].0.1)) {
            (Some(k0), Some(k1)) => {
                if spec_key_hand(p, k1) != Hand::Any && spec_bigram_type(p, k0, k1)
                    != BIGRAM_ALTERNATE && spec_hand_index(spec_key_hand(p, k1)) == h {
                    bs[0].1 as int
                } else {
                    0
                }
            },
            _ => 0,
        };
        head + spec_same_hand(p, l, bs.drop_first(), pct - bs[0].1, h)
    }
}

/// The key pairs of processed same-finger bigrams (same key or same
/// finger), with their counts: these need the finger-travel correction.
pub open spec fn spec_travel_pairs(
    p: KuehlmakParams,
    l: Seq<KeyGlyphs>,
    bs: Seq<((char, char), u64)>,
    pct: int,
) -> Seq<(u8, u8, u64)>
    decreases bs.len(),
{
    if bs.len() == 0 || pct < 0 {
        Seq::empty()
    } else {
        let head: Seq<(u8, u8, u64)> = match (
            spec_key_of(l, bs[0].0.0),
            spec_key_of(l, bs[0].0.1),
        ) {
            (Some(k0), Some(k1)) => {
                if spec_key_hand(p, k1) != Hand::Any && (spec_bigram_type(p, k0, k1) == BIGRAM_SFB
                    || spec_bigram_type(p, k0, k1) == BIGRAM_SAMEKEY) {
                    seq![(k0 as u8, k1 as u8, bs[0].1)]
                } else {
                    Seq::empty()
                }
            },
            _ => Seq::empty(),
        };
        head + spec_travel_pairs(p, l, bs.drop_first(), pct - bs[0].1)
    }
}

/// The processed bigrams that were counted, each with its category.
pub open spec fn spec_big_list(
    p: KuehlmakParams,
    l: Seq<KeyGlyphs>,
    bs: Seq<((char, char), u64)>,
    pct: int,
) -> Seq<((char, char), u64, u8)>
    decreases bs.len(),
{
    if bs.len() == 0 || pct < 0 {
        Seq::empty()
    } else {
        let head: Seq<((char, char), u64, u8)> = match (
            spec_key_of(l, bs[0].0.0),
            spec_key_of(l, bs[0].0.1),
        ) {
            (Some(k0), Some(k1)) => {
                if spec_key_hand(p, k1) != Hand::Any {
                    seq![(bs[0].0, bs[0].1, spec_bigram_type(p, k0, k1))]
                } else {
                    Seq::empty()
                }
            },
            _ => Seq::empty(),
        };
        head + spec_big_list(p, l, bs.drop_first(), pct - bs[0].1)
    }
}

/// What one trigram entry adds to the bin of category `t`, hand `h`.
pub open spec fn spec_tri_contrib(
    p: KuehlmakParams,
    l: Seq<KeyGlyphs>,
    e: ((char, char, char), u64),
    t: int,
    h: int,
) -> int {
    match (spec_key_of(l, e.0.0), spec_key_of(l, e.0.1), spec_key_of(l, e.0.2)) {
        (Some(k0), Some(k1), Some(k2)) => {
            if spec_key_hand(p, k2) != Hand::Any && spec_trigram_type(p, k0, k1, k2) as int == t
                && spec_hand_index(spec_key_hand(p, k2)) == h {
                e.1 as int
            } else {
                0
            }
        },
        _ => 0,
    }
}

/// The raw trigram bin of category `t`, hand `h`, over the processed
/// prefix.
pub open spec fn spec_tri_bins(
    p: KuehlmakParams,
    l: Seq<KeyGlyphs>,
    ts: Seq<((char, char, char), u64)>,
    pct: int,
    t: int,
    h: int,
) -> int
    decreases ts.len(),
{
    if ts.len() == 0 || pct < 0 {
        0
    } else {
        spec_tri_contrib(p, l, ts[0], t, h) + spec_tri_bins(
            p,
            l,
            ts.drop_first(),
            pct - ts[0].1,
            t,
            h,
        )
    }
}

/// The outer key pairs of processed disjointed same-finger trigrams,
/// with their counts: these need the finger-travel correction.
pub open spec fn spec_travel_triples(
    p: KuehlmakParams,
    l: Seq<KeyGlyphs>,
    ts: Seq<((char, char, char), u64)>,
    pct: int,
) -> Seq<(u8, u8, u64)>
    decreases ts.len(),
{
    if ts.len() == 0 || pct < 0 {
        Seq::empty()
    } else {
        let head: Seq<(u8, u8, u64)> = match (
            spec_key_of(l, ts[0].0.0),
            spec_key_of(l, ts[0].0.1),
            spec_key_of(l, ts[0].0.2),
        ) {
            (Some(k0), Some(k1), Some(k2)) => {
                if spec_key_hand(p, k2) != Hand::Any && TRIGRAM_D_SAMEKEY <= spec_trigram_type(
                    p,
                    k0,
                    k1,
                    k2,
                ) && spec_trigram_type(p, k0, k1, k2) <= TRIGRAM_SHD_SFB {
                    seq![(k0 as u8, k2 as u8, ts[0].1)]
                } else {
                    Seq::empty()
                }
            },
            _ => Seq::empty(),
        };
        head + spec_travel_triples(p, l, ts.drop_first(), pct - ts[0].1)
    }
}

/// The processed trigrams that were counted, each with its category.
pub open spec fn spec_tri_list(
    p: KuehlmakParams,
    l: Seq<KeyGlyphs>,
    ts: Seq<((char, char, char), u64)>,
    pct: int,
) -> Seq<((char, char, char), u64, u8)>
    decreases ts.len(),
{
    if ts.len() == 0 || pct < 0 {
        Seq::empty()
    } else {
        let head: Seq<((char, char, char), u64, u8)> = match (
            spec_key_of(l, ts[0].0.0),
            spec_key_of(l, ts[0].0.1),
            spec_key_of(l, ts[0].0.2),
        ) {
            (Some(k0), Some(k1), Some(k2)) => {
                if spec_key_hand(p, k2) != Hand::Any {
                    seq![(ts[0].0, ts[0].1, spec_trigram_type(p, k0, k1, k2))]
                } else {
                    Seq::empty()
                }
            },
            _ => Seq::empty(),
        };
        head + spec_tri_list(p, l, ts.drop_first(), pct - ts[0].1)
    }
}

/// A raw bin rescaled from the processed prefix up to the full total.
pub open spec fn spec_scaled(raw: int, total: u64, counted: int) -> int {
    raw * total / counted
}

/// A bigram bin, rescaled.
pub open spec fn spec_big_scaled(
    p: KuehlmakParams,
    l: Seq<KeyGlyphs>,
    bs: Seq<((char, char), u64)>,
    pct: int,
    total: u64,
    t: int,
    h: int,
) -> int {
    spec_scaled(spec_big_bins(p, l, bs, pct, t, h), total, spec_big_counted(bs, pct))
}

/// A trigram bin, rescaled.
pub open spec fn spec_tri_scaled(
    p: KuehlmakParams,
    l: Seq<KeyGlyphs>,
    ts: Seq<((char, char, char), u64)>,
    pct: int,
    total: u64,
    t: int,
    h: int,
) -> int {
    spec_scaled(spec_tri_bins(p, l, ts, pct, t, h), total, spec_big_counted(ts, pct))
}

/// Build the 31-entry heatmap and the stroke total from the symbol
/// counts.
fn pass_unigrams(l: &Layout, ug: &Vec<(char, u64)>) -> (r: (Vec<u64>, u64))
    requires
        l.wf(),
        spec_sum_prefix(ug@, ug@.len() as int) < MAX_NGRAM_TOTAL,
    ensures
        r.0@.len() == 31,
        forall|k: int|
            0 <= k < 31 ==> #[trigger] r.0@[k] == spec_heat(l@, ug@, ug@.len() as int, k),
        r.1 == spec_strokes(l@, ug@, ug@.len() as int),
{
    let mut heatmap: Vec<u64> = Vec::new();
    for k in 0..31usize
        invariant
            heatmap@.len() == k,
            forall|m: int| 0 <= m < k ==> #[trigger] heatmap@[m] == 0,
    {
        heatmap.push(0);
    }
    let mut strokes: u64 = 0;
    let mut n: usize = 0;
    while n < ug.len()
        invariant
            l.wf(),
            spec_sum_prefix(ug@, ug@.len() as int) < MAX_NGRAM_TOTAL,
            n <= ug@.len(),
            heatmap@.len() == 31,
            forall|k: int| 0 <= k < 31 ==> #[trigger] heatmap@[k] == spec_heat(l@, ug@, n as int, k),
            strokes == spec_strokes(l@, ug@, n as int),
        decreases ug@.len() - n,
    {
        let (c, cnt) = ug[n];
        proof {
            lemma_strokes_le_sum(l@, ug@, n as int);
            lemma_sum_prefix_mono(ug@, n as int + 1, ug@.len() as int);
        }
        match map_char(l, c) {
            Some(k) => {
                proof {
                    lemma_heat_le_strokes(l@, ug@, n as int, k as int);
                }
                let h0 = heatmap[k as usize];
                heatmap.set(k as usize, h0 + cnt);
                strokes = strokes + cnt;
            },
            None => {},
        }
        n += 1;
        proof {
            assert forall|k: int| 0 <= k < 31 implies #[trigger] heatmap@[k] == spec_heat(
                l@,
                ug@,
                n as int,
                k,
            ) by {
                assert(spec_heat(l@, ug@, n as int, k) == spec_heat(l@, ug@, n as int - 1, k) + (
                if spec_key_of(l@, ug@[n - 1].0) == Some(k) {
                    ug@[n - 1].1 as int
                } else {
                    0
                }));
            }
        }
    }
    (heatmap, strokes)
}

/// Fold the heatmap into per-finger cost and per-hand stroke totals.
fn pass_key_aggregates(p: &KuehlmakParams, props: &Vec<KeyProps>, heatmap: &Vec<u64>) -> (r: (
    Vec<u128>,
    Vec<u64>,
))
    requires
        props@.len() == 31,
        forall|m: int| 0 <= m < 31 ==> #[trigger] props@[m] == spec_key_props(*p, m),
        heatmap@.len() == 31,
        forall|k: int| 0 <= k < 31 ==> #[trigger] heatmap@[k] < MAX_NGRAM_TOTAL,
    ensures
        r.0@.len() == 9,
        forall|f: int|
            0 <= f < 9 ==> #[trigger] r.0@[f] == spec_finger_cost_from(*p, heatmap@, f, 31),
        r.1@.len() == 3,
        forall|h: int|
            0 <= h < 3 ==> #[trigger] r.1@[h] == spec_hand_strokes_from(*p, heatmap@, h, 31),
{
    let mut fc: Vec<u128> = Vec::new();
    let mut ht: Vec<u64> = Vec::new();
    for f in 0..9usize
        invariant
            fc@.len() == f,
            forall|m: int| 0 <= m < f ==> #[trigger] fc@[m] == 0,
    {
        fc.push(0);
    }
    for h in 0..3usize
        invariant
            ht@.len() == h,
            forall|m: int| 0 <= m < h ==> #[trigger] ht@[m] == 0,
    {
        ht.push(0);
    }
    let mut k: usize = 0;
    while k < 31
        invariant
            props@.len() == 31,
            forall|m: int| 0 <= m < 31 ==> #[trigger] props@[m] == spec_key_props(*p, m),
            heatmap@.len() == 31,
            forall|m: int| 0 <= m < 31 ==> #[trigger] heatmap@[m] < MAX_NGRAM_TOTAL,
            k <= 31,
            fc@.len() == 9,
            ht@.len() == 3,
            forall|f: int| 0 <= f < 9 ==> #[trigger] fc@[f] == spec_finger_cost_from(*p, heatmap@, f, k as int),
            forall|f: int| 0 <= f < 9 ==> #[trigger] fc@[f] <= (k as int)
                * 0x8000_0000_0000_0000_0000,
            forall|h: int| 0 <= h < 3 ==> #[trigger] ht@[h] == spec_hand_strokes_from(*p, heatmap@, h, k as int),
            forall|h: int| 0 <= h < 3 ==> #[trigger] ht@[h] <= (k as int) * (
            MAX_NGRAM_TOTAL as int),
        decreases 31 - k,
    {
        let pr = props[k];
        let f = pr.finger as usize;
        proof {
            assert(spec_key_finger(*p, k as int) <= 8);
        }
        let cost = pr.cost;
        let heat = heatmap[k];
        proof {
            assert((heat as int) * (cost as int) < 0x8000_0000_0000_0000_0000) by (nonlinear_arith)
                requires
                    heat < 0x0800_0000_0000_0000,
                    cost < 0x1_0000,
            ;
        }
        let add: u128 = (heat as u128) * (cost as u128);
        let prev = fc[f];
        fc.set(f, prev + add);
        let h = hand_index(pr.hand);
        let prevh = ht[h];
        ht.set(h, prevh + heat);
        k += 1;
        proof {
            assert forall|ff: int| 0 <= ff < 9 implies #[trigger] fc@[ff]
                == spec_finger_cost_from(*p, heatmap@, ff, k as int) by {
                assert(spec_finger_cost_from(*p, heatmap@, ff, k as int)
                    == spec_finger_cost_from(*p, heatmap@, ff, k as int - 1) + (if spec_key_finger(
                    *p,
                    k as int - 1,
                ) as int == ff {
                    heatmap@[k - 1] * spec_key_props(*p, k as int - 1).cost
                } else {
                    0
                }));
            }
            assert forall|hh: int| 0 <= hh < 3 implies #[trigger] ht@[hh]
                == spec_hand_strokes_from(*p, heatmap@, hh, k as int) by {
                assert(spec_hand_strokes_from(*p, heatmap@, hh, k as int)
                    == spec_hand_strokes_from(*p, heatmap@, hh, k as int - 1) + (if spec_hand_index(
                    spec_key_hand(*p, k as int - 1),
                ) == hh {
                    heatmap@[k - 1] as int
                } else {
                    0
                }));
            }
        }
    }
    (fc, ht)
}

/// Rescale one raw bin from the processed prefix up to the full total.
fn scale_count(raw: u64, total: u64, counted: u64) -> (r: u64)
    requires
        counted > 0,
        raw <= counted,
    ensures
        r == spec_scaled(raw as int, total, counted as int),
        r <= total,
{
    proof {
        vstd::arithmetic::mul::lemma_mul_inequality(raw as int, counted as int, total as int);
        vstd::arithmetic::div_mod::lemma_div_is_ordered(
            (raw as int) * (total as int),
            (counted as int) * (total as int),
            counted as int,
        );
        vstd::arithmetic::div_mod::lemma_div_multiples_vanish(total as int, counted as int);
        vstd::arithmetic::div_mod::lemma_div_pos_is_pos((raw as int) * (total as int), counted as int);
        vstd::arithmetic::mul::lemma_mul_nonnegative(raw as int, total as int);
        assert((raw as int) * (total as int) <= 0xFFFF_FFFF_FFFF_FFFF * 0xFFFF_FFFF_FFFF_FFFF)
            by (nonlinear_arith)
            requires
                raw <= 0xFFFF_FFFF_FFFF_FFFF,
                total <= 0xFFFF_FFFF_FFFF_FFFF,
        ;
    }
    (((raw as u128) * (total as u128)) / (counted as u128)) as u64
}

/// One of two accumulators of a bin pair, picked by hand index.
pub open spec fn bin_at(bins: Seq<(u64, u64)>, t: int, h: int) -> int {
    if h == 0 {
        bins[t].0 as int
    } else {
        bins[t].1 as int
    }
}

/// What the bigram walk accumulates: raw bins, the processed total,
/// raw same-hand counts, the travel-correction pairs and the kept list.
struct BigramPass {
    bins: Vec<(u64, u64)>,
    counted: u64,
    same_hand: (u64, u64),
    travel: Vec<(u8, u8, u64)>,
    list: Vec<((char, char), u64, u8)>,
}

/// Walk the bigrams in descending-count order until the cumulative
/// count passes the threshold, classifying and accumulating each.
#[verifier::rlimit(30)]
fn pass_bigrams(
    m: &KuehlmakModel,
    l: &Layout,
    bs: &Vec<((char, char), u64)>,
    pct: u64,
    extra: bool,
) -> (r: BigramPass)
    requires
        m.wf(),
        l.wf(),
        spec_sum_prefix(bs@, bs@.len() as int) < MAX_NGRAM_TOTAL,
        forall|ii: int| 0 <= ii < bs@.len() ==> (#[trigger] bs@[ii]).1 >= 1,
    ensures
        r.bins@.len() == 9,
        forall|t: int, h: int|
            0 <= t < 9 && 0 <= h < 2 ==> bin_at(r.bins@, t, h) == spec_big_bins(
                m.params,
                l@,
                bs@,
                pct as int,
                t,
                h,
            ),
        forall|t: int, h: int| 0 <= t < 9 && 0 <= h < 2 ==> bin_at(r.bins@, t, h) <= r.counted,
        r.counted == spec_big_counted(bs@, pct as int),
        bs@.len() > 0 ==> r.counted >= 1,
        r.same_hand.0 == spec_same_hand(m.params, l@, bs@, pct as int, 0),
        r.same_hand.1 == spec_same_hand(m.params, l@, bs@, pct as int, 1),
        r.travel@ == spec_travel_pairs(m.params, l@, bs@, pct as int),
        extra ==> r.list@ == spec_big_list(m.params, l@, bs@, pct as int),
        !extra ==> r.list@.len() == 0,
{
    let mut bins: Vec<(u64, u64)> = Vec::new();
    for t in 0..9usize
        invariant
            bins@.len() == t,
            forall|tt: int| 0 <= tt < t ==> #[trigger] bins@[tt] == (0u64, 0u64),
    {
        bins.push((0, 0));
    }
    let mut counted: u64 = 0;
    let mut sh0: u64 = 0;
    let mut sh1: u64 = 0;
    let mut travel: Vec<(u8, u8, u64)> = Vec::new();
    let mut list: Vec<((char, char), u64, u8)> = Vec::new();
    let mut i: usize = 0;
    proof {
        assert(bs@.skip(0) =~= bs@);
        assert(travel@ + spec_travel_pairs(m.params, l@, bs@, pct as int) =~= spec_travel_pairs(
            m.params,
            l@,
            bs@,
            pct as int,
        ));
        assert(list@ + spec_big_list(m.params, l@, bs@, pct as int) =~= spec_big_list(
            m.params,
            l@,
            bs@,
            pct as int,
        ));
    }
    while i < bs.len() && counted <= pct
        invariant
            m.wf(),
            l.wf(),
            spec_sum_prefix(bs@, bs@.len() as int) < MAX_NGRAM_TOTAL,
            forall|ii: int| 0 <= ii < bs@.len() ==> (#[trigger] bs@[ii]).1 >= 1,
            i <= bs@.len(),
            counted == spec_sum_prefix(bs@, i as int),
            forall|mm: int| 0 <= mm < i ==> spec_sum_prefix(bs@, mm) <= pct,
            i > 0 ==> counted >= 1,
            i == 0 ==> counted == 0,
            bins@.len() == 9,
            forall|t: int, h: int|
                0 <= t < 9 && 0 <= h < 2 ==> bin_at(bins@, t, h) + spec_big_bins(
                    m.params,
                    l@,
                    bs@.skip(i as int),
                    pct - counted,
                    t,
                    h,
                ) == spec_big_bins(m.params, l@, bs@, pct as int, t, h),
            forall|t: int, h: int| 0 <= t < 9 && 0 <= h < 2 ==> bin_at(bins@, t, h) <= counted,
            sh0 + spec_same_hand(m.params, l@, bs@.skip(i as int), pct - counted, 0)
                == spec_same_hand(m.params, l@, bs@, pct as int, 0),
            sh1 + spec_same_hand(m.params, l@, bs@.skip(i as int), pct - counted, 1)
                == spec_same_hand(m.params, l@, bs@, pct as int, 1),
            sh0 <= counted,
            sh1 <= counted,
            travel@ + spec_travel_pairs(m.params, l@, bs@.skip(i as int), pct - counted)
                == spec_travel_pairs(m.params, l@, bs@, pct as int),
            extra ==> list@ + spec_big_list(m.params, l@, bs@.skip(i as int), pct - counted)
                == spec_big_list(m.params, l@, bs@, pct as int),
            !extra ==> list@.len() == 0,
        decreases bs@.len() - i,
    {
        let ((c0, c1), cnt) = bs[i];
        let ghost rem: int = pct - counted;
        let ghost tail = bs@.skip(i as int);
        let ghost old_bins = bins@;
        let ghost old_counted = counted;
        let ghost old_sh0 = sh0;
        let ghost old_sh1 = sh1;
        let ghost old_travel = travel@;
        let ghost old_list = list@;
        proof {
            assert(tail[0] == bs@[i as int]);
            assert(tail.drop_first() =~= bs@.skip(i as int + 1));
            lemma_sum_prefix_mono(bs@, i as int + 1, bs@.len() as int);
        }
        let k0o = map_char(l, c0);
        let k1o = map_char(l, c1);
        match (k0o, k1o) {
            (Some(k0), Some(k1)) => {
                let pr1 = m.key_props[k1 as usize];
                if pr1.hand != Hand::Any {
                    let t = m.bigram_type(k0 as usize, k1 as usize);
                    proof {
                        assert(spec_bigram_type(m.params, k0 as int, k1 as int) <= 8);
                    }
                    let h = hand_index(pr1.hand);
                    let e = bins[t as usize];
                    proof {
                        assert(e.0 == bin_at(bins@, t as int, 0) && e.1 == bin_at(
                            bins@,
                            t as int,
                            1,
                        ));
                        assert(bin_at(bins@, t as int, 0) <= counted && bin_at(
                            bins@,
                            t as int,
                            1,
                        ) <= counted);
                    }
                    if h == 0 {
                        bins.set(t as usize, (e.0 + cnt, e.1));
                    } else {
                        bins.set(t as usize, (e.0, e.1 + cnt));
                    }
                    if t != BIGRAM_ALTERNATE {
                        if h == 0 {
                            sh0 = sh0 + cnt;
                        } else {
                            sh1 = sh1 + cnt;
                        }
                    }
                    if t == BIGRAM_SFB || t == BIGRAM_SAMEKEY {
                        travel.push((k0, k1, cnt));
                    }
                    if extra {
                        list.push(((c0, c1), cnt, t));
                    }
                }
            },
            _ => {},
        }
        counted = counted + cnt;
        i += 1;
        proof {
            assert forall|t: int, h: int| 0 <= t < 9 && 0 <= h < 2 implies bin_at(bins@, t, h)
                + spec_big_bins(m.params, l@, bs@.skip(i as int), pct - counted, t, h)
                == spec_big_bins(m.params, l@, bs@, pct as int, t, h) by {
                assert(spec_big_bins(m.params, l@, tail, rem, t, h) == spec_big_contrib(
                    m.params,
                    l@,
                    bs@[i as int - 1],
                    t,
                    h,
                ) + spec_big_bins(m.params, l@, bs@.skip(i as int), rem - cnt, t, h));
                assert(bin_at(bins@, t, h) == bin_at(old_bins, t, h) + spec_big_contrib(
                    m.params,
                    l@,
                    bs@[i as int - 1],
                    t,
                    h,
                ));
            }
            assert forall|t: int, h: int| 0 <= t < 9 && 0 <= h < 2 implies bin_at(bins@, t, h)
                <= counted by {
                assert(bin_at(old_bins, t, h) <= old_counted);
                assert(bin_at(bins@, t, h) == bin_at(old_bins, t, h) + spec_big_contrib(
                    m.params,
                    l@,
                    bs@[i as int - 1],
                    t,
                    h,
                ));
                assert(spec_big_contrib(m.params, l@, bs@[i as int - 1], t, h) <= cnt);
            }
            assert(spec_same_hand(m.params, l@, tail, rem, 0) == spec_same_hand(
                m.params,
                l@,
                bs@.skip(i as int),
                rem - cnt,
                0,
            ) + (spec_same_hand(m.params, l@, tail, rem, 0) - spec_same_hand(
                m.params,
                l@,
                bs@.skip(i as int),
                rem - cnt,
                0,
            )));
            assert(sh0 + spec_same_hand(m.params, l@, bs@.skip(i as int), pct - counted, 0)
                == spec_same_hand(m.params, l@, bs@, pct as int, 0));
            assert(sh1 + spec_same_hand(m.params, l@, bs@.skip(i as int), pct - counted, 1)
                == spec_same_hand(m.params, l@, bs@, pct as int, 1));
            assert(travel@ + spec_travel_pairs(m.params, l@, bs@.skip(i as int), pct - counted)
                =~= spec_travel_pairs(m.params, l@, bs@, pct as int));
            if extra {
                assert(list@ + spec_big_list(m.params, l@, bs@.skip(i as int), pct - counted)
                    =~= spec_big_list(m.params, l@, bs@, pct as int));
            }
        }
    }
    proof {
        if i == bs@.len() {
            assert(bs@.skip(i as int) =~= Seq::<((char, char), u64)>::empty());
        }
        assert(spec_big_counted(bs@.skip(i as int), pct - counted) == 0);
        assert forall|t: int, h: int| 0 <= t < 9 && 0 <= h < 2 implies #[trigger] spec_big_bins(
            m.params,
            l@,
            bs@.skip(i as int),
            pct - counted,
            t,
            h,
        ) == 0 by {}
        assert(spec_same_hand(m.params, l@, bs@.skip(i as int), pct - counted, 0) == 0);
        assert(spec_same_hand(m.params, l@, bs@.skip(i as int), pct - counted, 1) == 0);
        assert(spec_travel_pairs(m.params, l@, bs@.skip(i as int), pct - counted) =~= Seq::<
            (u8, u8, u64),
        >::empty());
        assert(spec_big_list(m.params, l@, bs@.skip(i as int), pct - counted) =~= Seq::<
            ((char, char), u64, u8),
        >::empty());
        assert(travel@ + Seq::<(u8, u8, u64)>::empty() =~= travel@);
        assert(list@ + Seq::<((char, char), u64, u8)>::empty() =~= list@);
        lemma_big_counted_prefix(bs@, pct as int, i as int, counted as int);
    }
    BigramPass { bins, counted, same_hand: (sh0, sh1), travel, list }
}

/// When the walk stops at `i` with cumulative count `counted`, the
/// processed total equals the specified one.
proof fn lemma_big_counted_prefix<T>(bs: Seq<(T, u64)>, pct: int, i: int, counted: int)
    requires
        0 <= i <= bs.len(),
        counted == spec_sum_prefix(bs, i),
        i == bs.len() || counted > pct,
        forall|m: int| 0 <= m < i ==> spec_sum_prefix(bs, m) <= pct,
    ensures
        spec_big_counted(bs, pct) == counted,
    decreases i, bs.len(),
{
    if bs.len() == 0 {
    } else if i == 0 {
        assert(counted == 0);
        assert(pct < 0);
    } else {
        assert(spec_sum_prefix(bs, 0) <= pct);
        assert(spec_sum_prefix(bs, 0) == 0);
        let rest = bs.drop_first();
        let c0 = bs[0].1;
        assert forall|m: int| 0 <= m < i - 1 implies spec_sum_prefix(rest, m) <= pct - c0 by {
            lemma_sum_prefix_shift(bs, m + 1);
        }
        lemma_sum_prefix_shift(bs, i);
        lemma_big_counted_prefix(rest, pct - c0, i - 1, counted - c0);
    }
}

/// What the trigram walk accumulates.
struct TrigramPass {
    bins: Vec<(u64, u64)>,
    counted: u64,
    travel: Vec<(u8, u8, u64)>,
    list: Vec<((char, char, char), u64, u8)>,
}

/// Walk the trigrams in descending-count order until the cumulative
/// count passes the threshold, classifying and accumulating each.
#[verifier::rlimit(30)]
fn pass_trigrams(
    m: &KuehlmakModel,
    l: &Layout,
    ts: &Vec<((char, char, char), u64)>,
    pct: u64,
    extra: bool,
) -> (r: TrigramPass)
    requires
        m.wf(),
        l.wf(),
        spec_sum_prefix(ts@, ts@.len() as int) < MAX_NGRAM_TOTAL,
        forall|ii: int| 0 <= ii < ts@.len() ==> (#[trigger] ts@[ii]).1 >= 1,
    ensures
        r.bins@.len() == 14,
        forall|t: int, h: int|
            0 <= t < 14 && 0 <= h < 2 ==> bin_at(r.bins@, t, h) == spec_tri_bins(
                m.params,
                l@,
                ts@,
                pct as int,
                t,
                h,
            ),
        forall|t: int, h: int| 0 <= t < 14 && 0 <= h < 2 ==> bin_at(r.bins@, t, h) <= r.counted,
        r.counted == spec_big_counted(ts@, pct as int),
        ts@.len() > 0 ==> r.counted >= 1,
        r.travel@ == spec_travel_triples(m.params, l@, ts@, pct as int),
        extra ==> r.list@ == spec_tri_list(m.params, l@, ts@, pct as int),
        !extra ==> r.list@.len() == 0,
{
    let mut bins: Vec<(u64, u64)> = Vec::new();
    for t in 0..14usize
        invariant
            bins@.len() == t,
            forall|tt: int| 0 <= tt < t ==> #[trigger] bins@[tt] == (0u64, 0u64),
    {
        bins.push((0, 0));
    }
    let mut counted: u64 = 0;
    let mut travel: Vec<(u8, u8, u64)> = Vec::new();
    let mut list: Vec<((char, char, char), u64, u8)> = Vec::new();
    let mut i: usize = 0;
    proof {
        assert(ts@.skip(0) =~= ts@);
        assert(travel@ + spec_travel_triples(m.params, l@, ts@, pct as int)
            =~= spec_travel_triples(m.params, l@, ts@, pct as int));
        assert(list@ + spec_tri_list(m.params, l@, ts@, pct as int) =~= spec_tri_list(
            m.params,
            l@,
            ts@,
            pct as int,
        ));
    }
    while i < ts.len() && counted <= pct
        invariant
            m.wf(),
            l.wf(),
            spec_sum_prefix(ts@, ts@.len() as int) < MAX_NGRAM_TOTAL,
            forall|ii: int| 0 <= ii < ts@.len() ==> (#[trigger] ts@[ii]).1 >= 1,
            i <= ts@.len(),
            counted == spec_sum_prefix(ts@, i as int),
            forall|mm: int| 0 <= mm < i ==> spec_sum_prefix(ts@, mm) <= pct,
            i > 0 ==> counted >= 1,
            i == 0 ==> counted == 0,
            bins@.len() == 14,
            forall|t: int, h: int|
                0 <= t < 14 && 0 <= h < 2 ==> bin_at(bins@, t, h) + spec_tri_bins(
                    m.params,
                    l@,
                    ts@.skip(i as int),
                    pct - counted,
                    t,
                    h,
                ) == spec_tri_bins(m.params, l@, ts@, pct as int, t, h),
            forall|t: int, h: int| 0 <= t < 14 && 0 <= h < 2 ==> bin_at(bins@, t, h) <= counted,
            travel@ + spec_travel_triples(m.params, l@, ts@.skip(i as int), pct - counted)
                == spec_travel_triples(m.params, l@, ts@, pct as int),
            extra ==> list@ + spec_tri_list(m.params, l@, ts@.skip(i as int), pct - counted)
                == spec_tri_list(m.params, l@, ts@, pct as int),
            !extra ==> list@.len() == 0,
        decreases ts@.len() - i,
    {
        let ((c0, c1, c2), cnt) = ts[i];
        let ghost rem: int = pct - counted;
        let ghost tail = ts@.skip(i as int);
        let ghost old_bins = bins@;
        let ghost old_counted = counted;
        proof {
            assert(tail[0] == ts@[i as int]);
            assert(tail.drop_first() =~= ts@.skip(i as int + 1));
            lemma_sum_prefix_mono(ts@, i as int + 1, ts@.len() as int);
        }
        let k0o = map_char(l, c0);
        let k1o = map_char(l, c1);
        let k2o = map_char(l, c2);
        match (k0o, k1o, k2o) {
            (Some(k0), Some(k1), Some(k2)) => {
                let pr2 = m.key_props[k2 as usize];
                if pr2.hand != Hand::Any {
                    let t = m.trigram_type(k0 as usize, k1 as usize, k2 as usize);
                    proof {
                        assert(spec_trigram_type(m.params, k0 as int, k1 as int, k2 as int) <= 13);
                    }
                    let h = hand_index(pr2.hand);
                    let e = bins[t as usize];
                    proof {
                        assert(e.0 == bin_at(bins@, t as int, 0) && e.1 == bin_at(
                            bins@,
                            t as int,
                            1,
                        ));
                        assert(bin_at(bins@, t as int, 0) <= counted && bin_at(
                            bins@,
                            t as int,
                            1,
                        ) <= counted);
                    }
                    if h == 0 {
                        bins.set(t as usize, (e.0 + cnt, e.1));
                    } else {
                        bins.set(t as usize, (e.0, e.1 + cnt));
                    }
                    if TRIGRAM_D_SAMEKEY <= t && t <= TRIGRAM_SHD_SFB {
                        travel.push((k0, k2, cnt));
                    }
                    if extra {
                        list.push(((c0, c1, c2), cnt, t));
                    }
                }
            },
            _ => {},
        }
        counted = counted + cnt;
        i += 1;
        proof {
            assert forall|t: int, h: int| 0 <= t < 14 && 0 <= h < 2 implies bin_at(bins@, t, h)
                + spec_tri_bins(m.params, l@, ts@.skip(i as int), pct - counted, t, h)
                == spec_tri_bins(m.params, l@, ts@, pct as int, t, h) by {
                assert(spec_tri_bins(m.params, l@, tail, rem, t, h) == spec_tri_contrib(
                    m.params,
                    l@,
                    ts@[i as int - 1],
                    t,
                    h,
                ) + spec_tri_bins(m.params, l@, ts@.skip(i as int), rem - cnt, t, h));
                assert(bin_at(bins@, t, h) == bin_at(old_bins, t, h) + spec_tri_contrib(
                    m.params,
                    l@,
                    ts@[i as int - 1],
                    t,
                    h,
                ));
            }
            assert forall|t: int, h: int| 0 <= t < 14 && 0 <= h < 2 implies bin_at(bins@, t, h)
                <= counted by {
                assert(bin_at(old_bins, t, h) <= old_counted);
                assert(bin_at(bins@, t, h) == bin_at(old_bins, t, h) + spec_tri_contrib(
                    m.params,
                    l@,
                    ts@[i as int - 1],
                    t,
                    h,
                ));
                assert(spec_tri_contrib(m.params, l@, ts@[i as int - 1], t, h) <= cnt);
            }
            assert(travel@ + spec_travel_triples(m.params, l@, ts@.skip(i as int), pct - counted)
                =~= spec_travel_triples(m.params, l@, ts@, pct as int));
            if extra {
                assert(list@ + spec_tri_list(m.params, l@, ts@.skip(i as int), pct - counted)
                    =~= spec_tri_list(m.params, l@, ts@, pct as int));
            }
        }
    }
    proof {
        if i == ts@.len() {
            assert(ts@.skip(i as int) =~= Seq::<((char, char, char), u64)>::empty());
        }
        assert(spec_big_counted(ts@.skip(i as int), pct - counted) == 0);
        assert forall|t: int, h: int| 0 <= t < 14 && 0 <= h < 2 implies #[trigger] spec_tri_bins(
            m.params,
            l@,
            ts@.skip(i as int),
            pct - counted,
            t,
            h,
        ) == 0 by {}
        assert(spec_travel_triples(m.params, l@, ts@.skip(i as int), pct - counted) =~= Seq::<
            (u8, u8, u64),
        >::empty());
        assert(spec_tri_list(m.params, l@, ts@.skip(i as int), pct - counted) =~= Seq::<
            ((char, char, char), u64, u8),
        >::empty());
        assert(travel@ + Seq::<(u8, u8, u64)>::empty() =~= travel@);
        assert(list@ + Seq::<((char, char, char), u64, u8)>::empty() =~= list@);
        lemma_big_counted_prefix(ts@, pct as int, i as int, counted as int);
    }
    TrigramPass { bins, counted, travel, list }
}

/// The integer result of one evaluation: exact stroke, category and
/// aggregate counts.  The fractional aggregates are held as numerators
/// over six; same-hand counts are raw, everything else rescaled to the
/// full corpus totals.
pub struct KuehlmakScores {
    pub layout: Layout,
    pub symmetrical: bool,
    pub strokes: u64,
    pub heatmap: Vec<u64>,
    pub finger_cost: Vec<u128>,
    pub hand_total: Vec<u64>,
    pub bigram_counts: Vec<(u64, u64)>,
    pub bigram_counted: u64,
    pub same_hand: (u64, u64),
    pub travel_pairs: Vec<(u8, u8, u64)>,
    pub bigram_list: Vec<((char, char), u64, u8)>,
    pub trigram_counts: Vec<(u64, u64)>,
    pub trigram_counted: u64,
    pub travel_triples: Vec<(u8, u8, u64)>,
    pub trigram_list: Vec<((char, char, char), u64, u8)>,
    pub urolls6: (u64, u64),
    pub wlsbs6: (u64, u64),
    pub d_urolls6: (u64, u64),
    pub d_wlsbs6: (u64, u64),
    pub redirects: (u64, u64),
    pub contorts: (u64, u64),
}

/// Everything `eval_layout` promises of its result: each field equals
/// its defining specification, so the whole record is a function of the
/// model parameters, the layout and the corpus statistics.
pub open spec fn eval_post(
    p: KuehlmakParams,
    sym: bool,
    lay: Seq<KeyGlyphs>,
    ts: TextStats,
    precision: u64,
    extra: bool,
    s: KuehlmakScores,
) -> bool {
    let pctb = spec_percentile(ts.total_bigrams, precision);
    let pctt = spec_percentile(ts.total_trigrams, precision);
    let ug = ts.unigrams@;
    let bg = ts.bigrams@;
    let tg = ts.trigrams@;
    &&& s.layout@ == lay
    &&& s.symmetrical == sym
    &&& s.strokes == spec_strokes(lay, ug, ug.len() as int)
    &&& s.heatmap@.len() == 31
    &&& forall|k: int| 0 <= k < 31 ==> #[trigger] s.heatmap@[k] == spec_heat(lay, ug, ug.len() as int, k)
    &&& s.finger_cost@.len() == 9
    &&& forall|f: int|
        0 <= f < 9 ==> #[trigger] s.finger_cost@[f] == spec_finger_cost_from(p, s.heatmap@, f, 31)
    &&& s.hand_total@.len() == 3
    &&& forall|h: int|
        0 <= h < 3 ==> #[trigger] s.hand_total@[h] == spec_hand_strokes_from(p, s.heatmap@, h, 31)
    &&& s.bigram_counted == spec_big_counted(bg, pctb)
    &&& s.bigram_counts@.len() == 9
    &&& forall|t: int|
        0 <= t < 9 ==> #[trigger] s.bigram_counts@[t] == (
        spec_big_scaled(p, lay, bg, pctb, ts.total_bigrams, t, 0) as u64,
        spec_big_scaled(p, lay, bg, pctb, ts.total_bigrams, t, 1) as u64,
        )
    &&& s.same_hand.0 == spec_same_hand(p, lay, bg, pctb, 0)
    &&& s.same_hand.1 == spec_same_hand(p, lay, bg, pctb, 1)
    &&& s.travel_pairs@ == spec_travel_pairs(p, lay, bg, pctb)
    &&& extra ==> s.bigram_list@ == spec_big_list(p, lay, bg, pctb)
    &&& !extra ==> s.bigram_list@.len() == 0
    &&& s.trigram_counted == spec_big_counted(tg, pctt)
    &&& s.trigram_counts@.len() == 14
    &&& forall|t: int|
        0 <= t < 14 ==> #[trigger] s.trigram_counts@[t] == (
        spec_tri_scaled(p, lay, tg, pctt, ts.total_trigrams, t, 0) as u64,
        spec_tri_scaled(p, lay, tg, pctt, ts.total_trigrams, t, 1) as u64,
        )
    &&& s.travel_triples@ == spec_travel_triples(p, lay, tg, pctt)
    &&& extra ==> s.trigram_list@ == spec_tri_list(p, lay, tg, pctt)
    &&& !extra ==> s.trigram_list@.len() == 0
    &&& s.urolls6.0 == 6 * spec_big_scaled(p, lay, bg, pctb, ts.total_bigrams, BIGRAM_UROLL as int, 0)
        + 3 * spec_big_scaled(p, lay, bg, pctb, ts.total_bigrams, BIGRAM_LSB2 as int, 0) + 4
        * spec_big_scaled(p, lay, bg, pctb, ts.total_bigrams, BIGRAM_LSB3 as int, 0)
    &&& s.urolls6.1 == 6 * spec_big_scaled(p, lay, bg, pctb, ts.total_bigrams, BIGRAM_UROLL as int, 1)
        + 3 * spec_big_scaled(p, lay, bg, pctb, ts.total_bigrams, BIGRAM_LSB2 as int, 1) + 4
        * spec_big_scaled(p, lay, bg, pctb, ts.total_bigrams, BIGRAM_LSB3 as int, 1)
    &&& s.wlsbs6.0 == 6 * spec_big_scaled(p, lay, bg, pctb, ts.total_bigrams, BIGRAM_LSB1 as int, 0)
        + 3 * spec_big_scaled(p, lay, bg, pctb, ts.total_bigrams, BIGRAM_LSB2 as int, 0) + 2
        * spec_big_scaled(p, lay, bg, pctb, ts.total_bigrams, BIGRAM_LSB3 as int, 0)
    &&& s.wlsbs6.1 == 6 * spec_big_scaled(p, lay, bg, pctb, ts.total_bigrams, BIGRAM_LSB1 as int, 1)
        + 3 * spec_big_scaled(p, lay, bg, pctb, ts.total_bigrams, BIGRAM_LSB2 as int, 1) + 2
        * spec_big_scaled(p, lay, bg, pctb, ts.total_bigrams, BIGRAM_LSB3 as int, 1)
    &&& s.d_urolls6.0 == 6 * spec_tri_scaled(p, lay, tg, pctt, ts.total_trigrams, TRIGRAM_D_UROLL as int, 0)
        + 3 * spec_tri_scaled(p, lay, tg, pctt, ts.total_trigrams, TRIGRAM_D_LSB2 as int, 0) + 4
        * spec_tri_scaled(p, lay, tg, pctt, ts.total_trigrams, TRIGRAM_D_LSB3 as int, 0)
    &&& s.d_urolls6.1 == 6 * spec_tri_scaled(p, lay, tg, pctt, ts.total_trigrams, TRIGRAM_D_UROLL as int, 1)
        + 3 * spec_tri_scaled(p, lay, tg, pctt, ts.total_trigrams, TRIGRAM_D_LSB2 as int, 1) + 4
        * spec_tri_scaled(p, lay, tg, pctt, ts.total_trigrams, TRIGRAM_D_LSB3 as int, 1)
    &&& s.d_wlsbs6.0 == 6 * spec_tri_scaled(p, lay, tg, pctt, ts.total_trigrams, TRIGRAM_D_LSB1 as int, 0)
        + 3 * spec_tri_scaled(p, lay, tg, pctt, ts.total_trigrams, TRIGRAM_D_LSB2 as int, 0) + 2
        * spec_tri_scaled(p, lay, tg, pctt, ts.total_trigrams, TRIGRAM_D_LSB3 as int, 0)
    &&& s.d_wlsbs6.1 == 6 * spec_tri_scaled(p, lay, tg, pctt, ts.total_trigrams, TRIGRAM_D_LSB1 as int, 1)
        + 3 * spec_tri_scaled(p, lay, tg, pctt, ts.total_trigrams, TRIGRAM_D_LSB2 as int, 1) + 2
        * spec_tri_scaled(p, lay, tg, pctt, ts.total_trigrams, TRIGRAM_D_LSB3 as int, 1)
    &&& s.redirects.0 == spec_tri_scaled(p, lay, tg, pctt, ts.total_trigrams, TRIGRAM_REDIRECT as int, 0)
        + spec_tri_scaled(p, lay, tg, pctt, ts.total_trigrams, TRIGRAM_SHD_SAMEKEY as int, 0)
    &&& s.redirects.1 == spec_tri_scaled(p, lay, tg, pctt, ts.total_trigrams, TRIGRAM_REDIRECT as int, 1)
        + spec_tri_scaled(p, lay, tg, pctt, ts.total_trigrams, TRIGRAM_SHD_SAMEKEY as int, 1)
    &&& s.contorts.0 == spec_tri_scaled(p, lay, tg, pctt, ts.total_trigrams, TRIGRAM_CONTORT as int, 0)
        + spec_tri_scaled(p, lay, tg, pctt, ts.total_trigrams, TRIGRAM_SHD_SFB as int, 0)
    &&& s.contorts.1 == spec_tri_scaled(p, lay, tg, pctt, ts.total_trigrams, TRIGRAM_CONTORT as int, 1)
        + spec_tri_scaled(p, lay, tg, pctt, ts.total_trigrams, TRIGRAM_SHD_SFB as int, 1)
}

/// Compute the truncation threshold from a total and a precision given
/// in thousandths.
fn percentile(total: u64, precision: u64) -> (r: u64)
    requires
        precision <= 1000,
    ensures
        r == spec_percentile(total, precision),
        r <= total,
{
    proof {
        vstd::arithmetic::mul::lemma_mul_inequality(precision as int, 1000, total as int);
        vstd::arithmetic::mul::lemma_mul_is_commutative(precision as int, total as int);
        vstd::arithmetic::mul::lemma_mul_is_commutative(1000, total as int);
        vstd::arithmetic::div_mod::lemma_div_is_ordered(
            (total as int) * (precision as int),
            (total as int) * 1000,
            1000,
        );
        vstd::arithmetic::div_mod::lemma_div_multiples_vanish(total as int, 1000);
        vstd::arithmetic::mul::lemma_mul_nonnegative(total as int, precision as int);
        vstd::arithmetic::div_mod::lemma_div_pos_is_pos((total as int) * (precision as int), 1000);
        assert((total as int) * (precision as int) <= 0xFFFF_FFFF_FFFF_FFFF * 1000)
            by (nonlinear_arith)
            requires
                total <= 0xFFFF_FFFF_FFFF_FFFF,
                precision <= 1000,
        ;
    }
    (((total as u128) * (precision as u128)) / 1000) as u64
}

impl KuehlmakModel {
    /// Evaluate a layout against corpus statistics, walking the share
    /// of the bigram and trigram mass given by `precision` (in
    /// thousandths) and rescaling the class counts to the full totals.
    /// When `extra` is set, the counted n-grams are kept, each with its
    /// category.
    pub fn eval_layout(&self, layout: &Layout, ts: &TextStats, precision: u64, extra: bool) -> (s:
        KuehlmakScores)
        requires
            self.wf(),
            layout.wf(),
            ts.wf(),
            precision <= 1000,
            ts.bigrams@.len() > 0,
            ts.trigrams@.len() > 0,
        ensures
            eval_post(self.params, self.spec_is_symmetrical(), layout@, *ts, precision, extra, s),
    {
        let pct_b = percentile(ts.total_bigrams, precision);
        let pct_t = percentile(ts.total_trigrams, precision);
        let (heatmap, strokes) = pass_unigrams(layout, &ts.unigrams);
        proof {
            assert forall|k: int| 0 <= k < 31 implies #[trigger] heatmap@[k]
                < MAX_NGRAM_TOTAL by {
                lemma_heat_le_strokes(layout@, ts.unigrams@, ts.unigrams@.len() as int, k);
                lemma_strokes_le_sum(layout@, ts.unigrams@, ts.unigrams@.len() as int);
            }
        }
        let (finger_cost, hand_total) = pass_key_aggregates(&self.params, &self.key_props, &heatmap);
        let bp = pass_bigrams(self, layout, &ts.bigrams, pct_b, extra);
        let tp = pass_trigrams(self, layout, &ts.trigrams, pct_t, extra);
        let mut bigram_counts: Vec<(u64, u64)> = Vec::new();
        let mut t: usize = 0;
        while t < 9
            invariant
                self.wf(),
                layout.wf(),
                ts.wf(),
                ts.bigrams@.len() > 0,
                pct_b == spec_percentile(ts.total_bigrams, precision),
                bp.bins@.len() == 9,
                forall|tt: int, h: int|
                    0 <= tt < 9 && 0 <= h < 2 ==> bin_at(bp.bins@, tt, h) == spec_big_bins(
                        self.params,
                        layout@,
                        ts.bigrams@,
                        pct_b as int,
                        tt,
                        h,
                    ),
                forall|tt: int, h: int|
                    0 <= tt < 9 && 0 <= h < 2 ==> bin_at(bp.bins@, tt, h) <= bp.counted,
                bp.counted >= 1,
                bp.counted == spec_big_counted(ts.bigrams@, pct_b as int),
                t <= 9,
                bigram_counts@.len() == t,
                forall|tt: int|
                    0 <= tt < t ==> #[trigger] bigram_counts@[tt] == (
                    spec_big_scaled(
                        self.params,
                        layout@,
                        ts.bigrams@,
                        pct_b as int,
                        ts.total_bigrams,
                        tt,
                        0,
                    ) as u64,
                    spec_big_scaled(
                        self.params,
                        layout@,
                        ts.bigrams@,
                        pct_b as int,
                        ts.total_bigrams,
                        tt,
                        1,
                    ) as u64,
                    ),
                forall|tt: int|
                    0 <= tt < t ==> (#[trigger] bigram_counts@[tt]).0 <= ts.total_bigrams
                        && bigram_counts@[tt].1 <= ts.total_bigrams,
                forall|tt: int, h: int|
                    0 <= tt < t && 0 <= h < 2 ==> 0 <= #[trigger] spec_big_scaled(
                        self.params,
                        layout@,
                        ts.bigrams@,
                        pct_b as int,
                        ts.total_bigrams,
                        tt,
                        h,
                    ) <= ts.total_bigrams,
            decreases 9 - t,
        {
            let e = bp.bins[t];
            proof {
                assert(e.0 == bin_at(bp.bins@, t as int, 0) && e.1 == bin_at(
                    bp.bins@,
                    t as int,
                    1,
                ));
            }
            let s0 = scale_count(e.0, ts.total_bigrams, bp.counted);
            let s1 = scale_count(e.1, ts.total_bigrams, bp.counted);
            bigram_counts.push((s0, s1));
            t += 1;
        }
        let mut trigram_counts: Vec<(u64, u64)> = Vec::new();
        let mut t2: usize = 0;
        while t2 < 14
            invariant
                self.wf(),
                layout.wf(),
                ts.wf(),
                ts.trigrams@.len() > 0,
                pct_t == spec_percentile(ts.total_trigrams, precision),
                tp.bins@.len() == 14,
                forall|tt: int, h: int|
                    0 <= tt < 14 && 0 <= h < 2 ==> bin_at(tp.bins@, tt, h) == spec_tri_bins(
                        self.params,
                        layout@,
                        ts.trigrams@,
                        pct_t as int,
                        tt,
                        h,
                    ),
                forall|tt: int, h: int|
                    0 <= tt < 14 && 0 <= h < 2 ==> bin_at(tp.bins@, tt, h) <= tp.counted,
                tp.counted >= 1,
                tp.counted == spec_big_counted(ts.trigrams@, pct_t as int),
                t2 <= 14,
                trigram_counts@.len() == t2,
                forall|tt: int|
                    0 <= tt < t2 ==> #[trigger] trigram_counts@[tt] == (
                    spec_tri_scaled(
                        self.params,
                        layout@,
                        ts.trigrams@,
                        pct_t as int,
                        ts.total_trigrams,
                        tt,
                        0,
                    ) as u64,
                    spec_tri_scaled(
                        self.params,
                        layout@,
                        ts.trigrams@,
                        pct_t as int,
                        ts.total_trigrams,
                        tt,
                        1,
                    ) as u64,
                    ),
                forall|tt: int|
                    0 <= tt < t2 ==> (#[trigger] trigram_counts@[tt]).0 <= ts.total_trigrams
                        && trigram_counts@[tt].1 <= ts.total_trigrams,
                forall|tt: int, h: int|
                    0 <= tt < t2 && 0 <= h < 2 ==> 0 <= #[trigger] spec_tri_scaled(
                        self.params,
                        layout@,
                        ts.trigrams@,
                        pct_t as int,
                        ts.total_trigrams,
                        tt,
                        h,
                    ) <= ts.total_trigrams,
            decreases 14 - t2,
        {
            let e = tp.bins[t2];
            proof {
                assert(e.0 == bin_at(tp.bins@, t2 as int, 0) && e.1 == bin_at(
                    tp.bins@,
                    t2 as int,
                    1,
                ));
            }
            let s0 = scale_count(e.0, ts.total_trigrams, tp.counted);
            let s1 = scale_count(e.1, ts.total_trigrams, tp.counted);
            trigram_counts.push((s0, s1));
            t2 += 1;
        }
        let urolls6 = (
            6 * bigram_counts[BIGRAM_UROLL as usize].0 + 3 * bigram_counts[BIGRAM_LSB2 as usize].0
                + 4 * bigram_counts[BIGRAM_LSB3 as usize].0,
            6 * bigram_counts[BIGRAM_UROLL as usize].1 + 3 * bigram_counts[BIGRAM_LSB2 as usize].1
                + 4 * bigram_counts[BIGRAM_LSB3 as usize].1,
        );
        let wlsbs6 = (
            6 * bigram_counts[BIGRAM_LSB1 as usize].0 + 3 * bigram_counts[BIGRAM_LSB2 as usize].0
                + 2 * bigram_counts[BIGRAM_LSB3 as usize].0,
            6 * bigram_counts[BIGRAM_LSB1 as usize].1 + 3 * bigram_counts[BIGRAM_LSB2 as usize].1
                + 2 * bigram_counts[BIGRAM_LSB3 as usize].1,
        );
        let d_urolls6 = (
            6 * trigram_counts[TRIGRAM_D_UROLL as usize].0 + 3 * trigram_counts[TRIGRAM_D_LSB2 as usize].0
                + 4 * trigram_counts[TRIGRAM_D_LSB3 as usize].0,
            6 * trigram_counts[TRIGRAM_D_UROLL as usize].1 + 3 * trigram_counts[TRIGRAM_D_LSB2 as usize].1
                + 4 * trigram_counts[TRIGRAM_D_LSB3 as usize].1,
        );
        let d_wlsbs6 = (
            6 * trigram_counts[TRIGRAM_D_LSB1 as usize].0 + 3 * trigram_counts[TRIGRAM_D_LSB2 as usize].0
                + 2 * trigram_counts[TRIGRAM_D_LSB3 as usize].0,
            6 * trigram_counts[TRIGRAM_D_LSB1 as usize].1 + 3 * trigram_counts[TRIGRAM_D_LSB2 as usize].1
                + 2 * trigram_counts[TRIGRAM_D_LSB3 as usize].1,
        );
        let redirects = (
            trigram_counts[TRIGRAM_REDIRECT as usize].0 + trigram_counts[TRIGRAM_SHD_SAMEKEY as usize].0,
            trigram_counts[TRIGRAM_REDIRECT as usize].1 + trigram_counts[TRIGRAM_SHD_SAMEKEY as usize].1,
        );
        let contorts = (
            trigram_counts[TRIGRAM_CONTORT as usize].0 + trigram_counts[TRIGRAM_SHD_SFB as usize].0,
            trigram_counts[TRIGRAM_CONTORT as usize].1 + trigram_counts[TRIGRAM_SHD_SFB as usize].1,
        );
        KuehlmakScores {
            layout: layout.duplicate(),
            symmetrical: self.is_symmetrical(),
            strokes,
            heatmap,
            finger_cost,
            hand_total,
            bigram_counts,
            bigram_counted: bp.counted,
            same_hand: bp.same_hand,
            travel_pairs: bp.travel,
            bigram_list: bp.list,
            trigram_counts,
            trigram_counted: tp.counted,
            travel_triples: tp.travel,
            trigram_list: tp.list,
            urolls6,
            wlsbs6,
            d_urolls6,
            d_wlsbs6,
            redirects,
            contorts,
        }
    }
}

/// The same parameters, layout and statistics always give the same
/// scores: the record is pinned field by field by its specification.
pub proof fn lemma_eval_deterministic(
    p: KuehlmakParams,
    sym: bool,
    lay: Seq<KeyGlyphs>,
    ts: TextStats,
    precision: u64,
    extra: bool,
    s1: KuehlmakScores,
    s2: KuehlmakScores,
)
    requires
        eval_post(p, sym, lay, ts, precision, extra, s1),
        eval_post(p, sym, lay, ts, precision, extra, s2),
    ensures
        s1.strokes == s2.strokes,
        s1.heatmap@ == s2.heatmap@,
        s1.finger_cost@ == s2.finger_cost@,
        s1.hand_total@ == s2.hand_total@,
        s1.bigram_counts@ == s2.bigram_counts@,
        s1.bigram_counted == s2.bigram_counted,
        s1.same_hand == s2.same_hand,
        s1.travel_pairs@ == s2.travel_pairs@,
        s1.trigram_counts@ == s2.trigram_counts@,
        s1.trigram_counted == s2.trigram_counted,
        s1.travel_triples@ == s2.travel_triples@,
        s1.urolls6 == s2.urolls6,
        s1.wlsbs6 == s2.wlsbs6,
        s1.d_urolls6 == s2.d_urolls6,
        s1.d_wlsbs6 == s2.d_wlsbs6,
        s1.redirects == s2.redirects,
        s1.contorts == s2.contorts,
        extra ==> s1.bigram_list@ == s2.bigram_list@ && s1.trigram_list@ == s2.trigram_list@,
{
    assert(s1.heatmap@ =~= s2.heatmap@);
    assert(s1.finger_cost@ =~= s2.finger_cost@);
    assert(s1.hand_total@ =~= s2.hand_total@);
    assert(s1.bigram_counts@ =~= s2.bigram_counts@);
    assert(s1.trigram_counts@ =~= s2.trigram_counts@);
}

/// The first key position carrying a period glyph, searching from `k`.
pub open spec fn spec_dot_from(l: Seq<KeyGlyphs>, k: int) -> Option<int>
    decreases 30 - k,
{
    if k >= 30 || k < 0 {
        None
    } else if l[k].0 == '.' || l[k].1 == '.' {
        Some(k)
    } else {
        spec_dot_from(l, k + 1)
    }
}

/// The canonical orientation of a scored layout: on a symmetrical
/// model, a layout whose period key sits on the left half is flipped.
pub open spec fn spec_canonical_layout(sym: bool, l: Seq<KeyGlyphs>) -> Seq<KeyGlyphs> {
    if sym && (match spec_dot_from(l, 0) {
        Some(i) => i % 10 < 5,
        None => false,
    }) {
        spec_mirror_layout(l)
    } else {
        l
    }
}

impl KuehlmakScores {
    /// The scored layout in canonical orientation.
    pub fn layout(&self) -> (r: Layout)
        requires
            self.layout.wf(),
        ensures
            r.wf(),
            r@ == spec_canonical_layout(self.symmetrical, self.layout@),
    {
        if self.symmetrical {
            let mut k: usize = 0;
            while k < 30
                invariant
                    self.layout.wf(),
                    self.symmetrical,
                    k <= 30,
                    spec_dot_from(self.layout@, 0) == spec_dot_from(self.layout@, k as int),
                decreases 30 - k,
            {
                let (a, b) = self.layout.keys[k];
                if a == '.' || b == '.' {
                    proof {
                        assert(spec_dot_from(self.layout@, k as int) == Some(k as int));
                    }
                    if k % 10 < 5 {
                        return crate::layout::mirror_layout(&self.layout);
                    } else {
                        return self.layout.duplicate();
                    }
                }
                k += 1;
            }
            self.layout.duplicate()
        } else {
            self.layout.duplicate()
        }
    }
}

/// Every raw bin is nonnegative.
proof fn lemma_big_bins_nonneg(
    p: KuehlmakParams,
    l: Seq<KeyGlyphs>,
    bs: Seq<((char, char), u64)>,
    pct: int,
    t: int,
    h: int,
)
    ensures
        spec_big_bins(p, l, bs, pct, t, h) >= 0,
    decreases bs.len(),
{
    if bs.len() > 0 && pct >= 0 {
        lemma_big_bins_nonneg(p, l, bs.drop_first(), pct - bs[0].1, t, h);
    }
}

/// A threshold at or above the whole listed mass processes every
/// entry.
proof fn lemma_counted_all<T>(bs: Seq<(T, u64)>, pct: int)
    requires
        pct >= spec_sum_prefix(bs, bs.len() as int),
        forall|i: int| 0 <= i < bs.len() ==> (#[trigger] bs[i]).1 >= 0,
    ensures
        spec_big_counted(bs, pct) == spec_sum_prefix(bs, bs.len() as int),
    decreases bs.len(),
{
    if bs.len() > 0 {
        lemma_sum_prefix_shift(bs, bs.len() as int);
        lemma_sum_prefix_mono(bs, 1, bs.len() as int);
        assert(spec_sum_prefix(bs, 0) == 0);
        assert(spec_sum_prefix(bs, 1) == bs[0].1);
        lemma_counted_all(bs.drop_first(), pct - bs[0].1);
    }
}

/// At full precision, on statistics whose listed bigrams carry the
/// whole total, the truncation threshold is the total, every entry is
/// processed, and the rescale is the identity: the counts equal the
/// untruncated full-corpus counts.
pub proof fn lemma_full_precision_exact(
    p: KuehlmakParams,
    l: Seq<KeyGlyphs>,
    bs: Seq<((char, char), u64)>,
    total: u64,
    t: int,
    h: int,
)
    requires
        spec_sum_prefix(bs, bs.len() as int) == total,
        total > 0,
    ensures
        spec_percentile(total, 1000) == total,
        spec_big_counted(bs, total as int) == total,
        spec_big_scaled(p, l, bs, total as int, total, t, h) == spec_big_bins(
            p,
            l,
            bs,
            total as int,
            t,
            h,
        ),
{
    vstd::arithmetic::div_mod::lemma_div_multiples_vanish(total as int, 1000);
    assert(total * 1000 == 1000 * total) by (nonlinear_arith);
    lemma_counted_all(bs, total as int);
    let raw = spec_big_bins(p, l, bs, total as int, t, h);
    lemma_big_bins_nonneg(p, l, bs, total as int, t, h);
    vstd::arithmetic::div_mod::lemma_div_multiples_vanish(raw, total as int);
    assert(raw * total == total * raw) by (nonlinear_arith);
}

/// Whether key `k` carries glyph `c`.
pub open spec fn spec_has_glyph(l: Seq<KeyGlyphs>, k: int, c: char) -> bool {
    l[k].0 == c || l[k].1 == c
}

/// On a layout with distinct glyphs, at most one key carries a glyph.
proof fn lemma_glyph_unique(l: Seq<KeyGlyphs>, c: char, k1: int, k2: int)
    requires
        l.len() == 30,
        crate::layout::spec_distinct_glyphs(l),
        0 <= k1 < 30,
        0 <= k2 < 30,
        spec_has_glyph(l, k1, c),
        spec_has_glyph(l, k2, c),
    ensures
        k1 == k2,
{
    if k1 != k2 {
        let s1 = if l[k1].0 == c {
            2 * k1
        } else {
            2 * k1 + 1
        };
        let s2 = if l[k2].0 == c {
            2 * k2
        } else {
            2 * k2 + 1
        };
        assert(crate::layout::spec_glyph_at(l, s1) == c);
        assert(crate::layout::spec_glyph_at(l, s2) == c);
        assert(s1 != s2);
        assert(false);
    }
}

/// The first key carrying `c` is the only key carrying `c`.
proof fn lemma_key_from_unique(l: Seq<KeyGlyphs>, c: char, k: int, s: int)
    requires
        l.len() == 30,
        0 <= k < 30,
        0 <= s <= k,
        spec_has_glyph(l, k, c),
        forall|m: int| 0 <= m < 30 && m != k ==> !spec_has_glyph(l, m, c),
    ensures
        spec_key_from(l, c, s) == Some(k),
    decreases k - s,
{
    if s < k {
        assert(!spec_has_glyph(l, s, c));
        lemma_key_from_unique(l, c, k, s + 1);
    }
}

/// No key from `s` on carries `c` when no key at all does.
proof fn lemma_key_from_none(l: Seq<KeyGlyphs>, c: char, s: int)
    requires
        l.len() == 30,
        0 <= s,
        forall|m: int| 0 <= m < 30 ==> !spec_has_glyph(l, m, c),
    ensures
        spec_key_from(l, c, s) is None,
    decreases 30 - s,
{
    if s < 30 {
        assert(!spec_has_glyph(l, s, c));
        lemma_key_from_none(l, c, s + 1);
    }
}

/// Symbol lookup commutes with mirroring: on a distinct layout, the
/// mirrored layout maps each symbol to the mirrored key, and the thumb
/// key to itself.
pub proof fn lemma_key_of_mirror(l: Seq<KeyGlyphs>, c: char)
    requires
        l.len() == 30,
        crate::layout::spec_distinct_glyphs(l),
    ensures
        spec_key_of(spec_mirror_layout(l), c) == match spec_key_of(l, c) {
            Option::None => Option::<int>::None,
            Option::Some(k) => if k == 30 {
                Option::Some(30int)
            } else {
                Option::Some(crate::layout::spec_mirror_key(k))
            },
        },
{
    let ml = spec_mirror_layout(l);
    assert(ml.len() == 30);
    assert forall|m: int| 0 <= m < 30 implies #[trigger] ml[m] == l[
        crate::layout::spec_mirror_key(m)
    ] by {}
    if c != ' ' {
        lemma_key_of_range(l, c, 0);
        match spec_key_from(l, c, 0) {
            Option::Some(k) => {
                assert(spec_has_glyph(l, k, c)) by {
                    lemma_key_from_found(l, c, 0);
                }
                crate::layout::lemma_mirror_key_involutive(k);
                let mk = crate::layout::spec_mirror_key(k);
                assert(spec_has_glyph(ml, mk, c));
                assert forall|m: int| 0 <= m < 30 && m != mk implies !spec_has_glyph(
                    ml,
                    m,
                    c,
                ) by {
                    crate::layout::lemma_mirror_key_involutive(m);
                    if spec_has_glyph(ml, m, c) {
                        lemma_glyph_unique(l, c, crate::layout::spec_mirror_key(m), k);
                    }
                }
                lemma_key_from_unique(ml, c, mk, 0);
            },
            Option::None => {
                assert forall|m: int| 0 <= m < 30 implies !spec_has_glyph(l, m, c) by {
                    if spec_has_glyph(l, m, c) {
                        assert forall|m2: int| 0 <= m2 < 30 && m2 != m implies !spec_has_glyph(
                            l,
                            m2,
                            c,
                        ) by {
                            if spec_has_glyph(l, m2, c) {
                                lemma_glyph_unique(l, c, m, m2);
                            }
                        }
                        lemma_key_from_unique(l, c, m, 0);
                        assert(false);
                    }
                }
                assert forall|m: int| 0 <= m < 30 implies !spec_has_glyph(ml, m, c) by {
                    crate::layout::lemma_mirror_key_involutive(m);
                    assert(ml[m] == l[crate::layout::spec_mirror_key(m)]);
                    assert(!spec_has_glyph(l, crate::layout::spec_mirror_key(m), c));
                }
                lemma_key_from_none(ml, c, 0);
            },
        }
    }
}

/// One bigram entry contributes to the mirrored layout's bin on the
/// other hand.
proof fn lemma_big_contrib_mirror(
    p: KuehlmakParams,
    l: Seq<KeyGlyphs>,
    e: ((char, char), u64),
    t: int,
    h: int,
)
    requires
        l.len() == 30,
        crate::layout::spec_distinct_glyphs(l),
        p.space_thumb == Hand::Any,
        crate::classify::spec_fingers_mirror(p.board_type),
        0 <= h < 2,
    ensures
        spec_big_contrib(p, spec_mirror_layout(l), e, t, h) == spec_big_contrib(p, l, e, t, 1 - h),
{
    lemma_key_of_mirror(l, e.0.0);
    lemma_key_of_mirror(l, e.0.1);
    match (spec_key_of(l, e.0.0), spec_key_of(l, e.0.1)) {
        (Some(k0), Some(k1)) => {
            lemma_key_of_range(l, e.0.0, 0);
            lemma_key_of_range(l, e.0.1, 0);
            if k0 < 30 && k1 < 30 {
                crate::classify::lemma_bigram_type_mirror(p, k0, k1);
                crate::classify::lemma_key_props_mirror(p, k1);
            } else if k1 < 30 {
                crate::classify::lemma_key_props_mirror(p, k1);
            }
        },
        _ => {},
    }
}

/// One trigram entry contributes to the mirrored layout's bin on the
/// other hand.
proof fn lemma_tri_contrib_mirror(
    p: KuehlmakParams,
    l: Seq<KeyGlyphs>,
    e: ((char, char, char), u64),
    t: int,
    h: int,
)
    requires
        l.len() == 30,
        crate::layout::spec_distinct_glyphs(l),
        p.space_thumb == Hand::Any,
        crate::classify::spec_fingers_mirror(p.board_type),
        0 <= h < 2,
    ensures
        spec_tri_contrib(p, spec_mirror_layout(l), e, t, h) == spec_tri_contrib(p, l, e, t, 1 - h),
{
    lemma_key_of_mirror(l, e.0.0);
    lemma_key_of_mirror(l, e.0.1);
    lemma_key_of_mirror(l, e.0.2);
    match (spec_key_of(l, e.0.0), spec_key_of(l, e.0.1), spec_key_of(l, e.0.2)) {
        (Some(k0), Some(k1), Some(k2)) => {
            lemma_key_of_range(l, e.0.0, 0);
            lemma_key_of_range(l, e.0.1, 0);
            lemma_key_of_range(l, e.0.2, 0);
            if k2 < 30 {
                crate::classify::lemma_key_props_mirror(p, k2);
                if k0 < 30 && k1 < 30 {
                    crate::classify::lemma_trigram_type_mirror(p, k0, k1, k2);
                } else if k0 < 30 {
                    // The middle key is the thumb: both sides classify
                    // through the disjointed variant of the outer pair.
                    crate::classify::lemma_bigram_type_mirror(p, k0, k2);
                    crate::classify::lemma_key_props_mirror(p, k0);
                }
            }
        },
        _ => {},
    }
}

/// Mirror invariance of the classified counts: on a board whose finger
/// map mirrors, with the thumb key on neither hand, evaluating the
/// mirror image of a distinct layout fills every bigram and trigram
/// bin with the other hand's count, leaves the processed totals
/// unchanged, and mirrors the heatmap.  Any total composed
/// symmetrically in the two hands is therefore the same for a layout
/// and its mirror image.
pub proof fn lemma_eval_mirror_counts(
    p: KuehlmakParams,
    l: Seq<KeyGlyphs>,
    ug: Seq<(char, u64)>,
    bs: Seq<((char, char), u64)>,
    tg: Seq<((char, char, char), u64)>,
    pctb: int,
    pctt: int,
    n: int,
)
    requires
        l.len() == 30,
        crate::layout::spec_distinct_glyphs(l),
        p.space_thumb == Hand::Any,
        crate::classify::spec_fingers_mirror(p.board_type),
        0 <= n <= ug.len(),
    ensures
        forall|t: int, h: int|
            0 <= t && 0 <= h < 2 ==> #[trigger] spec_big_bins(
                p,
                spec_mirror_layout(l),
                bs,
                pctb,
                t,
                h,
            ) == spec_big_bins(p, l, bs, pctb, t, 1 - h),
        forall|t: int, h: int|
            0 <= t && 0 <= h < 2 ==> #[trigger] spec_tri_bins(
                p,
                spec_mirror_layout(l),
                tg,
                pctt,
                t,
                h,
            ) == spec_tri_bins(p, l, tg, pctt, t, 1 - h),
        forall|h: int|
            0 <= h < 2 ==> #[trigger] spec_same_hand(p, spec_mirror_layout(l), bs, pctb, h)
                == spec_same_hand(p, l, bs, pctb, 1 - h),
        spec_strokes(spec_mirror_layout(l), ug, n) == spec_strokes(l, ug, n),
        forall|k: int|
            0 <= k < 30 ==> #[trigger] spec_heat(
                spec_mirror_layout(l),
                ug,
                n,
                crate::layout::spec_mirror_key(k),
            ) == spec_heat(l, ug, n, k),
        spec_heat(spec_mirror_layout(l), ug, n, 30) == spec_heat(l, ug, n, 30),
{
    assert forall|t: int, h: int| 0 <= t && 0 <= h < 2 implies #[trigger] spec_big_bins(
        p,
        spec_mirror_layout(l),
        bs,
        pctb,
        t,
        h,
    ) == spec_big_bins(p, l, bs, pctb, t, 1 - h) by {
        lemma_big_bins_mirror(p, l, bs, pctb, t, h);
    }
    assert forall|t: int, h: int| 0 <= t && 0 <= h < 2 implies #[trigger] spec_tri_bins(
        p,
        spec_mirror_layout(l),
        tg,
        pctt,
        t,
        h,
    ) == spec_tri_bins(p, l, tg, pctt, t, 1 - h) by {
        lemma_tri_bins_mirror(p, l, tg, pctt, t, h);
    }
    assert forall|h: int| 0 <= h < 2 implies #[trigger] spec_same_hand(
        p,
        spec_mirror_layout(l),
        bs,
        pctb,
        h,
    ) == spec_same_hand(p, l, bs, pctb, 1 - h) by {
        lemma_same_hand_mirror(p, l, bs, pctb, h);
    }
    lemma_strokes_mirror(p, l, ug, n);
    assert forall|k: int| 0 <= k < 30 implies #[trigger] spec_heat(
        spec_mirror_layout(l),
        ug,
        n,
        crate::layout::spec_mirror_key(k),
    ) == spec_heat(l, ug, n, k) by {
        crate::layout::lemma_mirror_key_involutive(k);
        lemma_heat_mirror(p, l, ug, n, k);
    }
    lemma_heat_mirror(p, l, ug, n, 30);
}

proof fn lemma_big_bins_mirror(
    p: KuehlmakParams,
    l: Seq<KeyGlyphs>,
    bs: Seq<((char, char), u64)>,
    pct: int,
    t: int,
    h: int,
)
    requires
        l.len() == 30,
        crate::layout::spec_distinct_glyphs(l),
        p.space_thumb == Hand::Any,
        crate::classify::spec_fingers_mirror(p.board_type),
        0 <= h < 2,
    ensures
        spec_big_bins(p, spec_mirror_layout(l), bs, pct, t, h) == spec_big_bins(
            p,
            l,
            bs,
            pct,
            t,
            1 - h,
        ),
    decreases bs.len(),
{
    if bs.len() > 0 && pct >= 0 {
        lemma_big_contrib_mirror(p, l, bs[0], t, h);
        lemma_big_bins_mirror(p, l, bs.drop_first(), pct - bs[0].1, t, h);
    }
}

proof fn lemma_tri_bins_mirror(
    p: KuehlmakParams,
    l: Seq<KeyGlyphs>,
    tg: Seq<((char, char, char), u64)>,
    pct: int,
    t: int,
    h: int,
)
    requires
        l.len() == 30,
        crate::layout::spec_distinct_glyphs(l),
        p.space_thumb == Hand::Any,
        crate::classify::spec_fingers_mirror(p.board_type),
        0 <= h < 2,
    ensures
        spec_tri_bins(p, spec_mirror_layout(l), tg, pct, t, h) == spec_tri_bins(
            p,
            l,
            tg,
            pct,
            t,
            1 - h,
        ),
    decreases tg.len(),
{
    if tg.len() > 0 && pct >= 0 {
        lemma_tri_contrib_mirror(p, l, tg[0], t, h);
        lemma_tri_bins_mirror(p, l, tg.drop_first(), pct - tg[0].1, t, h);
    }
}

proof fn lemma_same_hand_mirror(
    p: KuehlmakParams,
    l: Seq<KeyGlyphs>,
    bs: Seq<((char, char), u64)>,
    pct: int,
    h: int,
)
    requires
        l.len() == 30,
        crate::layout::spec_distinct_glyphs(l),
        p.space_thumb == Hand::Any,
        crate::classify::spec_fingers_mirror(p.board_type),
        0 <= h < 2,
    ensures
        spec_same_hand(p, spec_mirror_layout(l), bs, pct, h) == spec_same_hand(
            p,
            l,
            bs,
            pct,
            1 - h,
        ),
    decreases bs.len(),
{
    if bs.len() > 0 && pct >= 0 {
        let e = bs[0];
        lemma_key_of_mirror(l, e.0.0);
        lemma_key_of_mirror(l, e.0.1);
        match (spec_key_of(l, e.0.0), spec_key_of(l, e.0.1)) {
            (Some(k0), Some(k1)) => {
                lemma_key_of_range(l, e.0.0, 0);
                lemma_key_of_range(l, e.0.1, 0);
                if k0 < 30 && k1 < 30 {
                    crate::classify::lemma_bigram_type_mirror(p, k0, k1);
                    crate::classify::lemma_key_props_mirror(p, k1);
                } else if k1 < 30 {
                    crate::classify::lemma_key_props_mirror(p, k1);
                }
            },
            _ => {},
        }
        lemma_same_hand_mirror(p, l, bs.drop_first(), pct - e.1, h);
    }
}

proof fn lemma_strokes_mirror(p: KuehlmakParams, l: Seq<KeyGlyphs>, ug: Seq<(char, u64)>, n: int)
    requires
        l.len() == 30,
        crate::layout::spec_distinct_glyphs(l),
    ensures
        spec_strokes(spec_mirror_layout(l), ug, n) == spec_strokes(l, ug, n),
    decreases n,
{
    if n > 0 {
        lemma_key_of_mirror(l, ug[n - 1].0);
        lemma_strokes_mirror(p, l, ug, n - 1);
    }
}

proof fn lemma_heat_mirror(
    p: KuehlmakParams,
    l: Seq<KeyGlyphs>,
    ug: Seq<(char, u64)>,
    n: int,
    k: int,
)
    requires
        l.len() == 30,
        crate::layout::spec_distinct_glyphs(l),
        0 <= k <= 30,
    ensures
        spec_heat(
            spec_mirror_layout(l),
            ug,
            n,
            if k == 30 {
                30int
            } else {
                crate::layout::spec_mirror_key(k)
            },
        ) == spec_heat(l, ug, n, k),
    decreases n,
{
    if n > 0 {
        lemma_key_of_mirror(l, ug[n - 1].0);
        lemma_heat_mirror(p, l, ug, n - 1, k);
        if k < 30 {
            crate::layout::lemma_mirror_key_involutive(k);
        }
        match spec_key_of(l, ug[n - 1].0) {
            Option::Some(k2) => {
                lemma_key_of_range(l, ug[n - 1].0, 0);
                if k2 < 30 {
                    crate::layout::lemma_mirror_key_involutive(k2);
                }
            },
            Option::None => {},
        }
    }
}

/// A found key carries the glyph it was found for.
proof fn lemma_key_from_found(l: Seq<KeyGlyphs>, c: char, s: int)
    requires
        0 <= s,
    ensures
        spec_key_from(l, c, s) matches Some(k) ==> spec_has_glyph(l, k, c),
    decreases 30 - s,
{
    if s < 30 {
        lemma_key_from_found(l, c, s + 1);
    }
}

/// The trigram counterpart: at full precision on statistics whose
/// listed trigrams carry the whole total, counts equal the untruncated
/// full-corpus counts.
pub proof fn lemma_full_precision_exact_trigrams(
    p: KuehlmakParams,
    l: Seq<KeyGlyphs>,
    tg: Seq<((char, char, char), u64)>,
    total: u64,
    t: int,
    h: int,
)
    requires
        spec_sum_prefix(tg, tg.len() as int) == total,
        total > 0,
    ensures
        spec_percentile(total, 1000) == total,
        spec_big_counted(tg, total as int) == total,
        spec_tri_scaled(p, l, tg, total as int, total, t, h) == spec_tri_bins(
            p,
            l,
            tg,
            total as int,
            t,
            h,
        ),
{
    vstd::arithmetic::div_mod::lemma_div_multiples_vanish(total as int, 1000);
    assert(total * 1000 == 1000 * total) by (nonlinear_arith);
    lemma_counted_all(tg, total as int);
    let raw = spec_tri_bins(p, l, tg, total as int, t, h);
    lemma_tri_bins_nonneg(p, l, tg, total as int, t, h);
    vstd::arithmetic::div_mod::lemma_div_multiples_vanish(raw, total as int);
    assert(raw * total == total * raw) by (nonlinear_arith);
}

proof fn lemma_tri_bins_nonneg(
    p: KuehlmakParams,
    l: Seq<KeyGlyphs>,
    tg: Seq<((char, char, char), u64)>,
    pct: int,
    t: int,
    h: int,
)
    ensures
        spec_tri_bins(p, l, tg, pct, t, h) >= 0,
    decreases tg.len(),
{
    if tg.len() > 0 && pct >= 0 {
        lemma_tri_bins_nonneg(p, l, tg.drop_first(), pct - tg[0].1, t, h);
    }
}

/// Prefix sums after dropping the first entry.
proof fn lemma_sum_prefix_shift<T>(bs: Seq<(T, u64)>, n: int)
    requires
        1 <= n <= bs.len(),
    ensures
        spec_sum_prefix(bs, n) == bs[0].1 + spec_sum_prefix(bs.drop_first(), n - 1),
    decreases n,
{
    if n > 1 {
        lemma_sum_prefix_shift(bs, n - 1);
        assert(bs.drop_first()[n - 2] == bs[n - 1]);
        assert(spec_sum_prefix(bs, n) == spec_sum_prefix(bs, n - 1) + bs[n - 1].1);
        assert(spec_sum_prefix(bs.drop_first(), n - 1) == spec_sum_prefix(bs.drop_first(), n - 2)
            + bs.drop_first()[n - 2].1);
    } else {
        assert(n == 1);
        assert(spec_sum_prefix(bs, 1) == spec_sum_prefix(bs, 0) + bs[0].1);
        assert(spec_sum_prefix(bs, 0) == 0);
        assert(spec_sum_prefix(bs.drop_first(), 0) == 0);
    }
}

} // verus!
