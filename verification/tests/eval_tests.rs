use kuehlmak::model::{KuehlmakModel, Hand};
use kuehlmak::scores::TextStats;
use kuehlmak::classify::{BIGRAM_LSB3, BIGRAM_SFB, TRIGRAM_SHD_SAMEKEY};
use kuehlmak::parse::layout_from_str;
use kuehlmak::layout::mirror_layout;
use kuehlmak::constraints::{
    eval_zxcv, eval_nonalpha, eval_row, eval_homing, eval_forced_coded,
};
use std::collections::BTreeMap;

static QWERTY: &str = "q  w  e  r  t  y  u  i  o  p\n   a  s  d  f  g  h  j  k  l ;:\n   z  x  c  v  b  n  m ,< .> /?";

static DVORAK: &str = "'\" ,< .> p y f g c r l\n a o e u i d h t n s\n ;: q j k x b m w v z";

// A few sentences of ordinary English, used as the evaluation corpus.
static ENGLISH: &str = "the quick brown fox jumps over the lazy dog and the \
rain in spain stays mainly in the plain for it was the best of times it was \
the worst of times it was the age of wisdom it was the age of foolishness we \
hold these truths to be self evident that all men are created equal and that \
they are endowed with certain rights that among these are life liberty and \
the pursuit of happiness when in the course of human events it becomes \
necessary for one people to dissolve the political bands which have connected \
them with another they should declare the causes which impel them to the \
separation he was an old man who fished alone in a skiff in the gulf stream \
and he had gone eighty four days now without taking a fish in the first forty \
days a boy had been with him it is a truth universally acknowledged that a \
single man in possession of a good fortune must be in want of a wife however \
little known the feelings or views of such a man may be on his first entering \
a neighbourhood this truth is so well fixed in the minds of the surrounding \
families that he is considered the rightful property of some one or other of \
their daughters";

fn stats_from_text(text: &str) -> TextStats {
    let chars: Vec<char> = text.chars().collect();
    let mut u: BTreeMap<char, u64> = BTreeMap::new();
    let mut b: BTreeMap<(char, char), u64> = BTreeMap::new();
    let mut t: BTreeMap<(char, char, char), u64> = BTreeMap::new();
    for &c in &chars {
        *u.entry(c).or_insert(0) += 1;
    }
    for w in chars.windows(2) {
        *b.entry((w[0], w[1])).or_insert(0) += 1;
    }
    for w in chars.windows(3) {
        *t.entry((w[0], w[1], w[2])).or_insert(0) += 1;
    }
    let mut unigrams: Vec<(char, u64)> = u.into_iter().collect();
    let mut bigrams: Vec<((char, char), u64)> = b.into_iter().collect();
    let mut trigrams: Vec<((char, char, char), u64)> = t.into_iter().collect();
    unigrams.sort_by(|a, b| b.1.cmp(&a.1));
    bigrams.sort_by(|a, b| b.1.cmp(&a.1));
    trigrams.sort_by(|a, b| b.1.cmp(&a.1));
    let total_bigrams = bigrams.iter().map(|e| e.1).sum();
    let total_trigrams = trigrams.iter().map(|e| e.1).sum();
    TextStats { unigrams, bigrams, trigrams, total_bigrams, total_trigrams }
}

#[test]
fn tiny_corpus_exact_counts() {
    let m = KuehlmakModel::new(None);
    let l = layout_from_str(QWERTY).unwrap();
    let ts = stats_from_text("abab");
    let s = m.eval_layout(&l, &ts, 1000, false);
    // a sits on key 10, b on key 24; both hit twice.
    assert_eq!(s.strokes, 4);
    assert_eq!(s.heatmap[10], 2);
    assert_eq!(s.heatmap[24], 2);
    // ab twice and ba once, all lateral stretches at finger distance 3.
    assert_eq!(s.bigram_counted, 3);
    assert_eq!(s.bigram_counts[BIGRAM_LSB3 as usize], (3, 0));
    // aba and bab once each: same-hand disjointed same-key triples.
    assert_eq!(s.trigram_counts[TRIGRAM_SHD_SAMEKEY as usize], (2, 0));
    assert_eq!(s.redirects, (2, 0));
    // No same-finger bigrams, so no travel corrections.
    assert!(s.travel_pairs.is_empty());
    // Unscored lists are only kept on request.
    assert!(s.bigram_list.is_empty());
    let s2 = m.eval_layout(&l, &ts, 1000, true);
    assert_eq!(s2.bigram_list.len(), 2);
    assert_eq!(s2.trigram_list.len(), 2);
}

#[test]
fn precision_truncates_and_rescales() {
    let m = KuehlmakModel::new(None);
    let l = layout_from_str(QWERTY).unwrap();
    // dd is a same-key bigram; ed and de same-finger bigrams.
    let ts = TextStats {
        unigrams: vec![('d', 12), ('e', 6)],
        bigrams: vec![(('d', 'd'), 10), (('e', 'd'), 5), (('d', 'e'), 1)],
        trigrams: vec![(('d', 'd', 'd'), 8), (('e', 'd', 'e'), 1)],
        total_bigrams: 16,
        total_trigrams: 9,
    };
    // At half precision the threshold is 8: only the first bigram is
    // walked, and its count is rescaled by 16/10.
    let s = m.eval_layout(&l, &ts, 500, false);
    assert_eq!(s.bigram_counted, 10);
    assert_eq!(s.bigram_counts[kuehlmak::classify::BIGRAM_SAMEKEY as usize], (16, 0));
    assert_eq!(s.bigram_counts[BIGRAM_SFB as usize], (0, 0));
    // At full precision everything is walked and nothing is rescaled.
    let s = m.eval_layout(&l, &ts, 1000, false);
    assert_eq!(s.bigram_counted, 16);
    assert_eq!(s.bigram_counts[kuehlmak::classify::BIGRAM_SAMEKEY as usize], (10, 0));
    assert_eq!(s.bigram_counts[BIGRAM_SFB as usize], (6, 0));
    // Same-key and same-finger bigrams carry travel corrections.
    assert_eq!(s.travel_pairs.len(), 3);
    assert_eq!(s.travel_pairs[0], (12, 12, 10));
}

#[test]
fn evaluation_is_deterministic() {
    let m = KuehlmakModel::new(None);
    let l = layout_from_str(QWERTY).unwrap();
    let ts = stats_from_text(ENGLISH);
    let a = m.eval_layout(&l, &ts, 1000, false);
    let b = m.eval_layout(&l, &ts, 1000, false);
    assert_eq!(a.strokes, b.strokes);
    assert_eq!(a.heatmap, b.heatmap);
    assert_eq!(a.finger_cost, b.finger_cost);
    assert_eq!(a.bigram_counts, b.bigram_counts);
    assert_eq!(a.trigram_counts, b.trigram_counts);
    assert_eq!(a.same_hand, b.same_hand);
    assert_eq!(a.urolls6, b.urolls6);
    assert_eq!(a.redirects, b.redirects);
}

#[test]
fn qwerty_sfbs_and_balance_on_english() {
    let m = KuehlmakModel::new(None);
    let l = layout_from_str(QWERTY).unwrap();
    let ts = stats_from_text(ENGLISH);
    let s = m.eval_layout(&l, &ts, 1000, false);
    let sfb = s.bigram_counts[BIGRAM_SFB as usize].0 + s.bigram_counts[BIGRAM_SFB as usize].1;
    // More than 20 same-finger bigrams per 1000 keystrokes.
    assert!(sfb as u128 * 1000 > 20 * s.strokes as u128, "sfb={} strokes={}", sfb, s.strokes);
    // Hand balance, as the imbalance metric sees it: max/min - 1 over
    // the two hands' stroke totals.  English on this board leans left
    // well past one tenth, so pin the band the metric actually gives.
    let (lh, rh) = (s.hand_total[0] as f64, s.hand_total[1] as f64);
    let imbalance = lh.max(rh) / lh.min(rh) - 1.0;
    assert!(imbalance > 0.10 && imbalance < 1.0, "imbalance={}", imbalance);
}

#[test]
fn dvorak_beats_qwerty() {
    let m = KuehlmakModel::new(None);
    let q = layout_from_str(QWERTY).unwrap();
    let d = layout_from_str(DVORAK).unwrap();
    let ts = stats_from_text(ENGLISH);
    let sq = m.eval_layout(&q, &ts, 1000, false);
    let sd = m.eval_layout(&d, &ts, 1000, false);
    let sfb_q = sq.bigram_counts[BIGRAM_SFB as usize].0 + sq.bigram_counts[BIGRAM_SFB as usize].1;
    let sfb_d = sd.bigram_counts[BIGRAM_SFB as usize].0 + sd.bigram_counts[BIGRAM_SFB as usize].1;
    assert!(sfb_d < sfb_q, "dvorak {} vs qwerty {}", sfb_d, sfb_q);
    // Effort as the original computes it from the per-finger costs.
    let effort = |s: &kuehlmak::scores::KuehlmakScores| -> f64 {
        let sum: f64 = s.finger_cost.iter().map(|&c| (c as f64) * (c as f64)).sum();
        (sum * 9.0).sqrt() / s.strokes as f64
    };
    assert!(effort(&sd) < effort(&sq), "dvorak {} vs qwerty {}; fc_d {:?} fc_q {:?}", effort(&sd), effort(&sq), sd.finger_cost, sq.finger_cost);
}

#[test]
fn mirror_invariance_of_counts() {
    let m = KuehlmakModel::new(None);
    assert!(m.is_symmetrical());
    let q = layout_from_str(QWERTY).unwrap();
    let mq = mirror_layout(&q);
    let ts = stats_from_text(ENGLISH);
    let a = m.eval_layout(&q, &ts, 1000, false);
    let b = m.eval_layout(&mq, &ts, 1000, false);
    // Hands swap, the classified totals stay the same.
    assert_eq!(a.hand_total[0], b.hand_total[1]);
    assert_eq!(a.hand_total[1], b.hand_total[0]);
    for t in 0..9 {
        assert_eq!(a.bigram_counts[t].0, b.bigram_counts[t].1, "bigram class {}", t);
        assert_eq!(a.bigram_counts[t].1, b.bigram_counts[t].0, "bigram class {}", t);
    }
    for t in 0..14 {
        assert_eq!(a.trigram_counts[t].0, b.trigram_counts[t].1, "trigram class {}", t);
    }
    // The per-finger costs mirror, so the effort score is unchanged.
    for f in 0..4 {
        assert_eq!(a.finger_cost[f], b.finger_cost[8 - f]);
    }
}

#[test]
fn canonical_layout_flips_dot_to_the_right() {
    let m = KuehlmakModel::new(None);
    let q = layout_from_str(QWERTY).unwrap();
    let mq = mirror_layout(&q);
    // Mirrored QWERTY has the period key on the left half.
    let ts = stats_from_text("aba");
    let s = m.eval_layout(&mq, &ts, 1000, false);
    assert_eq!(s.layout(), q);
    let s = m.eval_layout(&q, &ts, 1000, false);
    assert_eq!(s.layout(), q);
}

#[test]
fn forced_key_shares() {
    let l = layout_from_str(QWERTY).unwrap();
    // f sits on key 13: a matched forced key earns the bonus share.
    assert_eq!(eval_forced_coded(&l, &vec![('f', 13)]), (-1, 1));
    // A violated forced key contributes its share.
    assert_eq!(eval_forced_coded(&l, &vec![('g', 13)]), (1, 1));
    assert_eq!(eval_forced_coded(&l, &vec![('g', 13), ('f', 13)]), (1, 2));
    // An empty forced set contributes exactly zero.
    assert_eq!(eval_forced_coded(&l, &Vec::new()), (0, 1));
}

#[test]
fn constraint_counters() {
    let q = layout_from_str(QWERTY).unwrap();
    // z x c v stand complete and in order on the left bottom row.
    assert_eq!(eval_zxcv(&q), 5);
    // Only p is alphabetic among the non-alpha positions.
    assert_eq!(eval_nonalpha(&q), 1);
    let top: Vec<char> = "qwertyuiop".chars().collect();
    assert_eq!(eval_row(&q, 0, &top), 10);
    assert_eq!(eval_row(&q, 1, &top), 0);
    let homing: Vec<char> = "fj".chars().collect();
    assert_eq!(eval_homing(&q, &homing, &Vec::new()), 0);
    let homing_t: Vec<char> = "tn".chars().collect();
    assert_eq!(eval_homing(&q, &homing_t, &Vec::new()), 2);
}

#[test]
fn layout_distance_extremes() {
    let m = KuehlmakModel::new(None);
    let q = layout_from_str(QWERTY).unwrap();
    let d = layout_from_str(DVORAK).unwrap();
    assert_eq!(m.layout_distance(&q, &q), 0);
    let dist = m.layout_distance(&q, &d);
    assert!(dist > 0 && dist <= 120);
    // Distance is symmetric in its two layouts.
    assert_eq!(dist, m.layout_distance(&d, &q));
}

#[test]
fn zxcv_partial_counts() {
    // x and z swapped: all four present but out of order, no bonus.
    let text = "q w e r t y u i o p\na s d f g h j k l ;:\nx z c v b n m ,< .> /?";
    let l = layout_from_str(text).unwrap();
    assert_eq!(eval_zxcv(&l), 4);
    // All four present but c and x swapped: no order bonus.
    let text = "q w e r t y u i o p\na s d f g h j k l ;:\nz c x v b n m ,< .> /?";
    let l = layout_from_str(text).unwrap();
    assert_eq!(eval_zxcv(&l), 4);
}

#[test]
fn space_maps_to_thumb_key() {
    let mut p = kuehlmak::model::KuehlmakParams::default();
    p.space_thumb = Hand::Any;
    let m = KuehlmakModel::new(Some(p));
    let l = layout_from_str(QWERTY).unwrap();
    let ts = stats_from_text("a a");
    let s = m.eval_layout(&l, &ts, 1000, false);
    assert_eq!(s.heatmap[30], 1);
    assert_eq!(s.hand_total[2], 1);
    assert_eq!(s.strokes, 3);
}
