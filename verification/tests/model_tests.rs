use kuehlmak::model::{KuehlmakModel, KuehlmakParams, KeyboardType, Hand};
use kuehlmak::classify::{
    scissor_base_list, is_scissor_pair, BIGRAM_ALTERNATE, BIGRAM_DROLL, BIGRAM_UROLL,
    BIGRAM_SAMEKEY, BIGRAM_LSB3, BIGRAM_LSB1, BIGRAM_SCISSOR, BIGRAM_SFB, TRIGRAM_NONE,
    TRIGRAM_D_SAMEKEY, TRIGRAM_SHD_SAMEKEY, TRIGRAM_D_SFB, TRIGRAM_SHD_SFB, TRIGRAM_D_DROLL,
    TRIGRAM_D_UROLL, TRIGRAM_D_LSB3, TRIGRAM_D_LSB2, TRIGRAM_D_LSB1, TRIGRAM_D_SCISSOR,
};
use kuehlmak::layout::mirror_key;
use kuehlmak::parse::layout_from_str;
use kuehlmak::neighbor::shuffle_layout;
use rand::SeedableRng;
use rand::rngs::SmallRng;

static QWERTY: &str = "q  w  e  r  t  y  u  i  o  p\n   a  s  d  f  g  h  j  k  l ;:\n   z  x  c  v  b  n  m ,< .> /?";

fn hand_of(m: &KuehlmakModel, k: usize) -> Hand {
    m.key_props[k].hand
}

#[test]
fn bigram_classifier_coverage() {
    let m = KuehlmakModel::new(None);
    for i in 0..30usize {
        for j in 0..30usize {
            let t = m.bigram_types[i * 31 + j];
            let same_hand = hand_of(&m, i) == hand_of(&m, j);
            if same_hand {
                assert!(
                    BIGRAM_DROLL <= t && t <= BIGRAM_SFB,
                    "uncovered same-hand pair {} {} -> {}",
                    i,
                    j,
                    t
                );
            } else {
                assert_eq!(t, BIGRAM_ALTERNATE, "cross-hand pair {} {}", i, j);
            }
        }
    }
}

#[test]
fn trigram_closure_disjointed() {
    let m = KuehlmakModel::new(None);
    let d_variant = |bt: u8| -> u8 {
        match bt {
            x if x == BIGRAM_SFB => TRIGRAM_D_SFB,
            x if x == BIGRAM_DROLL => TRIGRAM_D_DROLL,
            x if x == BIGRAM_UROLL => TRIGRAM_D_UROLL,
            x if x == BIGRAM_SAMEKEY => TRIGRAM_D_SAMEKEY,
            x if x == BIGRAM_LSB1 => TRIGRAM_D_LSB1,
            x if x == kuehlmak::classify::BIGRAM_LSB2 => TRIGRAM_D_LSB2,
            x if x == BIGRAM_LSB3 => TRIGRAM_D_LSB3,
            x if x == BIGRAM_SCISSOR => TRIGRAM_D_SCISSOR,
            _ => TRIGRAM_NONE,
        }
    };
    for i in 0..30usize {
        for k in 0..30usize {
            if hand_of(&m, i) != hand_of(&m, k) {
                continue;
            }
            for j in 0..30usize {
                if hand_of(&m, j) == hand_of(&m, i) {
                    continue;
                }
                let tt = m.trigram_types[(i * 31 + j) * 31 + k];
                let bt = m.bigram_types[i * 31 + k];
                assert_eq!(tt, d_variant(bt), "triple {} {} {}", i, j, k);
                assert_ne!(tt, TRIGRAM_NONE);
            }
        }
    }
}

#[test]
fn shd_same_key_trigram() {
    let m = KuehlmakModel::new(None);
    // a-s-a on the home row: same hand, first and third on the same key.
    let tt = m.trigram_types[(10 * 31 + 11) * 31 + 10];
    assert_eq!(tt, TRIGRAM_SHD_SAMEKEY);
    // a-s-q: first and third on the same finger, middle on another.
    let tt = m.trigram_types[(10 * 31 + 11) * 31 + 0];
    assert_eq!(tt, TRIGRAM_SHD_SFB);
}

#[test]
fn scissor_symmetry_ortho() {
    for board in [KeyboardType::Ortho, KeyboardType::ColStag, KeyboardType::Hex,
        KeyboardType::HexStag] {
        let base = scissor_base_list(board);
        for a in 0..30usize {
            for b in 0..30usize {
                let s = is_scissor_pair(board, &base, a, b);
                assert_eq!(s, is_scissor_pair(board, &base, b, a));
                let ma = mirror_key(a as u8) as usize;
                let mb = mirror_key(b as u8) as usize;
                assert_eq!(s, is_scissor_pair(board, &base, ma, mb));
                assert_eq!(s, is_scissor_pair(board, &base, mb, ma));
            }
        }
    }
}

#[test]
fn classifier_samples_ortho() {
    let m = KuehlmakModel::new(None);
    // Same key repeated.
    assert_eq!(m.bigram_types[5 * 31 + 5], BIGRAM_SAMEKEY);
    // d (key 12) and c (key 22): same finger.
    assert_eq!(m.bigram_types[12 * 31 + 22], BIGRAM_SFB);
    // s (11) to d (12): rolling away from the ring finger.
    assert_eq!(m.bigram_types[11 * 31 + 12], BIGRAM_DROLL);
    // d (12) to s (11): toward the ring finger, no index involved.
    assert_eq!(m.bigram_types[12 * 31 + 11], BIGRAM_UROLL);
    // q (0) to s (11): a listed scissor.
    assert_eq!(m.bigram_types[0 * 31 + 11], BIGRAM_SCISSOR);
    // t (4, stretch) to a (10): lateral stretch at finger distance 3.
    assert_eq!(m.bigram_types[4 * 31 + 10], BIGRAM_LSB3);
    // t (4, stretch) to d (12): lateral stretch at finger distance 1.
    assert_eq!(m.bigram_types[4 * 31 + 12], BIGRAM_LSB1);
    // q (0) to h (15): different hands.
    assert_eq!(m.bigram_types[0 * 31 + 15], BIGRAM_ALTERNATE);
}

#[test]
fn hex_stretch_pair_is_lsb1() {
    let mut p = KuehlmakParams::default();
    p.board_type = KeyboardType::Hex;
    let m = KuehlmakModel::new(Some(p));
    // On Hex boards the top-row pinky corner and the bottom stretch key
    // are both stretches on different fingers: promoted to LSB1.
    assert!(m.key_props[0].is_stretch);
    assert!(m.key_props[24].is_stretch);
    assert_eq!(m.bigram_types[0 * 31 + 24], BIGRAM_LSB1);
}

#[test]
fn cost_ranking_is_sorted_permutation() {
    let m = KuehlmakModel::new(None);
    let r = &m.key_cost_ranking;
    assert_eq!(r.len(), 30);
    for w in r.windows(2) {
        assert!(m.key_props[w[0]].cost <= m.key_props[w[1]].cost);
    }
    let mut seen = [false; 30];
    for &k in r.iter() {
        assert!(!seen[k]);
        seen[k] = true;
    }
}

#[test]
fn finger_keys_symmetric_order() {
    let m = KuehlmakModel::new(None);
    assert_eq!(m.finger_keys[0], vec![0, 10, 20]);
    assert_eq!(m.finger_keys[8], vec![9, 19, 29]);
    assert_eq!(m.finger_keys[3], vec![3, 4, 13, 14, 23, 24]);
    assert_eq!(m.finger_keys[4], Vec::<u8>::new());
}

#[test]
fn symmetry_flag() {
    let m = KuehlmakModel::new(None);
    assert!(m.is_symmetrical());
    let mut p = KuehlmakParams::default();
    p.board_type = KeyboardType::ANSI;
    assert!(!KuehlmakModel::new(Some(p)).is_symmetrical());
    let mut p = KuehlmakParams::default();
    p.constraints.zxcv = true;
    assert!(!KuehlmakModel::new(Some(p)).is_symmetrical());
    let mut p = KuehlmakParams::default();
    p.space_thumb = Hand::L;
    assert!(!KuehlmakModel::new(Some(p)).is_symmetrical());
}

#[test]
fn neighbor_preserves_key_multiset() {
    let m = KuehlmakModel::new(None);
    let mut l = layout_from_str(QWERTY).unwrap();
    let mut rng = SmallRng::seed_from_u64(12345);
    let mut expected: Vec<(char, char)> = l.keys.clone();
    expected.sort_unstable();
    for _ in 0..200 {
        let next = m.neighbor(&mut rng, &l);
        // Every move mutates: a distinct layout never comes back as is.
        assert_ne!(next, l);
        // The differing positions are a genuine rearrangement: at least
        // two, and a two-position difference is a transposition.
        let diff: Vec<usize> = (0..30).filter(|&k| next.keys[k] != l.keys[k]).collect();
        assert!(diff.len() >= 2);
        if diff.len() == 2 {
            assert_eq!(next.keys[diff[0]], l.keys[diff[1]]);
            assert_eq!(next.keys[diff[1]], l.keys[diff[0]]);
        }
        l = next;
        let mut got = l.keys.clone();
        got.sort_unstable();
        assert_eq!(got, expected);
    }
}

#[test]
fn neighbor_changes_layout() {
    let m = KuehlmakModel::new(None);
    let l = layout_from_str(QWERTY).unwrap();
    let mut rng = SmallRng::seed_from_u64(7);
    let n = m.neighbor(&mut rng, &l);
    assert_ne!(n, l);
}

#[test]
fn shuffle_preserves_key_multiset() {
    let l = layout_from_str(QWERTY).unwrap();
    let mut rng = SmallRng::seed_from_u64(99);
    let s = shuffle_layout(&mut rng, &l);
    let mut a = l.keys.clone();
    let mut b = s.keys.clone();
    a.sort_unstable();
    b.sort_unstable();
    assert_eq!(a, b);
}
