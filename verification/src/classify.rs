//! Bigram and trigram classification: scissor lists and the category
//! of every key pair and key triple.

use vstd::prelude::*;
use crate::layout::{spec_mirror_key, lemma_mirror_key_involutive};
use crate::model::{
    KeyboardType, Hand, KuehlmakParams, KeyProps, spec_key_hand, spec_key_finger,
    spec_key_stretch, spec_key_props, FINGER_TH, FINGER_LR, FINGER_RR, FINGER_LI, FINGER_RI,
};

verus! {

// Bigram categories, in increasing order of severity.  The order matters:
// everything from `SAMEKEY` up counts as an awkward ("bad") bigram, and
// the two roll categories sit below it.
pub const BIGRAM_ALTERNATE: u8 = 0;

pub const BIGRAM_DROLL: u8 = 1;

pub const BIGRAM_UROLL: u8 = 2;

pub const BIGRAM_SAMEKEY: u8 = 3;

pub const BIGRAM_LSB3: u8 = 4;

pub const BIGRAM_LSB2: u8 = 5;

pub const BIGRAM_LSB1: u8 = 6;

pub const BIGRAM_SCISSOR: u8 = 7;

pub const BIGRAM_SFB: u8 = 8;

pub const BIGRAM_NUM_TYPES: usize = 9;

// Trigram categories.  The "d" variants are a same-hand bigram whose
// middle key sits on the other hand; "shd" are same-hand disjointed.
pub const TRIGRAM_NONE: u8 = 0;

pub const TRIGRAM_D_SAMEKEY: u8 = 1;

pub const TRIGRAM_SHD_SAMEKEY: u8 = 2;

pub const TRIGRAM_D_SFB: u8 = 3;

pub const TRIGRAM_SHD_SFB: u8 = 4;

pub const TRIGRAM_D_DROLL: u8 = 5;

pub const TRIGRAM_D_UROLL: u8 = 6;

pub const TRIGRAM_D_LSB3: u8 = 7;

pub const TRIGRAM_D_LSB2: u8 = 8;

pub const TRIGRAM_D_LSB1: u8 = 9;

pub const TRIGRAM_D_SCISSOR: u8 = 10;

pub const TRIGRAM_RROLL: u8 = 11;

pub const TRIGRAM_REDIRECT: u8 = 12;

pub const TRIGRAM_CONTORT: u8 = 13;

pub const TRIGRAM_NUM_TYPES: usize = 14;

/// The scissor pairs of a board family, enumerated on the left hand
/// going left to right.  The full scissor relation closes this list
/// under swapping the two keys and under mirroring both to the right
/// hand.  Hex boards shift the top row, Angle boards the bottom row,
/// and each family appends a few pairs of its own.
pub open spec fn spec_scissor_base(b: KeyboardType) -> Seq<(u8, u8)> {
    match b {
        KeyboardType::Hex | KeyboardType::HexStag => seq![
            (1u8, 11u8), (1, 21), (1, 12), (1, 22), (1, 23), (10, 21), (2, 22), (2, 23), (21, 3),
            (21, 4), (3, 23), (22, 4), (1, 24), (2, 24), (3, 24), (0, 11), (0, 21), (0, 12),
            (0, 22), (0, 23), (0, 24), (20, 1), (20, 2), (20, 3)
        ],
        KeyboardType::Angle => seq![
            (0u8, 11u8), (0, 20), (0, 12), (0, 21), (0, 22), (10, 20), (1, 21), (1, 22), (20, 2),
            (20, 3), (2, 22), (21, 3), (0, 23), (1, 23), (2, 23), (0, 24), (1, 24), (2, 24),
            (20, 4), (21, 4)
        ],
        _ => seq![
            (0u8, 11u8), (0, 21), (0, 12), (0, 22), (0, 23), (10, 21), (1, 22), (1, 23), (21, 2),
            (21, 3), (2, 23), (22, 3), (0, 24), (1, 24), (2, 24), (20, 1), (20, 2), (20, 3),
            (20, 4), (21, 4), (22, 4)
        ],
    }
}

/// Whether the ordered key pair (a, b) is a scissor on board `b`:
/// a listed pair, a listed pair reversed, or the mirror image of either.
pub open spec fn spec_is_scissor(b: KeyboardType, a: int, c: int) -> bool {
    exists|n: int|
        0 <= n < spec_scissor_base(b).len() && {
            let x = #[trigger] spec_scissor_base(b)[n].0 as int;
            let y = spec_scissor_base(b)[n].1 as int;
            ||| (a == x && c == y)
            ||| (a == y && c == x)
            ||| (a == spec_mirror_key(x) && c == spec_mirror_key(y))
            ||| (a == spec_mirror_key(y) && c == spec_mirror_key(x))
        }
}

/// The scissor relation is symmetric in its two keys.
pub proof fn lemma_scissor_swap(b: KeyboardType, a: int, c: int)
    requires
        spec_is_scissor(b, a, c),
    ensures
        spec_is_scissor(b, c, a),
{
}

/// All keys named in the scissor base lists lie on the main block.
pub proof fn lemma_scissor_base_in_range(b: KeyboardType)
    ensures
        forall|n: int|
            0 <= n < spec_scissor_base(b).len() ==> (#[trigger] spec_scissor_base(b)[n]).0 < 30
                && spec_scissor_base(b)[n].1 < 30,
{
    assert forall|n: int| 0 <= n < spec_scissor_base(b).len() implies (
    #[trigger] spec_scissor_base(b)[n]).0 < 30 && spec_scissor_base(b)[n].1 < 30 by {
    }
}

/// Mirroring both keys of a scissor gives a scissor again.
pub proof fn lemma_scissor_mirror(b: KeyboardType, a: int, c: int)
    requires
        spec_is_scissor(b, a, c),
        0 <= a < 30,
        0 <= c < 30,
    ensures
        spec_is_scissor(b, spec_mirror_key(a), spec_mirror_key(c)),
{
    let n = choose|n: int|
        0 <= n < spec_scissor_base(b).len() && {
            let x = #[trigger] spec_scissor_base(b)[n].0 as int;
            let y = spec_scissor_base(b)[n].1 as int;
            ||| (a == x && c == y)
            ||| (a == y && c == x)
            ||| (a == spec_mirror_key(x) && c == spec_mirror_key(y))
            ||| (a == spec_mirror_key(y) && c == spec_mirror_key(x))
        };
    let x = spec_scissor_base(b)[n].0 as int;
    let y = spec_scissor_base(b)[n].1 as int;
    lemma_scissor_base_in_range(b);
    lemma_mirror_key_involutive(x);
    lemma_mirror_key_involutive(y);
}

/// The bigram category of the ordered key pair (i, j), 0..=30 each.
pub open spec fn spec_bigram_type(p: KuehlmakParams, i: int, j: int) -> u8 {
    let h0 = spec_key_hand(p, i);
    let h1 = spec_key_hand(p, j);
    let f0 = spec_key_finger(p, i);
    let f1 = spec_key_finger(p, j);
    let s0 = spec_key_stretch(p, i);
    let s1 = spec_key_stretch(p, j);
    if h0 == Hand::Any || h1 == Hand::Any || h0 != h1 {
        BIGRAM_ALTERNATE
    } else if i == j {
        BIGRAM_SAMEKEY
    } else if f0 == f1 {
        BIGRAM_SFB
    } else if (s0 || s1) && f0 != FINGER_TH && f1 != FINGER_TH {
        if (s0 && s1) || spec_is_scissor(p.board_type, i, j) {
            BIGRAM_LSB1
        } else if f0 - f1 == 1 || f1 - f0 == 1 {
            BIGRAM_LSB1
        } else if f0 - f1 == 2 || f1 - f0 == 2 {
            BIGRAM_LSB2
        } else {
            BIGRAM_LSB3
        }
    } else if spec_is_scissor(p.board_type, i, j) {
        BIGRAM_SCISSOR
    } else if f0 == FINGER_LR || f0 == FINGER_RR {
        BIGRAM_DROLL
    } else if (FINGER_LI <= f0 && f0 <= FINGER_RI) || (FINGER_LI <= f1 && f1 <= FINGER_RI) {
        let a = if f0 >= FINGER_TH {
            f0 - FINGER_TH
        } else {
            FINGER_TH - f0
        };
        let c = if f1 >= FINGER_TH {
            f1 - FINGER_TH
        } else {
            FINGER_TH - f1
        };
        if a > c {
            BIGRAM_DROLL
        } else {
            BIGRAM_UROLL
        }
    } else {
        BIGRAM_UROLL
    }
}

/// The "disjointed" trigram variant of a same-hand bigram category.
pub open spec fn spec_d_variant(bt: u8) -> u8 {
    if bt == BIGRAM_SFB {
        TRIGRAM_D_SFB
    } else if bt == BIGRAM_DROLL {
        TRIGRAM_D_DROLL
    } else if bt == BIGRAM_UROLL {
        TRIGRAM_D_UROLL
    } else if bt == BIGRAM_SAMEKEY {
        TRIGRAM_D_SAMEKEY
    } else if bt == BIGRAM_LSB1 {
        TRIGRAM_D_LSB1
    } else if bt == BIGRAM_LSB2 {
        TRIGRAM_D_LSB2
    } else if bt == BIGRAM_LSB3 {
        TRIGRAM_D_LSB3
    } else if bt == BIGRAM_SCISSOR {
        TRIGRAM_D_SCISSOR
    } else {
        TRIGRAM_NONE
    }
}

/// The trigram category of the ordered key triple (i, j, k).
pub open spec fn spec_trigram_type(p: KuehlmakParams, i: int, j: int, k: int) -> u8 {
    let h0 = spec_key_hand(p, i);
    let h1 = spec_key_hand(p, j);
    let h2 = spec_key_hand(p, k);
    let f0 = spec_key_finger(p, i);
    let f1 = spec_key_finger(p, j);
    let f2 = spec_key_finger(p, k);
    if h0 == Hand::Any || h2 == Hand::Any {
        TRIGRAM_NONE
    } else if h0 == h2 && h0 != h1 {
        spec_d_variant(spec_bigram_type(p, i, k))
    } else if h0 == h1 && h1 == h2 {
        if i == k && f0 != f1 {
            TRIGRAM_SHD_SAMEKEY
        } else if f0 == f2 && f0 != f1 {
            TRIGRAM_SHD_SFB
        } else if spec_bigram_type(p, i, j) >= BIGRAM_SAMEKEY && spec_bigram_type(p, j, k)
            >= BIGRAM_SAMEKEY {
            TRIGRAM_CONTORT
        } else if f0 != f1 && f1 != f2 && spec_bigram_type(p, i, k) == BIGRAM_SCISSOR {
            TRIGRAM_CONTORT
        } else if f0 != f1 && f1 != f2 && ((f2 > f1) != (f1 > f0)) {
            TRIGRAM_REDIRECT
        } else if BIGRAM_DROLL <= spec_bigram_type(p, i, j) && spec_bigram_type(p, i, j)
            < BIGRAM_LSB1 && BIGRAM_DROLL <= spec_bigram_type(p, j, k) && spec_bigram_type(p, j, k)
            < BIGRAM_LSB1 {
            TRIGRAM_RROLL
        } else {
            TRIGRAM_NONE
        }
    } else {
        TRIGRAM_NONE
    }
}

/// Classifier coverage: same-hand pairs on the main block always fall in
/// one of the eight same-hand categories, and pairs across hands (or
/// involving an `Any`-handed key) are always unscored alternations.
pub proof fn lemma_bigram_coverage(p: KuehlmakParams, i: int, j: int)
    requires
        0 <= i < 31,
        0 <= j < 31,
    ensures
        spec_key_hand(p, i) != Hand::Any && spec_key_hand(p, i) == spec_key_hand(p, j) ==> {
            let t = spec_bigram_type(p, i, j);
            BIGRAM_DROLL <= t <= BIGRAM_SFB
        },
        spec_key_hand(p, i) == Hand::Any || spec_key_hand(p, j) == Hand::Any || spec_key_hand(p, i)
            != spec_key_hand(p, j) ==> spec_bigram_type(p, i, j) == BIGRAM_ALTERNATE,
{
}

/// Trigram closure: when the outer keys share a hand and the middle key
/// does not, the trigram category is exactly the disjointed variant of
/// the outer pair's bigram category.
pub proof fn lemma_trigram_closure(p: KuehlmakParams, i: int, j: int, k: int)
    requires
        0 <= i < 31,
        0 <= j < 31,
        0 <= k < 31,
        spec_key_hand(p, i) != Hand::Any,
        spec_key_hand(p, k) != Hand::Any,
        spec_key_hand(p, i) == spec_key_hand(p, k),
        spec_key_hand(p, j) != spec_key_hand(p, i),
    ensures
        spec_trigram_type(p, i, j, k) == spec_d_variant(spec_bigram_type(p, i, k)),
        spec_trigram_type(p, i, j, k) != TRIGRAM_NONE,
{
    lemma_bigram_coverage(p, i, k);
}

/// Scissor symmetry: the relation is closed under swapping the keys and,
/// for every board family, under mirroring both keys to the other hand.
pub proof fn lemma_scissor_symmetry(b: KeyboardType, a: int, c: int)
    requires
        0 <= a < 30,
        0 <= c < 30,
        spec_is_scissor(b, a, c),
    ensures
        spec_is_scissor(b, c, a),
        spec_is_scissor(b, spec_mirror_key(a), spec_mirror_key(c)),
        spec_is_scissor(b, spec_mirror_key(c), spec_mirror_key(a)),
{
    lemma_scissor_swap(b, a, c);
    lemma_scissor_mirror(b, a, c);
    lemma_scissor_mirror(b, c, a);
}

/// Build the scissor base list of a board as a vector.
pub fn scissor_base_list(b: KeyboardType) -> (v: Vec<(u8, u8)>)
    ensures
        v@ == spec_scissor_base(b),
{
    let v: Vec<(u8, u8)> = match b {
        KeyboardType::Hex | KeyboardType::HexStag => vec![
            (1u8, 11u8), (1, 21), (1, 12), (1, 22), (1, 23), (10, 21), (2, 22), (2, 23), (21, 3),
            (21, 4), (3, 23), (22, 4), (1, 24), (2, 24), (3, 24), (0, 11), (0, 21), (0, 12),
            (0, 22), (0, 23), (0, 24), (20, 1), (20, 2), (20, 3)
        ],
        KeyboardType::Angle => vec![
            (0u8, 11u8), (0, 20), (0, 12), (0, 21), (0, 22), (10, 20), (1, 21), (1, 22), (20, 2),
            (20, 3), (2, 22), (21, 3), (0, 23), (1, 23), (2, 23), (0, 24), (1, 24), (2, 24),
            (20, 4), (21, 4)
        ],
        _ => vec![
            (0u8, 11u8), (0, 21), (0, 12), (0, 22), (0, 23), (10, 21), (1, 22), (1, 23), (21, 2),
            (21, 3), (2, 23), (22, 3), (0, 24), (1, 24), (2, 24), (20, 1), (20, 2), (20, 3),
            (20, 4), (21, 4), (22, 4)
        ],
    };
    proof {
        assert(v@ =~= spec_scissor_base(b));
    }
    v
}

/// Mirror a key position without any bound on it; for keys on the main
/// block this agrees with the mirror map.
fn mirror_key_wide(k: u8) -> (r: usize)
    ensures
        r as int == spec_mirror_key(k as int),
{
    let ku = k as usize;
    proof {
        vstd::arithmetic::div_mod::lemma_mod_division_less_than_divisor(ku as int, 10);
        vstd::arithmetic::div_mod::lemma_mod_decreases(ku as nat, 10);
    }
    ku + 9 - 2 * (ku % 10)
}

/// Decide whether (a, c) is a scissor by scanning the base list.
pub fn is_scissor_pair(b: KeyboardType, base: &Vec<(u8, u8)>, a: usize, c: usize) -> (r: bool)
    requires
        base@ == spec_scissor_base(b),
    ensures
        r == spec_is_scissor(b, a as int, c as int),
{
    let mut n: usize = 0;
    while n < base.len()
        invariant
            base@ == spec_scissor_base(b),
            n <= base@.len(),
            forall|m: int|
                0 <= m < n ==> !{
                    let x = #[trigger] spec_scissor_base(b)[m].0 as int;
                    let y = spec_scissor_base(b)[m].1 as int;
                    ||| (a as int == x && c as int == y)
                    ||| (a as int == y && c as int == x)
                    ||| (a as int == spec_mirror_key(x) && c as int == spec_mirror_key(y))
                    ||| (a as int == spec_mirror_key(y) && c as int == spec_mirror_key(x))
                },
        decreases base@.len() - n,
    {
        let (x, y) = base[n];
        let mx = mirror_key_wide(x);
        let my = mirror_key_wide(y);
        if (a == x as usize && c == y as usize) || (a == y as usize && c == x as usize) || (a == mx
            && c == my) || (a == my && c == mx) {
            return true;
        }
        n += 1;
    }
    false
}

/// Boards whose key-to-finger map mirrors: every family except Angle,
/// whose bottom-left row slants to the right.
pub open spec fn spec_fingers_mirror(b: KeyboardType) -> bool {
    b != KeyboardType::Angle
}

/// The other hand.
pub open spec fn spec_other_hand(h: Hand) -> Hand {
    match h {
        Hand::L => Hand::R,
        Hand::R => Hand::L,
        Hand::Any => Hand::Any,
    }
}

/// Mirroring a main-block key flips its hand, mirrors its finger and
/// keeps its stretch flag, on every board family but Angle.
pub proof fn lemma_key_props_mirror(p: KuehlmakParams, k: int)
    requires
        0 <= k < 30,
        spec_fingers_mirror(p.board_type),
    ensures
        spec_key_hand(p, spec_mirror_key(k)) == spec_other_hand(spec_key_hand(p, k)),
        spec_key_finger(p, spec_mirror_key(k)) == 8 - spec_key_finger(p, k),
        spec_key_stretch(p, spec_mirror_key(k)) == spec_key_stretch(p, k),
{
    lemma_mirror_key_involutive(k);
}

/// The bigram classifier is mirror symmetric: on boards whose finger
/// map mirrors, the mirrored key pair falls in the same category (on
/// the other hand).
pub proof fn lemma_bigram_type_mirror(p: KuehlmakParams, i: int, j: int)
    requires
        0 <= i < 30,
        0 <= j < 30,
        spec_fingers_mirror(p.board_type),
    ensures
        spec_bigram_type(p, spec_mirror_key(i), spec_mirror_key(j)) == spec_bigram_type(p, i, j),
{
    lemma_mirror_key_involutive(i);
    lemma_mirror_key_involutive(j);
    lemma_key_props_mirror(p, i);
    lemma_key_props_mirror(p, j);
    let mi = spec_mirror_key(i);
    let mj = spec_mirror_key(j);
    if spec_is_scissor(p.board_type, i, j) {
        lemma_scissor_mirror(p.board_type, i, j);
    }
    if spec_is_scissor(p.board_type, mi, mj) {
        lemma_scissor_mirror(p.board_type, mi, mj);
    }
    assert(spec_is_scissor(p.board_type, mi, mj) == spec_is_scissor(p.board_type, i, j));
}

/// The trigram classifier is mirror symmetric in the same sense.
pub proof fn lemma_trigram_type_mirror(p: KuehlmakParams, i: int, j: int, k: int)
    requires
        0 <= i < 30,
        0 <= j < 30,
        0 <= k < 30,
        spec_fingers_mirror(p.board_type),
    ensures
        spec_trigram_type(p, spec_mirror_key(i), spec_mirror_key(j), spec_mirror_key(k))
            == spec_trigram_type(p, i, j, k),
{
    lemma_mirror_key_involutive(i);
    lemma_mirror_key_involutive(j);
    lemma_mirror_key_involutive(k);
    lemma_key_props_mirror(p, i);
    lemma_key_props_mirror(p, j);
    lemma_key_props_mirror(p, k);
    lemma_bigram_type_mirror(p, i, j);
    lemma_bigram_type_mirror(p, j, k);
    lemma_bigram_type_mirror(p, i, k);
}

/// Classify one ordered key pair with executable code.
pub fn bigram_type_at(
    p: &KuehlmakParams,
    props: &Vec<KeyProps>,
    base: &Vec<(u8, u8)>,
    i: usize,
    j: usize,
) -> (r: u8)
    requires
        props@.len() == 31,
        forall|k: int| 0 <= k < 31 ==> #[trigger] props@[k] == spec_key_props(*p, k),
        base@ == spec_scissor_base(p.board_type),
        i < 31,
        j < 31,
    ensures
        r == spec_bigram_type(*p, i as int, j as int),
{
    let pi = props[i];
    let pj = props[j];
    if pi.hand == Hand::Any || pj.hand == Hand::Any || pi.hand != pj.hand {
        BIGRAM_ALTERNATE
    } else if i == j {
        BIGRAM_SAMEKEY
    } else if pi.finger == pj.finger {
        BIGRAM_SFB
    } else if (pi.is_stretch || pj.is_stretch) && pi.finger != FINGER_TH && pj.finger
        != FINGER_TH {
        if (pi.is_stretch && pj.is_stretch) || is_scissor_pair(p.board_type, base, i, j) {
            BIGRAM_LSB1
        } else {
            let d = if pi.finger >= pj.finger {
                pi.finger - pj.finger
            } else {
                pj.finger - pi.finger
            };
            if d == 1 {
                BIGRAM_LSB1
            } else if d == 2 {
                BIGRAM_LSB2
            } else {
                BIGRAM_LSB3
            }
        }
    } else if is_scissor_pair(p.board_type, base, i, j) {
        BIGRAM_SCISSOR
    } else if pi.finger == FINGER_LR || pi.finger == FINGER_RR {
        BIGRAM_DROLL
    } else if (FINGER_LI <= pi.finger && pi.finger <= FINGER_RI) || (FINGER_LI <= pj.finger
        && pj.finger <= FINGER_RI) {
        let a = if pi.finger >= FINGER_TH {
            pi.finger - FINGER_TH
        } else {
            FINGER_TH - pi.finger
        };
        let c = if pj.finger >= FINGER_TH {
            pj.finger - FINGER_TH
        } else {
            FINGER_TH - pj.finger
        };
        if a > c {
            BIGRAM_DROLL
        } else {
            BIGRAM_UROLL
        }
    } else {
        BIGRAM_UROLL
    }
}

/// Build the full 31x31 bigram table, stored row-major.
pub fn build_bigram_table(p: &KuehlmakParams, props: &Vec<KeyProps>, base: &Vec<(u8, u8)>) -> (t:
    Vec<u8>)
    requires
        props@.len() == 31,
        forall|k: int| 0 <= k < 31 ==> #[trigger] props@[k] == spec_key_props(*p, k),
        base@ == spec_scissor_base(p.board_type),
    ensures
        t@.len() == 961,
        forall|i: int, j: int|
            0 <= i < 31 && 0 <= j < 31 ==> t@[i * 31 + j] == spec_bigram_type(*p, i, j),
{
    let mut t: Vec<u8> = Vec::new();
    for i in 0..31usize
        invariant
            props@.len() == 31,
            forall|k: int| 0 <= k < 31 ==> #[trigger] props@[k] == spec_key_props(*p, k),
            base@ == spec_scissor_base(p.board_type),
            t@.len() == i * 31,
            forall|a: int, b: int|
                0 <= a < 31 && 0 <= b < 31 && a * 31 + b < i * 31 ==> #[trigger] t@[a * 31 + b]
                    == spec_bigram_type(*p, a, b),
    {
        for j in 0..31usize
            invariant
                props@.len() == 31,
                forall|k: int| 0 <= k < 31 ==> #[trigger] props@[k] == spec_key_props(*p, k),
                base@ == spec_scissor_base(p.board_type),
                i < 31,
                t@.len() == i * 31 + j,
                forall|a: int, b: int|
                    0 <= a < 31 && 0 <= b < 31 && a * 31 + b < i * 31 + j ==> #[trigger] t@[a * 31 + b]
                        == spec_bigram_type(*p, a, b),
        {
            let bt = bigram_type_at(p, props, base, i, j);
            t.push(bt);
            proof {
                assert forall|a: int, b: int|
                    0 <= a < 31 && 0 <= b < 31 && a * 31 + b < i * 31 + j + 1 implies t@[a * 31
                    + b] == spec_bigram_type(*p, a, b) by {
                    if a * 31 + b == i * 31 + j {
                        assert(a == i && b == j) by (nonlinear_arith)
                            requires
                                0 <= a < 31,
                                0 <= b < 31,
                                i < 31,
                                j < 31,
                                a * 31 + b == i as int * 31 + j as int,
                        ;
                    }
                }
            }
        }
    }
    t
}

/// Classify one ordered key triple, looking the inner pairs up in the
/// bigram table.
pub fn trigram_type_at(
    p: &KuehlmakParams,
    props: &Vec<KeyProps>,
    bt: &Vec<u8>,
    i: usize,
    j: usize,
    k: usize,
) -> (r: u8)
    requires
        props@.len() == 31,
        forall|m: int| 0 <= m < 31 ==> #[trigger] props@[m] == spec_key_props(*p, m),
        bt@.len() == 961,
        forall|a: int, b: int|
            0 <= a < 31 && 0 <= b < 31 ==> #[trigger] bt@[a * 31 + b] == spec_bigram_type(*p, a, b),
        i < 31,
        j < 31,
        k < 31,
    ensures
        r == spec_trigram_type(*p, i as int, j as int, k as int),
{
    let pi = props[i];
    let pj = props[j];
    let pk = props[k];
    proof {
        assert(bt@[i as int * 31 + k as int] == spec_bigram_type(*p, i as int, k as int));
        assert(bt@[i as int * 31 + j as int] == spec_bigram_type(*p, i as int, j as int));
        assert(bt@[j as int * 31 + k as int] == spec_bigram_type(*p, j as int, k as int));
    }
    if pi.hand == Hand::Any || pk.hand == Hand::Any {
        TRIGRAM_NONE
    } else if pi.hand == pk.hand && pi.hand != pj.hand {
        let b = bt[i * 31 + k];
        if b == BIGRAM_SFB {
            TRIGRAM_D_SFB
        } else if b == BIGRAM_DROLL {
            TRIGRAM_D_DROLL
        } else if b == BIGRAM_UROLL {
            TRIGRAM_D_UROLL
        } else if b == BIGRAM_SAMEKEY {
            TRIGRAM_D_SAMEKEY
        } else if b == BIGRAM_LSB1 {
            TRIGRAM_D_LSB1
        } else if b == BIGRAM_LSB2 {
            TRIGRAM_D_LSB2
        } else if b == BIGRAM_LSB3 {
            TRIGRAM_D_LSB3
        } else if b == BIGRAM_SCISSOR {
            TRIGRAM_D_SCISSOR
        } else {
            TRIGRAM_NONE
        }
    } else if pi.hand == pj.hand && pj.hand == pk.hand {
        if i == k && pi.finger != pj.finger {
            TRIGRAM_SHD_SAMEKEY
        } else if pi.finger == pk.finger && pi.finger != pj.finger {
            TRIGRAM_SHD_SFB
        } else if bt[i * 31 + j] >= BIGRAM_SAMEKEY && bt[j * 31 + k] >= BIGRAM_SAMEKEY {
            TRIGRAM_CONTORT
        } else if pi.finger != pj.finger && pj.finger != pk.finger && bt[i * 31 + k]
            == BIGRAM_SCISSOR {
            TRIGRAM_CONTORT
        } else if pi.finger != pj.finger && pj.finger != pk.finger && ((pk.finger > pj.finger) != (
        pj.finger > pi.finger)) {
            TRIGRAM_REDIRECT
        } else if BIGRAM_DROLL <= bt[i * 31 + j] && bt[i * 31 + j] < BIGRAM_LSB1 && BIGRAM_DROLL
            <= bt[j * 31 + k] && bt[j * 31 + k] < BIGRAM_LSB1 {
            TRIGRAM_RROLL
        } else {
            TRIGRAM_NONE
        }
    } else {
        TRIGRAM_NONE
    }
}

/// Build the full 31x31x31 trigram table, stored row-major.
pub fn build_trigram_table(p: &KuehlmakParams, props: &Vec<KeyProps>, bt: &Vec<u8>) -> (t: Vec<
    u8,
>)
    requires
        props@.len() == 31,
        forall|m: int| 0 <= m < 31 ==> #[trigger] props@[m] == spec_key_props(*p, m),
        bt@.len() == 961,
        forall|a: int, b: int|
            0 <= a < 31 && 0 <= b < 31 ==> #[trigger] bt@[a * 31 + b] == spec_bigram_type(*p, a, b),
    ensures
        t@.len() == 29791,
        forall|a: int, b: int, c: int|
            0 <= a < 31 && 0 <= b < 31 && 0 <= c < 31 ==> t@[(a * 31 + b) * 31 + c]
                == spec_trigram_type(*p, a, b, c),
{
    let mut t: Vec<u8> = Vec::new();
    let mut n: usize = 0;
    while n < 29791
        invariant
            props@.len() == 31,
            forall|m: int| 0 <= m < 31 ==> #[trigger] props@[m] == spec_key_props(*p, m),
            bt@.len() == 961,
            forall|a: int, b: int|
                0 <= a < 31 && 0 <= b < 31 ==> #[trigger] bt@[a * 31 + b] == spec_bigram_type(*p, a, b),
            n <= 29791,
            t@.len() == n,
            forall|a: int, b: int, c: int|
                0 <= a < 31 && 0 <= b < 31 && 0 <= c < 31 && (a * 31 + b) * 31 + c < n ==> t@[(a
                    * 31 + b) * 31 + c] == spec_trigram_type(*p, a, b, c),
        decreases 29791 - n,
    {
        let i = n / 961;
        let j = (n / 31) % 31;
        let k = n % 31;
        proof {
            assert((i as int * 31 + j as int) * 31 + k as int == n as int && (i as int) < 31 && (
            j as int) < 31 && (k as int) < 31) by (nonlinear_arith)
                requires
                    n < 29791,
                    i as int == n as int / 961,
                    j as int == (n as int / 31) % 31,
                    k as int == n as int % 31,
            ;
        }
        let tt = trigram_type_at(p, props, bt, i, j, k);
        t.push(tt);
        n += 1;
        proof {
            assert forall|a: int, b: int, c: int|
                0 <= a < 31 && 0 <= b < 31 && 0 <= c < 31 && (a * 31 + b) * 31 + c < n implies t@[(
            a * 31 + b) * 31 + c] == spec_trigram_type(*p, a, b, c) by {
                if (a * 31 + b) * 31 + c == n - 1 {
                    assert(a == i as int && b == j as int && c == k as int) by (nonlinear_arith)
                        requires
                            0 <= a < 31,
                            0 <= b < 31,
                            0 <= c < 31,
                            i < 31,
                            j < 31,
                            k < 31,
                            (a * 31 + b) * 31 + c == (i as int * 31 + j as int) * 31 + k as int,
                    ;
                }
            }
        }
    }
    t
}

} // verus!
