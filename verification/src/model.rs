//! Board types, hands, fingers and the per-key properties derived from them.

use vstd::prelude::*;
use crate::layout::Layout;

verus! {

/// The physical board family; it fixes key costs, finger assignment
/// and which key pairs count as scissors or stretches.
#[derive(Clone, Copy, PartialEq, Eq, Structural, Debug)]
pub enum KeyboardType {
    Ortho,
    ColStag,
    Hex,
    HexStag,
    ANSI,
    Angle,
    ISO,
}

/// The hand that owns a key. `Any` is used only for the thumb key.
#[derive(Clone, Copy, PartialEq, Eq, Structural, Debug)]
pub enum Hand {
    L,
    R,
    Any,
}

pub open spec fn spec_hand_index(h: Hand) -> int {
    match h {
        Hand::L => 0,
        Hand::R => 1,
        Hand::Any => 2,
    }
}

pub fn hand_index(h: Hand) -> (r: usize)
    ensures
        r == spec_hand_index(h),
{
    match h {
        Hand::L => 0,
        Hand::R => 1,
        Hand::Any => 2,
    }
}

// Fingers are numbered left pinky to right pinky; the ordering encodes
// the direction of motion across the board.  4 is the thumb.
pub const FINGER_LP: u8 = 0;

pub const FINGER_LR: u8 = 1;

pub const FINGER_LM: u8 = 2;

pub const FINGER_LI: u8 = 3;

pub const FINGER_TH: u8 = 4;

pub const FINGER_RI: u8 = 5;

pub const FINGER_RM: u8 = 6;

pub const FINGER_RR: u8 = 7;

pub const FINGER_RP: u8 = 8;

pub const NUM_FINGERS: usize = 9;

/// Per-finger effort multipliers; heavier fingers make their keys dearer.
#[derive(Clone, Copy, Debug)]
pub struct KuehlmakWeights {
    pub index_finger: u8,
    pub middle_finger: u8,
    pub ring_finger: u8,
    pub pinky_finger: u8,
}

impl Default for KuehlmakWeights {
    /// Index and middle fingers count single, ring double, pinky sixfold.
    fn default() -> (r: Self)
        ensures
            r.index_finger == 1,
            r.middle_finger == 1,
            r.ring_finger == 2,
            r.pinky_finger == 6,
    {
        KuehlmakWeights { index_finger: 1, middle_finger: 1, ring_finger: 2, pinky_finger: 6 }
    }
}

/// The constraint configuration: key sets are held as plain glyph lists,
/// forced keys as already resolved (glyph, position) pairs.
#[derive(Clone, Debug)]
pub struct ConstraintParams {
    pub ref_layout: Option<Layout>,
    pub top_keys: Option<Vec<char>>,
    pub mid_keys: Option<Vec<char>>,
    pub bot_keys: Option<Vec<char>>,
    pub homing_keys: Option<Vec<char>>,
    pub homing_only_keys: Option<Vec<char>>,
    pub zxcv: bool,
    pub nonalpha: bool,
    pub forced_keys_vec: Vec<(char, usize)>,
}

impl Default for ConstraintParams {
    /// No constraints at all.
    fn default() -> (r: Self)
        ensures
            r.ref_layout is None,
            r.top_keys is None,
            r.mid_keys is None,
            r.bot_keys is None,
            r.homing_keys is None,
            r.homing_only_keys is None,
            !r.zxcv,
            !r.nonalpha,
            r.forced_keys_vec@.len() == 0,
    {
        ConstraintParams {
            ref_layout: None,
            top_keys: None,
            mid_keys: None,
            bot_keys: None,
            homing_keys: None,
            homing_only_keys: None,
            zxcv: false,
            nonalpha: false,
            forced_keys_vec: Vec::new(),
        }
    }
}

/// Everything the discrete model depends on: the board family, the hand
/// of the thumb key, finger weights and the constraint configuration.
#[derive(Clone, Debug)]
pub struct KuehlmakParams {
    pub board_type: KeyboardType,
    pub space_thumb: Hand,
    pub weights: KuehlmakWeights,
    pub constraints: ConstraintParams,
}

impl Default for KuehlmakParams {
    fn default() -> (r: Self)
        ensures
            r.board_type == KeyboardType::Ortho,
            r.space_thumb == Hand::Any,
            r.weights.pinky_finger == 6,
            r.constraints.ref_layout is None,
            r.constraints.forced_keys_vec@.len() == 0,
            !r.constraints.zxcv,
            !r.constraints.nonalpha,
            r.constraints.top_keys is None,
            r.constraints.mid_keys is None,
            r.constraints.bot_keys is None,
            r.constraints.homing_keys is None,
            r.constraints.homing_only_keys is None,
            r.weights.index_finger == 1 && r.weights.middle_finger == 1 && r.weights.ring_finger
                == 2,
    {
        KuehlmakParams {
            board_type: KeyboardType::Ortho,
            space_thumb: Hand::Any,
            weights: Default::default(),
            constraints: Default::default(),
        }
    }
}

/// True for the board families whose two halves mirror each other.
pub open spec fn spec_board_symmetrical(b: KeyboardType) -> bool {
    match b {
        KeyboardType::ANSI | KeyboardType::Angle | KeyboardType::ISO => false,
        _ => true,
    }
}

/// The hand that owns key `k` (0..=30): columns 0-4 left, 5-9 right,
/// the thumb key whatever the configuration says.
pub open spec fn spec_key_hand(p: KuehlmakParams, k: int) -> Hand {
    if k == 30 {
        p.space_thumb
    } else if k % 10 <= 4 {
        Hand::L
    } else {
        Hand::R
    }
}

/// The finger that owns key `k`.  Hex boards shift the top row outward
/// by one column; Angle boards slant the left bottom row to the right.
pub open spec fn spec_key_finger(p: KuehlmakParams, k: int) -> u8 {
    if k == 30 {
        FINGER_TH
    } else {
        let row = k / 10;
        let col = k % 10;
        if (p.board_type == KeyboardType::Hex || p.board_type == KeyboardType::HexStag) && row
            == 0 {
            if col <= 1 {
                FINGER_LP
            } else if col == 2 {
                FINGER_LR
            } else if col == 3 {
                FINGER_LM
            } else if col == 4 {
                FINGER_LI
            } else if col == 5 {
                FINGER_RI
            } else if col == 6 {
                FINGER_RM
            } else if col == 7 {
                FINGER_RR
            } else {
                FINGER_RP
            }
        } else if p.board_type == KeyboardType::Angle && row == 2 {
            if col == 0 {
                FINGER_LR
            } else if col == 1 {
                FINGER_LM
            } else if col <= 4 {
                FINGER_LI
            } else if col <= 6 {
                FINGER_RI
            } else if col == 7 {
                FINGER_RM
            } else if col == 8 {
                FINGER_RR
            } else {
                FINGER_RP
            }
        } else {
            if col == 0 {
                FINGER_LP
            } else if col == 1 {
                FINGER_LR
            } else if col == 2 {
                FINGER_LM
            } else if col <= 4 {
                FINGER_LI
            } else if col <= 6 {
                FINGER_RI
            } else if col == 7 {
                FINGER_RM
            } else if col == 8 {
                FINGER_RR
            } else {
                FINGER_RP
            }
        }
    }
}

/// Whether key `k` is an off-finger stretch reach.
pub open spec fn spec_key_stretch(p: KuehlmakParams, k: int) -> bool {
    if k == 30 {
        false
    } else {
        let row = k / 10;
        let col = k % 10;
        if (p.board_type == KeyboardType::Hex || p.board_type == KeyboardType::HexStag) && row
            == 0 {
            col == 0 || col == 9
        } else if p.board_type == KeyboardType::Angle && row == 2 {
            col == 3 || col == 4 || col == 5
        } else {
            col == 4 || col == 5
        }
    }
}

/// The weight of the finger owning a key; thumbs carry no cost.
pub open spec fn spec_finger_weight(w: KuehlmakWeights, f: u8) -> u8 {
    if f == FINGER_LP || f == FINGER_RP {
        w.pinky_finger
    } else if f == FINGER_LR || f == FINGER_RR {
        w.ring_finger
    } else if f == FINGER_LM || f == FINGER_RM {
        w.middle_finger
    } else if f == FINGER_LI || f == FINGER_RI {
        w.index_finger
    } else {
        0
    }
}

/// The geometric cost of each of the 31 key positions for a board family.
pub open spec fn spec_key_cost_seq(b: KeyboardType) -> Seq<u8> {
    match b {
        KeyboardType::Ortho => seq![
            4u8, 2, 2, 4, 12, 12, 4, 2, 2, 4, 1, 1, 1, 1, 3, 3, 1, 1, 1, 1, 2, 4, 4, 2, 6, 6, 2,
            4, 4, 2, 1
        ],
        KeyboardType::ColStag => seq![
            2u8, 2, 2, 2, 6, 6, 2, 2, 2, 2, 1, 1, 1, 1, 3, 3, 1, 1, 1, 1, 2, 2, 2, 2, 6, 6, 2, 2,
            2, 2, 1
        ],
        KeyboardType::Hex => seq![
            3u8, 4, 2, 2, 4, 4, 2, 2, 4, 3, 1, 1, 1, 1, 3, 3, 1, 1, 1, 1, 2, 4, 4, 2, 6, 6, 2, 4,
            4, 2, 1
        ],
        KeyboardType::HexStag => seq![
            2u8, 3, 2, 2, 2, 2, 2, 2, 3, 2, 1, 1, 1, 1, 3, 3, 1, 1, 1, 1, 2, 2, 2, 2, 6, 6, 2, 2,
            2, 2, 1
        ],
        KeyboardType::ANSI => seq![
            4u8, 2, 2, 4, 6, 12, 4, 2, 2, 4, 1, 1, 1, 1, 3, 3, 1, 1, 1, 1, 2, 4, 4, 2, 9, 3, 2,
            4, 4, 2, 1
        ],
        KeyboardType::Angle => seq![
            4u8, 2, 2, 4, 6, 12, 4, 2, 2, 4, 1, 1, 1, 1, 3, 3, 1, 1, 1, 1, 4, 4, 2, 3, 12, 3, 2,
            4, 4, 2, 1
        ],
        KeyboardType::ISO => seq![
            4u8, 2, 2, 4, 6, 12, 4, 2, 2, 4, 1, 1, 1, 1, 3, 3, 1, 1, 1, 1, 2, 4, 4, 2, 3, 3, 2,
            4, 4, 2, 1
        ],
    }
}

pub open spec fn spec_key_cost(b: KeyboardType, k: int) -> u8 {
    spec_key_cost_seq(b)[k]
}

/// The discrete properties of one key position.
#[derive(Clone, Copy, PartialEq, Eq, Structural, Debug)]
pub struct KeyProps {
    pub hand: Hand,
    pub finger: u8,
    pub is_stretch: bool,
    pub cost: u16,
}

pub open spec fn spec_key_props(p: KuehlmakParams, k: int) -> KeyProps {
    KeyProps {
        hand: spec_key_hand(p, k),
        finger: spec_key_finger(p, k),
        is_stretch: spec_key_stretch(p, k),
        cost: (spec_key_cost(p.board_type, k) * spec_finger_weight(
            p.weights,
            spec_key_finger(p, k),
        )) as u16,
    }
}

/// Build the cost table of a board as a vector of 31 entries.
pub fn key_cost_table(b: KeyboardType) -> (v: Vec<u8>)
    ensures
        v@ == spec_key_cost_seq(b),
{
    let v: Vec<u8> = match b {
        KeyboardType::Ortho => vec![
            4u8, 2, 2, 4, 12, 12, 4, 2, 2, 4, 1, 1, 1, 1, 3, 3, 1, 1, 1, 1, 2, 4, 4, 2, 6, 6, 2,
            4, 4, 2, 1
        ],
        KeyboardType::ColStag => vec![
            2u8, 2, 2, 2, 6, 6, 2, 2, 2, 2, 1, 1, 1, 1, 3, 3, 1, 1, 1, 1, 2, 2, 2, 2, 6, 6, 2, 2,
            2, 2, 1
        ],
        KeyboardType::Hex => vec![
            3u8, 4, 2, 2, 4, 4, 2, 2, 4, 3, 1, 1, 1, 1, 3, 3, 1, 1, 1, 1, 2, 4, 4, 2, 6, 6, 2, 4,
            4, 2, 1
        ],
        KeyboardType::HexStag => vec![
            2u8, 3, 2, 2, 2, 2, 2, 2, 3, 2, 1, 1, 1, 1, 3, 3, 1, 1, 1, 1, 2, 2, 2, 2, 6, 6, 2, 2,
            2, 2, 1
        ],
        KeyboardType::ANSI => vec![
            4u8, 2, 2, 4, 6, 12, 4, 2, 2, 4, 1, 1, 1, 1, 3, 3, 1, 1, 1, 1, 2, 4, 4, 2, 9, 3, 2,
            4, 4, 2, 1
        ],
        KeyboardType::Angle => vec![
            4u8, 2, 2, 4, 6, 12, 4, 2, 2, 4, 1, 1, 1, 1, 3, 3, 1, 1, 1, 1, 4, 4, 2, 3, 12, 3, 2,
            4, 4, 2, 1
        ],
        KeyboardType::ISO => vec![
            4u8, 2, 2, 4, 6, 12, 4, 2, 2, 4, 1, 1, 1, 1, 3, 3, 1, 1, 1, 1, 2, 4, 4, 2, 3, 3, 2,
            4, 4, 2, 1
        ],
    };
    proof {
        assert(v@ =~= spec_key_cost_seq(b));
    }
    v
}

/// Compute the discrete properties of key `k` under the given parameters.
pub fn key_props_at(p: &KuehlmakParams, costs: &Vec<u8>, k: usize) -> (r: KeyProps)
    requires
        costs@ == spec_key_cost_seq(p.board_type),
        k <= 30,
    ensures
        r == spec_key_props(*p, k as int),
{
    let hand: Hand = if k == 30 {
        p.space_thumb
    } else if k % 10 <= 4 {
        Hand::L
    } else {
        Hand::R
    };
    let finger: u8 = if k == 30 {
        FINGER_TH
    } else {
        let row = k / 10;
        let col = k % 10;
        let hexish = match p.board_type {
            KeyboardType::Hex | KeyboardType::HexStag => true,
            _ => false,
        };
        let anglish = match p.board_type {
            KeyboardType::Angle => true,
            _ => false,
        };
        if hexish && row == 0 {
            if col <= 1 {
                FINGER_LP
            } else if col == 2 {
                FINGER_LR
            } else if col == 3 {
                FINGER_LM
            } else if col == 4 {
                FINGER_LI
            } else if col == 5 {
                FINGER_RI
            } else if col == 6 {
                FINGER_RM
            } else if col == 7 {
                FINGER_RR
            } else {
                FINGER_RP
            }
        } else if anglish && row == 2 {
            if col == 0 {
                FINGER_LR
            } else if col == 1 {
                FINGER_LM
            } else if col <= 4 {
                FINGER_LI
            } else if col <= 6 {
                FINGER_RI
            } else if col == 7 {
                FINGER_RM
            } else if col == 8 {
                FINGER_RR
            } else {
                FINGER_RP
            }
        } else {
            if col == 0 {
                FINGER_LP
            } else if col == 1 {
                FINGER_LR
            } else if col == 2 {
                FINGER_LM
            } else if col <= 4 {
                FINGER_LI
            } else if col <= 6 {
                FINGER_RI
            } else if col == 7 {
                FINGER_RM
            } else if col == 8 {
                FINGER_RR
            } else {
                FINGER_RP
            }
        }
    };
    let is_stretch: bool = if k == 30 {
        false
    } else {
        let row = k / 10;
        let col = k % 10;
        let hexish = match p.board_type {
            KeyboardType::Hex | KeyboardType::HexStag => true,
            _ => false,
        };
        let anglish = match p.board_type {
            KeyboardType::Angle => true,
            _ => false,
        };
        if hexish && row == 0 {
            col == 0 || col == 9
        } else if anglish && row == 2 {
            col == 3 || col == 4 || col == 5
        } else {
            col == 4 || col == 5
        }
    };
    let w = if finger == FINGER_LP || finger == FINGER_RP {
        p.weights.pinky_finger
    } else if finger == FINGER_LR || finger == FINGER_RR {
        p.weights.ring_finger
    } else if finger == FINGER_LM || finger == FINGER_RM {
        p.weights.middle_finger
    } else if finger == FINGER_LI || finger == FINGER_RI {
        p.weights.index_finger
    } else {
        0
    };
    let c = costs[k];
    proof {
        assert(c as int * w as int <= 255 * 255) by (nonlinear_arith)
            requires
                0 <= c as int <= 255,
                0 <= w as int <= 255,
        ;
    }
    let cost = (c as u16) * (w as u16);
    KeyProps { hand, finger, is_stretch, cost }
}

/// The cost of a key position under the given parameters.
pub open spec fn spec_key_props_cost(p: KuehlmakParams, k: int) -> u16 {
    spec_key_props(p, k).cost
}

/// The 30 main-block keys enumerated symmetrically: for each row the
/// columns from the outside in, left key before its mirror.
pub open spec fn spec_sym_order() -> Seq<u8> {
    seq![
        0u8, 9, 1, 8, 2, 7, 3, 6, 4, 5, 10, 19, 11, 18, 12, 17, 13, 16, 14, 15, 20, 29, 21, 28,
        22, 27, 23, 26, 24, 25
    ]
}

/// The keys owned by finger `f` among the first `n` entries of the
/// symmetric enumeration.
pub open spec fn spec_fk_prefix(p: KuehlmakParams, f: u8, n: int) -> Seq<u8>
    decreases n,
{
    if n <= 0 {
        Seq::empty()
    } else {
        let prev = spec_fk_prefix(p, f, n - 1);
        let k = spec_sym_order()[n - 1];
        if spec_key_finger(p, k as int) == f {
            prev.push(k)
        } else {
            prev
        }
    }
}

/// The keys owned by finger `f`, in symmetric order.
pub open spec fn spec_finger_keys(p: KuehlmakParams, f: u8) -> Seq<u8> {
    spec_fk_prefix(p, f, 30)
}

/// Every key in a finger's list lies on the main block.
pub proof fn lemma_finger_keys_in_range(p: KuehlmakParams, f: u8, n: int)
    requires
        0 <= n <= 30,
    ensures
        forall|m: int|
            0 <= m < spec_fk_prefix(p, f, n).len() ==> #[trigger] spec_fk_prefix(p, f, n)[m] < 30,
        spec_fk_prefix(p, f, n).len() <= n,
    decreases n,
{
    if n > 0 {
        lemma_finger_keys_in_range(p, f, n - 1);
        let prev = spec_fk_prefix(p, f, n - 1);
        let k = spec_sym_order()[n - 1];
        assert(k < 30);
        assert forall|m: int| 0 <= m < spec_fk_prefix(p, f, n).len() implies #[trigger] spec_fk_prefix(
            p,
            f,
            n,
        )[m] < 30 by {
            if spec_key_finger(p, k as int) == f {
                assert(spec_fk_prefix(p, f, n) == prev.push(k));
                if m < prev.len() {
                    assert(prev.push(k)[m] == prev[m]);
                } else {
                    assert(prev.push(k)[m] == k);
                }
            } else {
                assert(spec_fk_prefix(p, f, n) == prev);
            }
        }
    }
}

/// The symmetric enumeration lists every main-block key once.
pub proof fn lemma_sym_order_distinct()
    ensures
        forall|m1: int, m2: int|
            0 <= m1 < m2 < 30 ==> spec_sym_order()[m1] != spec_sym_order()[m2],
{
    assert forall|m1: int, m2: int| 0 <= m1 < m2 < 30 implies spec_sym_order()[m1]
        != spec_sym_order()[m2] by {}
}

/// Every key in a finger's list is owned by that finger.
pub proof fn lemma_finger_keys_fingers(p: KuehlmakParams, f: u8, n: int)
    requires
        0 <= n <= 30,
    ensures
        forall|i: int|
            0 <= i < spec_fk_prefix(p, f, n).len() ==> spec_key_finger(
                p,
                #[trigger] spec_fk_prefix(p, f, n)[i] as int,
            ) == f,
    decreases n,
{
    if n > 0 {
        lemma_finger_keys_fingers(p, f, n - 1);
        let prev = spec_fk_prefix(p, f, n - 1);
        let k = spec_sym_order()[n - 1];
        assert forall|i: int| 0 <= i < spec_fk_prefix(p, f, n).len() implies spec_key_finger(
            p,
            #[trigger] spec_fk_prefix(p, f, n)[i] as int,
        ) == f by {
            if spec_key_finger(p, k as int) == f {
                assert(spec_fk_prefix(p, f, n) == prev.push(k));
                if i < prev.len() {
                    assert(prev.push(k)[i] == prev[i]);
                } else {
                    assert(prev.push(k)[i] == k);
                }
            } else {
                assert(spec_fk_prefix(p, f, n) == prev);
            }
        }
    }
}

/// Every key in a finger's list comes from the symmetric enumeration.
proof fn lemma_fk_prefix_src(p: KuehlmakParams, f: u8, n: int)
    requires
        0 <= n <= 30,
    ensures
        forall|i: int|
            0 <= i < spec_fk_prefix(p, f, n).len() ==> exists|m: int|
                0 <= m < n && #[trigger] spec_fk_prefix(p, f, n)[i] == spec_sym_order()[m],
    decreases n,
{
    if n > 0 {
        lemma_fk_prefix_src(p, f, n - 1);
        let prev = spec_fk_prefix(p, f, n - 1);
        let k = spec_sym_order()[n - 1];
        assert forall|i: int| 0 <= i < spec_fk_prefix(p, f, n).len() implies exists|m: int|
            0 <= m < n && #[trigger] spec_fk_prefix(p, f, n)[i] == spec_sym_order()[m] by {
            if spec_key_finger(p, k as int) == f {
                assert(spec_fk_prefix(p, f, n) == prev.push(k));
                if i < prev.len() {
                    assert(prev.push(k)[i] == prev[i]);
                    let m = choose|m: int| 0 <= m < n - 1 && prev[i] == spec_sym_order()[m];
                    assert(spec_fk_prefix(p, f, n)[i] == spec_sym_order()[m]);
                } else {
                    assert(prev.push(k)[i] == spec_sym_order()[n - 1]);
                }
            } else {
                assert(spec_fk_prefix(p, f, n) == prev);
                let m = choose|m: int| 0 <= m < n - 1 && prev[i] == spec_sym_order()[m];
                assert(spec_fk_prefix(p, f, n)[i] == spec_sym_order()[m]);
            }
        }
    }
}

/// No key appears twice in a finger's list.
pub proof fn lemma_finger_keys_distinct(p: KuehlmakParams, f: u8, n: int)
    requires
        0 <= n <= 30,
    ensures
        forall|i: int, j: int|
            0 <= i < j < spec_fk_prefix(p, f, n).len() ==> #[trigger] spec_fk_prefix(p, f, n)[i]
                != #[trigger] spec_fk_prefix(p, f, n)[j],
    decreases n,
{
    if n > 0 {
        lemma_finger_keys_distinct(p, f, n - 1);
        lemma_fk_prefix_src(p, f, n - 1);
        lemma_sym_order_distinct();
        let prev = spec_fk_prefix(p, f, n - 1);
        let k = spec_sym_order()[n - 1];
        assert forall|i: int, j: int| 0 <= i < j < spec_fk_prefix(p, f, n).len() implies
            #[trigger] spec_fk_prefix(p, f, n)[i] != #[trigger] spec_fk_prefix(p, f, n)[j] by {
            if spec_key_finger(p, k as int) == f {
                assert(spec_fk_prefix(p, f, n) == prev.push(k));
                if j < prev.len() {
                    assert(prev.push(k)[i] == prev[i] && prev.push(k)[j] == prev[j]);
                } else {
                    assert(prev.push(k)[i] == prev[i] && prev.push(k)[j] == k);
                    let m = choose|m: int| 0 <= m < n - 1 && prev[i] == spec_sym_order()[m];
                    assert(spec_sym_order()[m] != spec_sym_order()[n - 1]);
                }
            } else {
                assert(spec_fk_prefix(p, f, n) == prev);
            }
        }
    }
}

/// Every finger but the thumb owns at least one key: its home-row key,
/// which every board family assigns the same way.
pub proof fn lemma_finger_keys_nonempty(p: KuehlmakParams, f: u8)
    requires
        f < 9,
        f != FINGER_TH,
    ensures
        spec_finger_keys(p, f).len() >= 1,
{
    let (k, m): (u8, int) = if f == FINGER_LP {
        (10u8, 10int)
    } else if f == FINGER_LR {
        (11u8, 12int)
    } else if f == FINGER_LM {
        (12u8, 14int)
    } else if f == FINGER_LI {
        (13u8, 16int)
    } else if f == FINGER_RI {
        (16u8, 17int)
    } else if f == FINGER_RM {
        (17u8, 15int)
    } else if f == FINGER_RR {
        (18u8, 13int)
    } else {
        (19u8, 11int)
    };
    assert(spec_sym_order()[m] == k);
    assert(spec_key_finger(p, k as int) == f);
    assert(spec_fk_prefix(p, f, m + 1).len() >= 1) by {
        assert(spec_fk_prefix(p, f, m + 1) == spec_fk_prefix(p, f, m).push(k));
    }
    lemma_fk_prefix_len_mono(p, f, m + 1, 30);
}

/// A finger's list only grows along the symmetric enumeration.
proof fn lemma_fk_prefix_len_mono(p: KuehlmakParams, f: u8, i: int, j: int)
    requires
        0 <= i <= j,
    ensures
        spec_fk_prefix(p, f, i).len() <= spec_fk_prefix(p, f, j).len(),
    decreases j - i,
{
    if i < j {
        lemma_fk_prefix_len_mono(p, f, i, j - 1);
    }
}

/// The immutable evaluation model: parameters plus every table that is
/// precomputed once and shared by all evaluations.
#[derive(Clone, Debug)]
pub struct KuehlmakModel {
    pub params: KuehlmakParams,
    pub key_props: Vec<KeyProps>,
    pub bigram_types: Vec<u8>,
    pub trigram_types: Vec<u8>,
    pub key_cost_ranking: Vec<usize>,
    pub finger_keys: Vec<Vec<u8>>,
}

impl KuehlmakModel {
    /// Every table of the model agrees with its defining specification.
    pub open spec fn wf(self) -> bool {
        &&& self.key_props@.len() == 31
        &&& forall|k: int|
            0 <= k < 31 ==> #[trigger] self.key_props@[k] == spec_key_props(self.params, k)
        &&& self.bigram_types@.len() == 961
        &&& forall|i: int, j: int|
            0 <= i < 31 && 0 <= j < 31 ==> #[trigger] self.bigram_types@[i * 31 + j]
                == crate::classify::spec_bigram_type(self.params, i, j)
        &&& self.trigram_types@.len() == 29791
        &&& forall|i: int, j: int, k: int|
            0 <= i < 31 && 0 <= j < 31 && 0 <= k < 31 ==> #[trigger] self.trigram_types@[(i * 31
                + j) * 31 + k] == crate::classify::spec_trigram_type(self.params, i, j, k)
        &&& self.key_cost_ranking@.len() == 30
        &&& forall|m: int| 0 <= m < 30 ==> #[trigger] self.key_cost_ranking@[m] < 30
        &&& forall|a: int, b: int|
            0 <= a <= b < 30 ==> spec_key_props_cost(
                self.params,
                #[trigger] self.key_cost_ranking@[a] as int,
            ) <= spec_key_props_cost(self.params, #[trigger] self.key_cost_ranking@[b] as int)
        &&& self.key_cost_ranking@.to_multiset() == Seq::new(
            30,
            |x: int| x as usize,
        ).to_multiset()
        &&& self.finger_keys@.len() == 9
        &&& forall|f: int|
            0 <= f < 9 ==> (#[trigger] self.finger_keys@[f])@ == spec_finger_keys(
                self.params,
                f as u8,
            )
    }

    /// The bigram category of the key pair (i, j), from the table.
    pub fn bigram_type(&self, i: usize, j: usize) -> (r: u8)
        requires
            self.wf(),
            i < 31,
            j < 31,
        ensures
            r == crate::classify::spec_bigram_type(self.params, i as int, j as int),
    {
        self.bigram_types[i * 31 + j]
    }

    /// The trigram category of the key triple (i, j, k), from the table.
    pub fn trigram_type(&self, i: usize, j: usize, k: usize) -> (r: u8)
        requires
            self.wf(),
            i < 31,
            j < 31,
            k < 31,
        ensures
            r == crate::classify::spec_trigram_type(self.params, i as int, j as int, k as int),
    {
        self.trigram_types[(i * 31 + j) * 31 + k]
    }

    /// The 30 main-block key indices ordered by ascending key cost.
    pub fn key_cost_ranking(&self) -> (r: &Vec<usize>)
        ensures
            r == &self.key_cost_ranking,
    {
        &self.key_cost_ranking
    }

    /// A model is symmetrical when its board family mirrors and no
    /// configured constraint distinguishes the two halves.
    pub open spec fn spec_is_symmetrical(self) -> bool {
        spec_board_symmetrical(self.params.board_type) && self.params.space_thumb == Hand::Any
            && self.params.constraints.ref_layout is None && !self.params.constraints.zxcv
            && !self.params.constraints.nonalpha
    }

    pub fn is_symmetrical(&self) -> (r: bool)
        ensures
            r == self.spec_is_symmetrical(),
    {
        let board_ok = match self.params.board_type {
            KeyboardType::ANSI | KeyboardType::Angle | KeyboardType::ISO => false,
            _ => true,
        };
        board_ok && self.params.space_thumb == Hand::Any && (match self.params.constraints
            .ref_layout {
            Option::None => true,
            Option::Some(_) => false,
        }) && !self.params.constraints.zxcv && !self.params.constraints.nonalpha
    }

    /// Build a model: per-key properties, both classifier tables, the
    /// cost ranking and the per-finger key lists.
    pub fn new(params: Option<KuehlmakParams>) -> (m: KuehlmakModel)
        ensures
            m.wf(),
            params matches Some(p) ==> m.params == p,
            params is None ==> m.params.board_type == KeyboardType::Ortho && m.params.space_thumb
                == Hand::Any && m.params.constraints.ref_layout is None
                && !m.params.constraints.zxcv && !m.params.constraints.nonalpha
                && m.params.constraints.forced_keys_vec@.len() == 0
                && m.params.constraints.top_keys is None && m.params.constraints.mid_keys is None
                && m.params.constraints.bot_keys is None && m.params.constraints.homing_keys
                is None && m.params.constraints.homing_only_keys is None,
    {
        let p: KuehlmakParams = match params {
            Option::Some(p) => p,
            Option::None => Default::default(),
        };
        let costs = key_cost_table(p.board_type);
        let mut key_props: Vec<KeyProps> = Vec::new();
        for k in 0..31usize
            invariant
                costs@ == spec_key_cost_seq(p.board_type),
                key_props@.len() == k,
                forall|m: int| 0 <= m < k ==> #[trigger] key_props@[m] == spec_key_props(p, m),
        {
            let kp = key_props_at(&p, &costs, k);
            key_props.push(kp);
        }
        let base = crate::classify::scissor_base_list(p.board_type);
        let bigram_types = crate::classify::build_bigram_table(&p, &key_props, &base);
        let trigram_types = crate::classify::build_trigram_table(&p, &key_props, &bigram_types);
        let key_cost_ranking = build_cost_ranking(&p, &key_props);
        let finger_keys = build_finger_keys(&p, &key_props);
        KuehlmakModel { params: p, key_props, bigram_types, trigram_types, key_cost_ranking, finger_keys }
    }
}

/// Sort the 30 main-block key indices by ascending key cost.
fn build_cost_ranking(p: &KuehlmakParams, props: &Vec<KeyProps>) -> (rank: Vec<usize>)
    requires
        props@.len() == 31,
        forall|m: int| 0 <= m < 31 ==> #[trigger] props@[m] == spec_key_props(*p, m),
    ensures
        rank@.len() == 30,
        forall|m: int| 0 <= m < 30 ==> #[trigger] rank@[m] < 30,
        forall|a: int, b: int|
            0 <= a <= b < 30 ==> spec_key_props_cost(*p, #[trigger] rank@[a] as int)
                <= spec_key_props_cost(*p, #[trigger] rank@[b] as int),
        rank@.to_multiset() == Seq::new(30, |x: int| x as usize).to_multiset(),
{
    let mut rank: Vec<usize> = Vec::new();
    for idx in 0..30usize
        invariant
            rank@.len() == idx,
            forall|m: int| 0 <= m < idx ==> #[trigger] rank@[m] == m,
    {
        rank.push(idx);
    }
    proof {
        assert(rank@ =~= Seq::new(30, |x: int| x as usize));
    }
    let ghost iota = rank@;
    let mut i: usize = 1;
    while i < 30
        invariant
            props@.len() == 31,
            forall|m: int| 0 <= m < 31 ==> #[trigger] props@[m] == spec_key_props(*p, m),
            1 <= i <= 30,
            rank@.len() == 30,
            forall|m: int| 0 <= m < 30 ==> #[trigger] rank@[m] < 30,
            rank@.to_multiset() == iota.to_multiset(),
            forall|a: int, b: int|
                0 <= a <= b < i ==> spec_key_props_cost(*p, #[trigger] rank@[a] as int)
                    <= spec_key_props_cost(*p, #[trigger] rank@[b] as int),
        decreases 30 - i,
    {
        let mut j: usize = i;
        while j > 0 && props[rank[j - 1]].cost > props[rank[j]].cost
            invariant
                props@.len() == 31,
                forall|m: int| 0 <= m < 31 ==> #[trigger] props@[m] == spec_key_props(*p, m),
                1 <= i < 30,
                0 <= j <= i,
                rank@.len() == 30,
                forall|m: int| 0 <= m < 30 ==> #[trigger] rank@[m] < 30,
                rank@.to_multiset() == iota.to_multiset(),
                forall|a: int, b: int|
                    0 <= a <= b <= i && b != j ==> spec_key_props_cost(
                        *p,
                        #[trigger] rank@[a] as int,
                    ) <= spec_key_props_cost(*p, #[trigger] rank@[b] as int),
            decreases j,
        {
            let ghost before = rank@;
            let t = rank[j - 1];
            let u = rank[j];
            rank.set(j - 1, u);
            rank.set(j, t);
            proof {
                assert(rank@ =~= before.update(j - 1, before[j as int]).update(
                    j as int,
                    before[j - 1],
                ));
                crate::layout::lemma_swap_multiset(before, j - 1, j as int);
            }
            j -= 1;
        }
        i += 1;
    }
    proof {
        assert(rank@.to_multiset() =~= Seq::new(30, |x: int| x as usize).to_multiset());
    }
    rank
}

/// Collect the keys of each finger in symmetric order.
fn build_finger_keys(p: &KuehlmakParams, props: &Vec<KeyProps>) -> (fks: Vec<Vec<u8>>)
    requires
        props@.len() == 31,
        forall|m: int| 0 <= m < 31 ==> #[trigger] props@[m] == spec_key_props(*p, m),
    ensures
        fks@.len() == 9,
        forall|f: int| 0 <= f < 9 ==> (#[trigger] fks@[f])@ == spec_finger_keys(*p, f as u8),
{
    let order: Vec<u8> = vec![
        0u8, 9, 1, 8, 2, 7, 3, 6, 4, 5, 10, 19, 11, 18, 12, 17, 13, 16, 14, 15, 20, 29, 21, 28,
        22, 27, 23, 26, 24, 25
    ];
    proof {
        assert(order@ =~= spec_sym_order());
    }
    let mut fk0: Vec<u8> = Vec::new();
    let mut fk1: Vec<u8> = Vec::new();
    let mut fk2: Vec<u8> = Vec::new();
    let mut fk3: Vec<u8> = Vec::new();
    let mut fk4: Vec<u8> = Vec::new();
    let mut fk5: Vec<u8> = Vec::new();
    let mut fk6: Vec<u8> = Vec::new();
    let mut fk7: Vec<u8> = Vec::new();
    let mut fk8: Vec<u8> = Vec::new();
    for n in 0..30usize
        invariant
            props@.len() == 31,
            forall|m: int| 0 <= m < 31 ==> #[trigger] props@[m] == spec_key_props(*p, m),
            order@ == spec_sym_order(),
            fk0@ == spec_fk_prefix(*p, 0, n as int),
            fk1@ == spec_fk_prefix(*p, 1, n as int),
            fk2@ == spec_fk_prefix(*p, 2, n as int),
            fk3@ == spec_fk_prefix(*p, 3, n as int),
            fk4@ == spec_fk_prefix(*p, 4, n as int),
            fk5@ == spec_fk_prefix(*p, 5, n as int),
            fk6@ == spec_fk_prefix(*p, 6, n as int),
            fk7@ == spec_fk_prefix(*p, 7, n as int),
            fk8@ == spec_fk_prefix(*p, 8, n as int),
    {
        let k = order[n];
        proof {
            assert(spec_sym_order()[n as int] < 30);
        }
        let f = props[k as usize].finger;
        proof {
            assert(f == spec_key_finger(*p, k as int));
        }
        if f == FINGER_LP {
            fk0.push(k);
        } else if f == FINGER_LR {
            fk1.push(k);
        } else if f == FINGER_LM {
            fk2.push(k);
        } else if f == FINGER_LI {
            fk3.push(k);
        } else if f == FINGER_TH {
            fk4.push(k);
        } else if f == FINGER_RI {
            fk5.push(k);
        } else if f == FINGER_RM {
            fk6.push(k);
        } else if f == FINGER_RR {
            fk7.push(k);
        } else {
            proof {
                assert(f == FINGER_RP);
            }
            fk8.push(k);
        }
    }
    let mut fks: Vec<Vec<u8>> = Vec::new();
    fks.push(fk0);
    fks.push(fk1);
    fks.push(fk2);
    fks.push(fk3);
    fks.push(fk4);
    fks.push(fk5);
    fks.push(fk6);
    fks.push(fk7);
    fks.push(fk8);
    proof {
        assert forall|f: int| 0 <= f < 9 implies (#[trigger] fks@[f])@ == spec_finger_keys(
            *p,
            f as u8,
        ) by {
            if f == 0 {
            } else if f == 1 {
            } else if f == 2 {
            } else if f == 3 {
            } else if f == 4 {
            } else if f == 5 {
            } else if f == 6 {
            } else if f == 7 {
            } else {
            }
        }
    }
    fks
}

} // verus!
