//! Random layout mutation for the annealing search: swap two keys, or
//! swap the key sets of two fingers.  Every move permutes the keys, and
//! on a layout with distinct keys every move changes the layout.

use vstd::prelude::*;
use rand::Rng;
use rand::rngs::SmallRng;
use crate::layout::{Layout, KeyGlyphs, lemma_swap_multiset, spec_glyph_at, spec_distinct_glyphs};
use crate::model::{
    KuehlmakModel, FINGER_TH, spec_key_finger, lemma_finger_keys_in_range,
    lemma_finger_keys_fingers, lemma_finger_keys_distinct, lemma_finger_keys_nonempty,
};

verus! {

#[verifier::external_type_specification]
#[verifier::external_body]
pub struct ExSmallRng(SmallRng);

/// Relies on rand's `Rng::gen_range` over `0..n`: the result lies below
/// `n`.  Nothing more is assumed of the drawn value.
#[verifier::external_body]
fn rand_below(rng: &mut SmallRng, n: u64) -> (r: u64)
    requires
        n > 0,
    ensures
        r < n,
{
    rng.gen_range(0..n)
}

/// Copy the 30 keys of a layout into a fresh vector.
fn copy_keys(l: &Layout) -> (r: Vec<KeyGlyphs>)
    ensures
        r@ == l@,
{
    let mut keys: Vec<KeyGlyphs> = Vec::new();
    let mut i: usize = 0;
    while i < l.keys.len()
        invariant
            i <= l@.len(),
            keys@ == l@.take(i as int),
        decreases l@.len() - i,
    {
        keys.push(l.keys[i]);
        i += 1;
        proof {
            assert(keys@ =~= l@.take(i as int));
        }
    }
    proof {
        assert(l@.take(l@.len() as int) =~= l@);
    }
    keys
}

/// The sequence with the entries at positions `a` and `b` exchanged.
pub open spec fn spec_swap_at(l: Seq<KeyGlyphs>, a: int, b: int) -> Seq<KeyGlyphs> {
    l.update(a, l[b]).update(b, l[a])
}

/// `r` is `l` with the keys at exactly two distinct positions exchanged.
pub open spec fn spec_is_transposition(l: Seq<KeyGlyphs>, r: Seq<KeyGlyphs>) -> bool {
    exists|a: int, b: int|
        0 <= a < 30 && 0 <= b < 30 && a != b && r == #[trigger] spec_swap_at(l, a, b)
}

/// `l` after exchanging, pairwise, the keys at the first `m` positions
/// of two aligned windows into the key lists `ka` (from `oa`) and `kb`
/// (from `ob`).
pub open spec fn spec_window_swap(
    l: Seq<KeyGlyphs>,
    ka: Seq<u8>,
    kb: Seq<u8>,
    oa: int,
    ob: int,
    m: int,
) -> Seq<KeyGlyphs>
    decreases m,
{
    if m <= 0 {
        l
    } else {
        spec_swap_at(
            spec_window_swap(l, ka, kb, oa, ob, m - 1),
            ka[oa + m - 1] as int,
            kb[ob + m - 1] as int,
        )
    }
}

/// `r` is `l` with the key lists of two distinct non-thumb fingers
/// exchanged pairwise over equal-length aligned windows; the shorter
/// finger's list is used in full.
pub open spec fn spec_is_finger_swap(m: KuehlmakModel, l: Seq<KeyGlyphs>, r: Seq<KeyGlyphs>) -> bool {
    exists|f0: int, f1: int, o0: int, o1: int, cnt: int|
        {
            &&& 0 <= f0 < 9
            &&& 0 <= f1 < 9
            &&& f0 != f1
            &&& f0 != FINGER_TH
            &&& f1 != FINGER_TH
            &&& 1 <= cnt
            &&& 0 <= o0
            &&& 0 <= o1
            &&& o0 + cnt <= m.finger_keys@[f0]@.len()
            &&& o1 + cnt <= m.finger_keys@[f1]@.len()
            &&& ((o0 == 0 && cnt == m.finger_keys@[f0]@.len()) || (o1 == 0 && cnt
                == m.finger_keys@[f1]@.len()))
            &&& r == #[trigger] spec_window_swap(
                l,
                m.finger_keys@[f0]@,
                m.finger_keys@[f1]@,
                o0,
                o1,
                cnt,
            )
        }
}

/// Exchange the keys at two positions.
fn swap_keys(keys: &mut Vec<KeyGlyphs>, a: usize, b: usize)
    requires
        a < old(keys)@.len(),
        b < old(keys)@.len(),
    ensures
        final(keys)@ == spec_swap_at(old(keys)@, a as int, b as int),
        final(keys)@.len() == old(keys)@.len(),
        final(keys)@.to_multiset() == old(keys)@.to_multiset(),
{
    let t = keys[a];
    let u = keys[b];
    keys.set(a, u);
    keys.set(b, t);
    proof {
        lemma_swap_multiset(old(keys)@, a as int, b as int);
    }
}

/// On a distinct layout, exchanging two distinct positions changes the
/// layout: the key moved to `a` differs from the key that was there.
proof fn lemma_swap_changes(l: Seq<KeyGlyphs>, r: Seq<KeyGlyphs>, a: int, b: int)
    requires
        l.len() == 30,
        spec_distinct_glyphs(l),
        0 <= a < 30,
        0 <= b < 30,
        a != b,
        r[a] == l[b],
    ensures
        r != l,
{
    assert(spec_glyph_at(l, 2 * a) == l[a].0);
    assert(spec_glyph_at(l, 2 * b) == l[b].0);
    assert(l[a].0 != l[b].0);
    if r == l {
        assert(r[a] == l[a]);
    }
}

impl KuehlmakModel {
    /// Propose a nearby layout: usually two distinct random key
    /// positions exchanged, and one time in nine the key lists of two
    /// distinct non-thumb fingers exchanged pairwise over a randomly
    /// aligned window.  The result is a permutation of the given
    /// layout's keys of exactly one of those two shapes, and differs
    /// from the layout whenever its keys are distinct.
    pub fn neighbor(&self, rng: &mut SmallRng, layout: &Layout) -> (r: Layout)
        requires
            self.wf(),
            layout.wf(),
        ensures
            r.wf(),
            r@.to_multiset() == layout@.to_multiset(),
            spec_is_transposition(layout@, r@) || spec_is_finger_swap(*self, layout@, r@),
            layout.distinct_glyphs() ==> r@ != layout@,
    {
        let mut keys = copy_keys(layout);
        let op = rand_below(rng, 9);
        if op < 8 {
            // Swap two distinct random key positions.
            let d = rand_below(rng, 870);
            let a = (d / 29) as usize;
            let b0 = (d % 29) as usize;
            proof {
                assert(d / 29 < 30 && d % 29 < 29) by (nonlinear_arith)
                    requires
                        d < 870,
                ;
            }
            let b = (a + b0 + 1) % 30;
            proof {
                let t = b0 + 1;
                if a + t < 30 {
                    vstd::arithmetic::div_mod::lemma_small_mod((a + t) as nat, 30);
                } else {
                    vstd::arithmetic::div_mod::lemma_mod_add_multiples_vanish(
                        a + t - 30,
                        30,
                    );
                    vstd::arithmetic::div_mod::lemma_small_mod((a + t - 30) as nat, 30);
                }
                assert(b != a);
            }
            swap_keys(&mut keys, a, b);
            proof {
                assert(spec_is_transposition(layout@, keys@));
                if layout.distinct_glyphs() {
                    assert(keys@[a as int] == layout@[b as int]);
                    lemma_swap_changes(layout@, keys@, a as int, b as int);
                }
            }
        } else {
            // Swap two distinct random fingers, thumb excluded.
            let d = rand_below(rng, 56);
            let f0_raw = (d / 7) as usize;
            let t1 = (d % 7) as usize + 1;
            proof {
                assert(d / 7 < 8 && d % 7 < 7) by (nonlinear_arith)
                    requires
                        d < 56,
                ;
            }
            let f1_raw = (f0_raw + t1) % 8;
            proof {
                if f0_raw + t1 < 8 {
                    vstd::arithmetic::div_mod::lemma_small_mod((f0_raw + t1) as nat, 8);
                } else {
                    vstd::arithmetic::div_mod::lemma_mod_add_multiples_vanish(
                        f0_raw + t1 - 8,
                        8,
                    );
                    vstd::arithmetic::div_mod::lemma_small_mod((f0_raw + t1 - 8) as nat, 8);
                }
                assert(f1_raw != f0_raw);
            }
            let f0 = if f0_raw < 4 {
                f0_raw
            } else {
                f0_raw + 1
            };
            let f1 = if f1_raw < 4 {
                f1_raw
            } else {
                f1_raw + 1
            };
            proof {
                lemma_finger_keys_in_range(self.params, f0 as u8, 30);
                lemma_finger_keys_in_range(self.params, f1 as u8, 30);
                lemma_finger_keys_fingers(self.params, f0 as u8, 30);
                lemma_finger_keys_fingers(self.params, f1 as u8, 30);
                lemma_finger_keys_distinct(self.params, f0 as u8, 30);
                lemma_finger_keys_nonempty(self.params, f0 as u8);
                lemma_finger_keys_nonempty(self.params, f1 as u8);
            }
            let ghost fka = self.finger_keys@[f0 as int]@;
            let ghost fkb = self.finger_keys@[f1 as int]@;
            let l0 = self.finger_keys[f0].len();
            let l1 = self.finger_keys[f1].len();
            let (o0, o1, cnt): (usize, usize, usize) = if l0 == l1 {
                (0, 0, l0)
            } else if l0 < l1 {
                let o = rand_below(rng, (l1 - l0 + 1) as u64) as usize;
                (0, o, l0)
            } else {
                let o = rand_below(rng, (l0 - l1 + 1) as u64) as usize;
                (o, 0, l1)
            };
            let ghost p0: int = fka[o0 as int] as int;
            let ghost q0: int = fkb[o1 as int] as int;
            let mut a: usize = 0;
            while a < cnt
                invariant
                    self.wf(),
                    layout.wf(),
                    f0 < 9,
                    f1 < 9,
                    f0 != f1,
                    fka == self.finger_keys@[f0 as int]@,
                    fkb == self.finger_keys@[f1 as int]@,
                    1 <= cnt,
                    o0 + cnt <= fka.len(),
                    o1 + cnt <= fkb.len(),
                    fka.len() <= 30,
                    fkb.len() <= 30,
                    forall|m: int| 0 <= m < fka.len() ==> #[trigger] fka[m] < 30,
                    forall|m: int| 0 <= m < fkb.len() ==> #[trigger] fkb[m] < 30,
                    forall|m: int|
                        0 <= m < fka.len() ==> spec_key_finger(self.params, #[trigger] fka[m] as int)
                            == f0 as u8,
                    forall|m: int|
                        0 <= m < fkb.len() ==> spec_key_finger(self.params, #[trigger] fkb[m] as int)
                            == f1 as u8,
                    forall|m1: int, m2: int|
                        0 <= m1 < m2 < fka.len() ==> #[trigger] fka[m1] != #[trigger] fka[m2],
                    p0 == fka[o0 as int] as int,
                    q0 == fkb[o1 as int] as int,
                    a <= cnt,
                    keys@.len() == 30,
                    keys@ == spec_window_swap(layout@, fka, fkb, o0 as int, o1 as int, a as int),
                    keys@.to_multiset() == layout@.to_multiset(),
                    a >= 1 ==> keys@[p0] == layout@[q0],
                decreases cnt - a,
            {
                let ka = self.finger_keys[f0][o0 + a] as usize;
                let kb = self.finger_keys[f1][o1 + a] as usize;
                let ghost before = keys@;
                proof {
                    assert(spec_key_finger(self.params, ka as int) == f0 as u8);
                    assert(spec_key_finger(self.params, kb as int) == f1 as u8);
                    assert(ka != kb);
                }
                swap_keys(&mut keys, ka, kb);
                a += 1;
                proof {
                    assert(keys@ == spec_window_swap(
                        layout@,
                        fka,
                        fkb,
                        o0 as int,
                        o1 as int,
                        a as int,
                    ));
                    if a == 1 {
                        assert(ka as int == p0 && kb as int == q0);
                        assert(before == layout@);
                        assert(keys@[p0] == layout@[q0]);
                    } else {
                        assert(ka as int != p0);
                        assert(kb as int != p0);
                        assert(keys@[p0] == before[p0]);
                    }
                }
            }
            proof {
                assert(spec_is_finger_swap(*self, layout@, keys@));
                if layout.distinct_glyphs() {
                    assert(p0 != q0);
                    assert(keys@[p0] == layout@[q0]);
                    lemma_swap_changes(layout@, keys@, p0, q0);
                }
            }
        }
        Layout { keys }
    }
}

/// Put the 30 keys of a layout in a random order, drawing each position
/// uniformly; the multiset of keys is unchanged.  Unlike `neighbor`,
/// returning the layout unchanged is a legitimate outcome of a shuffle.
pub fn shuffle_layout(rng: &mut SmallRng, layout: &Layout) -> (r: Layout)
    requires
        layout.wf(),
    ensures
        r.wf(),
        r@.to_multiset() == layout@.to_multiset(),
{
    let mut keys = copy_keys(layout);
    let mut i: usize = 29;
    while i >= 1
        invariant
            i <= 29,
            keys@.len() == 30,
            keys@.to_multiset() == layout@.to_multiset(),
        decreases i,
    {
        let j = rand_below(rng, (i + 1) as u64) as usize;
        swap_keys(&mut keys, i, j);
        i -= 1;
    }
    Layout { keys }
}

} // verus!
