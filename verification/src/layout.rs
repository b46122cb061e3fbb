//! The layout data type: 30 keys in row-major order, two glyphs per key.

use vstd::prelude::*;

verus! {

/// One key: primary (unshifted) glyph and secondary (shifted) glyph.
pub type KeyGlyphs = (char, char);

/// A keyboard layout: 3 rows of 10 keys, row-major.
#[derive(Clone, Debug, PartialEq, Eq)]
pub struct Layout {
    pub keys: Vec<KeyGlyphs>,
}

impl View for Layout {
    type V = Seq<KeyGlyphs>;

    open spec fn view(&self) -> Seq<KeyGlyphs> {
        self.keys@
    }
}

impl Layout {
    /// The shape every layout must have: exactly 30 keys.
    pub open spec fn wf(&self) -> bool {
        self@.len() == 30
    }

    /// No glyph occurs twice across all 60 slots.
    pub open spec fn distinct_glyphs(&self) -> bool {
        spec_distinct_glyphs(self@)
    }

    /// Copy the key vector into a fresh layout value.
    pub fn duplicate(&self) -> (r: Layout)
        ensures
            r@ == self@,
    {
        let mut keys: Vec<KeyGlyphs> = Vec::new();
        let mut i: usize = 0;
        while i < self.keys.len()
            invariant
                i <= self@.len(),
                keys@ == self@.take(i as int),
            decreases self@.len() - i,
        {
            keys.push(self.keys[i]);
            i += 1;
            proof {
                assert(keys@ =~= self@.take(i as int));
            }
        }
        proof {
            assert(self@.take(self@.len() as int) =~= self@);
        }
        Layout { keys }
    }
}

/// The glyph at flat position `i` over a key sequence: even positions
/// are primary glyphs, odd ones secondary.
pub open spec fn spec_glyph_at(ks: Seq<KeyGlyphs>, i: int) -> char {
    if i % 2 == 0 {
        ks[i / 2].0
    } else {
        ks[i / 2].1
    }
}

/// No glyph occurs twice across the keys' glyph slots.
pub open spec fn spec_distinct_glyphs(ks: Seq<KeyGlyphs>) -> bool {
    forall|i: int, j: int|
        0 <= i < j < 2 * ks.len() ==> spec_glyph_at(ks, i) != spec_glyph_at(ks, j)
}

/// Where key `k` lands when the board is flipped left-to-right.
pub open spec fn spec_mirror_key(k: int) -> int {
    k + 9 - 2 * (k % 10)
}

/// Mirror a key from the left to the right half of its row, or back.
pub fn mirror_key(k: u8) -> (r: u8)
    requires
        k < 30,
    ensures
        r as int == spec_mirror_key(k as int),
        r < 30,
        r as int / 10 == k as int / 10,
{
    proof {
        assert(k as int % 10 < 10) by {
            vstd::arithmetic::div_mod::lemma_mod_division_less_than_divisor(k as int, 10);
        }
        assert(k as int % 10 <= k as int) by {
            vstd::arithmetic::div_mod::lemma_mod_decreases(k as nat, 10);
        }
        assert(k as int == 10 * (k as int / 10) + k as int % 10) by {
            vstd::arithmetic::div_mod::lemma_fundamental_div_mod(k as int, 10);
        }
    }
    k + 9 - 2 * (k % 10)
}

/// Mirroring twice returns every key to its place.
pub proof fn lemma_mirror_key_involutive(k: int)
    requires
        0 <= k < 30,
    ensures
        spec_mirror_key(spec_mirror_key(k)) == k,
        0 <= spec_mirror_key(k) < 30,
        spec_mirror_key(k) / 10 == k / 10,
        spec_mirror_key(k) % 10 == 9 - k % 10,
{
    vstd::arithmetic::div_mod::lemma_fundamental_div_mod(k, 10);
    vstd::arithmetic::div_mod::lemma_mod_division_less_than_divisor(k, 10);
    let q = k / 10;
    let r = k % 10;
    let m = spec_mirror_key(k);
    assert(m == 10 * q + (9 - r));
    assert(m % 10 == 9 - r && m / 10 == q) by {
        vstd::arithmetic::div_mod::lemma_fundamental_div_mod_converse(m, 10, q, 9 - r);
    }
}

/// Exchanging two positions of a sequence leaves its multiset unchanged.
pub proof fn lemma_swap_multiset<T>(s: Seq<T>, i: int, j: int)
    requires
        0 <= i < s.len(),
        0 <= j < s.len(),
    ensures
        s.update(i, s[j]).update(j, s[i]).to_multiset() == s.to_multiset(),
{
    broadcast use vstd::seq_lib::group_to_multiset_ensures;

    let s1 = s.update(i, s[j]);
    if i == j {
        assert(s.update(i, s[j]).update(j, s[i]) =~= s);
    } else {
        assert(s1[j] == s[j]);
        assert(s.contains(s[i]));
        assert(s1.contains(s1[j]));
        assert(s1.update(j, s[i]).to_multiset() =~= s.to_multiset());
    }
}

/// The layout flipped left-to-right: each row of 10 keys reversed.
pub open spec fn spec_mirror_layout(l: Seq<KeyGlyphs>) -> Seq<KeyGlyphs> {
    Seq::new(l.len(), |i: int| l[spec_mirror_key(i)])
}

/// Flip a layout left-to-right, reversing each of the three rows.
pub fn mirror_layout(l: &Layout) -> (r: Layout)
    requires
        l.wf(),
    ensures
        r.wf(),
        r@ == spec_mirror_layout(l@),
{
    let mut keys: Vec<KeyGlyphs> = Vec::new();
    for k in 0..30u8
        invariant
            l.wf(),
            keys@.len() == k as int,
            forall|i: int| 0 <= i < k as int ==> keys@[i] == l@[spec_mirror_key(i)],
    {
        let m = mirror_key(k);
        keys.push(l.keys[m as usize]);
    }
    let r = Layout { keys };
    proof {
        assert(r@ =~= spec_mirror_layout(l@));
    }
    r
}

} // verus!
