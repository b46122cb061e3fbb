//! Alphabet set notation: a glyph list where `a-z` denotes the run of
//! character codes between two glyphs.

use vstd::prelude::*;

verus! {

/// A valid character code: a Unicode scalar value.
pub open spec fn spec_valid_code(u: int) -> bool {
    (0 <= u && u < 0xD800) || (0xE000 <= u && u <= 0x10FFFF)
}

/// The valid codes from `a` to `b` inclusive, ascending.
pub open spec fn spec_codes(a: int, b: int) -> Seq<int>
    decreases b - a + 1,
{
    if a > b {
        Seq::empty()
    } else {
        (if spec_valid_code(a) {
            seq![a]
        } else {
            Seq::empty()
        }) + spec_codes(a + 1, b)
    }
}

/// The state after reading the first `n` characters of an alphabet
/// description: the last plain glyph's code (0 before any), whether a
/// range dash is pending, and the codes collected so far.  A dash
/// after a glyph opens a range; the next glyph closes it with every
/// code strictly between the bound next to it and the far bound.
pub open spec fn spec_expand(s: Seq<char>, n: int) -> (int, bool, Seq<int>)
    decreases n,
{
    if n <= 0 {
        (0, false, Seq::empty())
    } else {
        let (last, inr, out) = spec_expand(s, n - 1);
        let c = s[n - 1] as int;
        if inr {
            if c > last {
                (last, false, out + spec_codes(last + 1, c))
            } else if c < last {
                (last, false, out + spec_codes(c, last - 1))
            } else {
                (last, false, out)
            }
        } else if s[n - 1] == '-' && last != 0 {
            (last, true, out)
        } else {
            (c, false, out.push(c))
        }
    }
}

/// Relies on u32::from for char: a character's Unicode scalar value,
/// at most the largest code point.
#[verifier::external_body]
fn char_code(c: char) -> (r: u32)
    ensures
        r as int == c as int,
        r <= 0x10FFFF,
{
    u32::from(c)
}

/// Relies on char::from_u32: defined exactly on Unicode scalar values,
/// returning the character with that code.
#[verifier::external_body]
fn char_from_u32(u: u32) -> (r: Option<char>)
    ensures
        r matches Some(c) ==> c as u32 == u && c as int == u as int,
        r is Some <==> spec_valid_code(u as int),
{
    char::from_u32(u)
}

/// Push the characters whose codes run from `a` to `b` inclusive.
fn push_code_range(out: &mut Vec<char>, a: u32, b: u32)
    requires
        b <= 0x10FFFF,
        a <= b + 1,
    ensures
        final(out)@.map_values(|c: char| c as int) == old(out)@.map_values(|c: char| c as int)
            + spec_codes(a as int, b as int),
{
    let ghost base = out@.map_values(|c: char| c as int);
    let mut u: u32 = a;
    while u <= b
        invariant
            b <= 0x10FFFF,
            a <= u <= b + 1,
            base + spec_codes(a as int, b as int) == out@.map_values(|c: char| c as int)
                + spec_codes(u as int, b as int),
        decreases b + 1 - u,
    {
        let ghost before = out@.map_values(|c: char| c as int);
        match char_from_u32(u) {
            Some(c) => {
                out.push(c);
                proof {
                    assert(out@.map_values(|cc: char| cc as int) =~= before.push(u as int));
                }
            },
            None => {},
        }
        u += 1;
        proof {
            assert(spec_codes(u as int - 1, b as int) == (if spec_valid_code(u as int - 1) {
                seq![u as int - 1]
            } else {
                Seq::<int>::empty()
            }) + spec_codes(u as int, b as int));
            if spec_valid_code(u as int - 1) {
                assert(before + (seq![u as int - 1] + spec_codes(u as int, b as int))
                    =~= out@.map_values(|c: char| c as int) + spec_codes(u as int, b as int));
            } else {
                assert(before + (Seq::<int>::empty() + spec_codes(u as int, b as int))
                    =~= out@.map_values(|c: char| c as int) + spec_codes(u as int, b as int));
            }
        }
    }
    proof {
        assert(spec_codes(u as int, b as int) =~= Seq::<int>::empty());
        assert(base + spec_codes(a as int, b as int) =~= out@.map_values(|c: char| c as int));
    }
}

/// Expand an alphabet description into the characters it denotes.
pub fn expand_alphabet(alpha: &str) -> (r: Vec<char>)
    ensures
        r@.map_values(|c: char| c as int) == spec_expand(alpha@, alpha@.len() as int).2,
{
    let cs = crate::parse::collect_chars(alpha);
    let mut out: Vec<char> = Vec::new();
    let mut last: char = '\0';
    let mut in_range: bool = false;
    let mut n: usize = 0;
    while n < cs.len()
        invariant
            cs@ == alpha@,
            n <= cs@.len(),
            (last as int, in_range, out@.map_values(|c: char| c as int)) == spec_expand(
                alpha@,
                n as int,
            ),
        decreases cs@.len() - n,
    {
        let c = cs[n];
        let ghost before = out@.map_values(|cc: char| cc as int);
        if in_range {
            let cc = char_code(c);
            let lc = char_code(last);
            if cc > lc {
                push_code_range(&mut out, lc + 1, cc);
            } else if cc < lc {
                push_code_range(&mut out, cc, lc - 1);
            }
            in_range = false;
        } else if c == '-' && last != '\0' {
            in_range = true;
        } else {
            out.push(c);
            last = c;
            proof {
                assert(out@.map_values(|cc: char| cc as int) =~= before.push(c as int));
            }
        }
        n += 1;
    }
    out
}

} // verus!
