//! The Hangul algorithmic special case: precomposed Hangul syllables
//! decompose into conjoining jamo, and jamo recompose into syllables, by
//! pure arithmetic on the codepoint (Unicode chapter 3, Conjoining Jamo
//! Behavior), independent of the property tables.

use vstd::prelude::*;
use crate::tables::char_from_u32;

verus! {

pub const S_BASE: u32 = 0xAC00;
pub const L_BASE: u32 = 0x1100;
pub const V_BASE: u32 = 0x1161;
pub const T_BASE: u32 = 0x11A7;
pub const L_COUNT: u32 = 19;
pub const V_COUNT: u32 = 21;
pub const T_COUNT: u32 = 28;
pub const N_COUNT: u32 = V_COUNT * T_COUNT;
pub const S_COUNT: u32 = L_COUNT * N_COUNT;

/// A precomposed Hangul syllable (the algorithmically defined block).
pub open spec fn is_hangul_syllable(c: char) -> bool {
    S_BASE <= (c as u32) && (c as u32) < S_BASE + S_COUNT
}

/// A leading consonant jamo that participates in composition.
pub open spec fn is_hangul_l(c: char) -> bool {
    L_BASE <= (c as u32) && (c as u32) < L_BASE + L_COUNT
}

/// A vowel jamo that participates in composition.
pub open spec fn is_hangul_v(c: char) -> bool {
    V_BASE <= (c as u32) && (c as u32) < V_BASE + V_COUNT
}

/// A trailing consonant jamo that participates in composition
/// (`T_BASE` itself is a filler, not a valid trailing consonant).
pub open spec fn is_hangul_t(c: char) -> bool {
    T_BASE < (c as u32) && (c as u32) < T_BASE + T_COUNT
}

/// An `LV` syllable: a precomposed syllable with no trailing consonant.
pub open spec fn is_hangul_lv(c: char) -> bool {
    is_hangul_syllable(c) && ((c as int) - (S_BASE as int)) % (T_COUNT as int) == 0
}

/// The canonical decomposition of a precomposed Hangul syllable: `L V` for
/// an `LV` syllable, `L V T` for an `LVT` syllable.
pub open spec fn hangul_decomposition(c: char) -> Seq<char>
    recommends
        is_hangul_syllable(c),
{
    let si = (c as int) - (S_BASE as int);
    let l = ((L_BASE as int) + si / (N_COUNT as int)) as char;
    let v = ((V_BASE as int) + (si % (N_COUNT as int)) / (T_COUNT as int)) as char;
    let ti = si % (T_COUNT as int);
    if ti == 0 {
        seq![l, v]
    } else {
        seq![l, v, ((T_BASE as int) + ti) as char]
    }
}

/// One-step algorithmic Hangul composition: `L + V` gives an `LV` syllable,
/// `LV + T` gives an `LVT` syllable; every other pair gives `None`.
pub open spec fn hangul_composition(a: char, b: char) -> Option<char> {
    if is_hangul_l(a) && is_hangul_v(b) {
        let li = (a as int) - (L_BASE as int);
        let vi = (b as int) - (V_BASE as int);
        Some(((S_BASE as int) + li * (N_COUNT as int) + vi * (T_COUNT as int)) as char)
    } else if is_hangul_lv(a) && is_hangul_t(b) {
        Some(((a as int) + (b as int) - (T_BASE as int)) as char)
    } else {
        None
    }
}

/// Decides membership in the precomposed Hangul syllable block.
pub fn check_hangul_syllable(c: char) -> (r: bool)
    ensures
        r == is_hangul_syllable(c),
{
    let cp = c as u32;
    S_BASE <= cp && cp < S_BASE + S_COUNT
}

/// Decomposes a precomposed Hangul syllable into its jamo by arithmetic on
/// the codepoint, bypassing the property tables.
pub fn hangul_decompose(c: char) -> (r: Vec<char>)
    requires
        is_hangul_syllable(c),
    ensures
        r@ == hangul_decomposition(c),
{
    let cp = c as u32;
    let si = cp - S_BASE;
    let li = si / N_COUNT;
    let vi = (si % N_COUNT) / T_COUNT;
    let ti = si % T_COUNT;
    proof {
        assert(si < S_COUNT);
        assert(li < L_COUNT) by (nonlinear_arith)
            requires
                li == si / N_COUNT,
                si < 11172,
                N_COUNT == 588,
        ;
        assert(si % N_COUNT < N_COUNT) by (nonlinear_arith)
            requires
                N_COUNT == 588,
        ;
        assert(vi < V_COUNT) by (nonlinear_arith)
            requires
                vi == (si % N_COUNT) / T_COUNT,
                si % N_COUNT < 588,
                T_COUNT == 28,
        ;
        assert(ti < T_COUNT) by (nonlinear_arith)
            requires
                ti == si % T_COUNT,
                T_COUNT == 28,
        ;
    }
    let l = char_from_u32(L_BASE + li).unwrap();
    let v = char_from_u32(V_BASE + vi).unwrap();
    let mut out: Vec<char> = Vec::new();
    out.push(l);
    out.push(v);
    if ti > 0 {
        let t = char_from_u32(T_BASE + ti).unwrap();
        out.push(t);
        assert(out@ =~= hangul_decomposition(c));
    } else {
        assert(out@ =~= hangul_decomposition(c));
    }
    out
}

/// Composes a pair of jamo (or an `LV` syllable and a trailing jamo) into a
/// precomposed syllable by arithmetic on the codepoints.
pub fn hangul_compose(a: char, b: char) -> (r: Option<char>)
    ensures
        r == hangul_composition(a, b),
{
    let ap = a as u32;
    let bp = b as u32;
    if L_BASE <= ap && ap < L_BASE + L_COUNT && V_BASE <= bp && bp < V_BASE + V_COUNT {
        let li = ap - L_BASE;
        let vi = bp - V_BASE;
        proof {
            assert(li * N_COUNT <= 18 * 588) by (nonlinear_arith)
                requires
                    li <= 18,
                    N_COUNT == 588,
            ;
            assert(vi * T_COUNT <= 20 * 28) by (nonlinear_arith)
                requires
                    vi <= 20,
                    T_COUNT == 28,
            ;
        }
        let s = S_BASE + li * N_COUNT + vi * T_COUNT;
        Some(char_from_u32(s).unwrap())
    } else if S_BASE <= ap && ap < S_BASE + S_COUNT && (ap - S_BASE) % T_COUNT == 0 && T_BASE < bp
        && bp < T_BASE + T_COUNT {
        proof {
            assert((ap as int - S_BASE as int) + (bp as int - T_BASE as int) < S_COUNT as int)
                by (nonlinear_arith)
                requires
                    (ap as int - S_BASE as int) % (T_COUNT as int) == 0,
                    (ap as int - S_BASE as int) >= 0,
                    (ap as int - S_BASE as int) < (S_COUNT as int),
                    (bp as int - T_BASE as int) < (T_COUNT as int),
                    T_COUNT == 28u32,
                    S_COUNT == 11172u32,
            ;
        }
        let s = ap + (bp - T_BASE);
        Some(char_from_u32(s).unwrap())
    } else {
        None
    }
}

} // verus!
