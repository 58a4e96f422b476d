//! The decomposition engine: expands one character — and, lifted pointwise,
//! a whole sequence — into its full canonical or compatibility
//! decomposition.  Hangul syllables are decomposed by arithmetic; every
//! other character is answered by the property tables, whose stored
//! mappings are already recursively expanded.

use vstd::prelude::*;
use crate::hangul::{check_hangul_syllable, hangul_decompose, hangul_decomposition,
    is_hangul_syllable};
use crate::tables::{canonical_decomposition_lookup, canonical_decomposition_of,
    compatibility_decomposition_lookup, compatibility_decomposition_of};

verus! {

/// Which family of decomposition mappings a transform applies.
#[derive(Clone, Copy, PartialEq, Eq, Structural, Debug)]
pub enum DecompositionKind {
    Canonical,
    Compatible,
}

/// The full decomposition of one character under `kind`.
pub open spec fn spec_decompose_char(kind: DecompositionKind, c: char) -> Seq<char> {
    if is_hangul_syllable(c) {
        hangul_decomposition(c)
    } else {
        match kind {
            DecompositionKind::Canonical => canonical_decomposition_of(c),
            DecompositionKind::Compatible => compatibility_decomposition_of(c),
        }
    }
}

/// The concatenated full decompositions of every character of `s`, in order.
pub open spec fn spec_decompose_seq(kind: DecompositionKind, s: Seq<char>) -> Seq<char>
    decreases s.len(),
{
    if s.len() == 0 {
        Seq::empty()
    } else {
        spec_decompose_seq(kind, s.drop_last()) + spec_decompose_char(kind, s.last())
    }
}

/// Every character of `s` is fully decomposed under `kind`: it decomposes
/// to itself.
pub open spec fn fully_decomposed(kind: DecompositionKind, s: Seq<char>) -> bool {
    forall|j: int|
        0 <= j < s.len() ==> #[trigger] spec_decompose_char(kind, s[j]) == seq![s[j]]
}

/// Fully decomposes one character: Hangul syllables by arithmetic, all
/// other characters by the requested decomposition table.  The result is
/// itself fully decomposed.
pub fn decompose_char(kind: DecompositionKind, c: char) -> (r: Vec<char>)
    ensures
        r@ == spec_decompose_char(kind, c),
        fully_decomposed(kind, r@),
{
    if check_hangul_syllable(c) {
        // The table answers a Hangul syllable with the same jamo the
        // arithmetic yields; taking its contract along records that the
        // jamo decompose to themselves.
        let w = match kind {
            DecompositionKind::Canonical => canonical_decomposition_lookup(c),
            DecompositionKind::Compatible => compatibility_decomposition_lookup(c),
        };
        let r = hangul_decompose(c);
        proof {
            assert(w@ == r@);
        }
        r
    } else {
        match kind {
            DecompositionKind::Canonical => canonical_decomposition_lookup(c),
            DecompositionKind::Compatible => compatibility_decomposition_lookup(c),
        }
    }
}

/// Appends every character of `src` to `dst`, in order.
pub fn push_all(dst: &mut Vec<char>, src: &Vec<char>)
    ensures
        final(dst)@ == old(dst)@ + src@,
{
    let ghost dst0 = dst@;
    let mut i: usize = 0;
    while i < src.len()
        invariant
            i <= src@.len(),
            dst@ == dst0 + src@.subrange(0, i as int),
        decreases src@.len() - i,
    {
        dst.push(src[i]);
        i += 1;
        proof {
            assert(src@.subrange(0, i as int)
                =~= src@.subrange(0, i as int - 1).push(src@[i as int - 1]));
            assert(dst@ =~= dst0 + src@.subrange(0, i as int));
        }
    }
    proof {
        assert(src@.subrange(0, src@.len() as int) =~= src@);
    }
}

/// Fully decomposes every character of the input, concatenating the
/// per-character decompositions in input order.  The result is itself
/// fully decomposed.
pub fn decompose_all(kind: DecompositionKind, v: &Vec<char>) -> (r: Vec<char>)
    ensures
        r@ == spec_decompose_seq(kind, v@),
        fully_decomposed(kind, r@),
{
    let mut out: Vec<char> = Vec::new();
    let mut i: usize = 0;
    while i < v.len()
        invariant
            i <= v@.len(),
            out@ == spec_decompose_seq(kind, v@.subrange(0, i as int)),
            fully_decomposed(kind, out@),
        decreases v@.len() - i,
    {
        let ghost out0 = out@;
        let d = decompose_char(kind, v[i]);
        push_all(&mut out, &d);
        i += 1;
        proof {
            let pre = v@.subrange(0, i as int);
            assert(pre.drop_last() =~= v@.subrange(0, i as int - 1));
            assert(pre.last() == v@[i as int - 1]);
            assert forall|j: int| 0 <= j < out@.len() implies #[trigger] spec_decompose_char(
                kind,
                out@[j],
            ) == seq![out@[j]] by {
                if j < out0.len() {
                    assert(out@[j] == out0[j]);
                    assert(spec_decompose_char(kind, out0[j]) == seq![out0[j]]);
                } else {
                    assert(out@[j] == d@[j - out0.len()]);
                    assert(spec_decompose_char(kind, d@[j - out0.len()]) == seq![
                        d@[j - out0.len()],
                    ]);
                }
            }
        }
    }
    proof {
        assert(v@.subrange(0, v@.len() as int) =~= v@);
    }
    out
}

} // verus!
