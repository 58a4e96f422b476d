//! The Unicode property tables, consumed as immutable lookup data from the
//! `unicode-normalization` crate.
//!
//! Each table query is a pure function of its codepoint arguments.  The
//! values themselves are thousands of data-file entries, so each query's
//! result is given a name (an uninterpreted spec function) rather than
//! written out; the verified engine states its contracts over those names.

use vstd::prelude::*;
use crate::hangul::{hangul_decomposition, is_hangul_syllable};

verus! {

/// The canonical combining class that the Unicode Character Database assigns
/// to `c` (0 for starters, 1..=254 for combining marks).
pub uninterp spec fn combining_class_of(c: char) -> u8;

/// The full (recursively expanded) canonical decomposition of `c`, in the
/// order the mapping declares; `c` itself when no mapping exists.
pub uninterp spec fn canonical_decomposition_of(c: char) -> Seq<char>;

/// The full (recursively expanded) compatibility decomposition of `c`,
/// falling back to the canonical mapping where no compatibility mapping
/// exists; `c` itself when neither exists.
pub uninterp spec fn compatibility_decomposition_of(c: char) -> Seq<char>;

/// One-step canonical composition of the pair `(a, b)`: the primary
/// composite, or `None` where no pair exists or the composite is excluded.
pub uninterp spec fn composition_of(a: char, b: char) -> Option<char>;

/// Membership of `c` in the combining-mark set (the characters of general
/// category Mark); this set is wider than the nonzero combining classes.
pub uninterp spec fn combining_mark_of(c: char) -> bool;

/// Relies on `unicode_normalization::char::canonical_combining_class`: a
/// table lookup, a pure function of the codepoint.  The table holds no entry
/// for U+034F (COMBINING GRAPHEME JOINER), so its class is the default 0.
#[verifier::external_body]
pub(crate) fn combining_class_lookup(c: char) -> (r: u8)
    ensures
        r == combining_class_of(c),
        c == '\u{034f}' ==> r == 0,
{
    unicode_normalization::char::canonical_combining_class(c)
}

/// Relies on `unicode_normalization::char::is_combining_mark`: a lookup in
/// the generated combining-mark table, a pure function of the codepoint.
#[verifier::external_body]
pub(crate) fn combining_mark_lookup(c: char) -> (r: bool)
    ensures
        r == combining_mark_of(c),
{
    unicode_normalization::char::is_combining_mark(c)
}

/// Relies on `unicode_normalization::char::decompose_canonical`: emits the
/// full canonical decomposition of `c`, one character at a time.  Hangul
/// syllables are handled by the same arithmetic the Hangul module states.
/// The emitted sequence is fully decomposed: the stored tables contain no
/// character that is a Hangul syllable or has a canonical mapping of its
/// own (conjoining jamo among them), and a character with no mapping is
/// emitted as itself.
#[verifier::external_body]
pub(crate) fn canonical_decomposition_lookup(c: char) -> (r: Vec<char>)
    ensures
        r@ == canonical_decomposition_of(c),
        is_hangul_syllable(c) ==> r@ == hangul_decomposition(c),
        forall|j: int|
            0 <= j < r@.len() ==> !is_hangul_syllable(#[trigger] r@[j])
                && canonical_decomposition_of(r@[j]) == seq![r@[j]],
{
    let mut out = Vec::new();
    unicode_normalization::char::decompose_canonical(c, |d| out.push(d));
    out
}

/// Relies on `unicode_normalization::char::decompose_compatible`: emits the
/// full compatibility decomposition of `c` (falling back to the canonical
/// mapping), one character at a time.  Hangul syllables are handled by the
/// same arithmetic the Hangul module states.  The emitted sequence is fully
/// decomposed: the stored tables contain no character that is a Hangul
/// syllable or has a compatibility or canonical mapping of its own
/// (conjoining jamo among them), and a character with no mapping is emitted
/// as itself.
#[verifier::external_body]
pub(crate) fn compatibility_decomposition_lookup(c: char) -> (r: Vec<char>)
    ensures
        r@ == compatibility_decomposition_of(c),
        is_hangul_syllable(c) ==> r@ == hangul_decomposition(c),
        forall|j: int|
            0 <= j < r@.len() ==> !is_hangul_syllable(#[trigger] r@[j])
                && compatibility_decomposition_of(r@[j]) == seq![r@[j]],
{
    let mut out = Vec::new();
    unicode_normalization::char::decompose_compatible(c, |d| out.push(d));
    out
}

/// Relies on `unicode_normalization::char::compose`: one-step canonical
/// composition, honoring the composition exclusions (excluded composites are
/// absent from the generated table).
#[verifier::external_body]
pub(crate) fn composition_lookup(a: char, b: char) -> (r: Option<char>)
    ensures
        r == composition_of(a, b),
{
    unicode_normalization::char::compose(a, b)
}

/// Relies on `char::from_u32` of std: `Some` exactly for Unicode scalar
/// values (outside the surrogate range and at most U+10FFFF).
#[verifier::external_body]
pub(crate) fn char_from_u32(x: u32) -> (r: Option<char>)
    ensures
        r == (if x < 0xD800 || (0xE000 <= x && x <= 0x10FFFF) {
            Some(x as char)
        } else {
            None::<char>
        }),
{
    char::from_u32(x)
}

/// Relies on `String::push` of std: appends one character.
#[verifier::external_body]
pub(crate) fn push_char(s: &mut String, c: char)
    ensures
        final(s)@ == old(s)@.push(c),
{
    s.push(c)
}

} // verus!
