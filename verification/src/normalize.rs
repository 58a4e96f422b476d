//! The transform driver: the four standard normalization forms and their
//! stream-safe variants, over character buffers and over strings, built
//! from the decomposition, ordering, composition and bounding stages.

use vstd::prelude::*;
use vstd::string::StrSliceExecFns;
use vstd::string::StringExecFns;
use crate::compose::{compose_run, spec_compose_seq};
use crate::decompose::{decompose_all, decompose_char, fully_decomposed, spec_decompose_char,
    spec_decompose_seq, DecompositionKind};
use crate::ordering::{canonical_order, lemma_canonical_order_membership,
    lemma_canonical_order_sorted, lemma_ordered_fixpoint, ordered_marks, spec_canonical_order};
use crate::stream_safe::{bounded_runs, spec_stream_safe, stream_safe_chars};
use crate::tables::{combining_class_lookup, combining_class_of, combining_mark_lookup,
    combining_mark_of, push_char};

verus! {

/// The canonical combining class of `c`, as assigned by the Unicode
/// Character Database.
pub fn canonical_combining_class(c: char) -> (r: u8)
    ensures
        r == combining_class_of(c),
{
    combining_class_lookup(c)
}

/// True exactly for the characters in the combining-mark set (general
/// category Mark).
pub fn is_combining_mark(c: char) -> (r: bool)
    ensures
        r == combining_mark_of(c),
{
    combining_mark_lookup(c)
}

/// The full canonical decomposition of one character.
pub fn decompose_canonical(c: char) -> (r: Vec<char>)
    ensures
        r@ == spec_decompose_char(DecompositionKind::Canonical, c),
{
    decompose_char(DecompositionKind::Canonical, c)
}

/// The full compatibility decomposition of one character.
pub fn decompose_compatible(c: char) -> (r: Vec<char>)
    ensures
        r@ == spec_decompose_char(DecompositionKind::Compatible, c),
{
    decompose_char(DecompositionKind::Compatible, c)
}

/// Normalization Form D: canonical decomposition, canonically ordered.
pub open spec fn spec_nfd(s: Seq<char>) -> Seq<char> {
    spec_canonical_order(spec_decompose_seq(DecompositionKind::Canonical, s))
}

/// Normalization Form KD: compatibility decomposition, canonically ordered.
pub open spec fn spec_nfkd(s: Seq<char>) -> Seq<char> {
    spec_canonical_order(spec_decompose_seq(DecompositionKind::Compatible, s))
}

/// Normalization Form C: canonical composition of the NFD form.
pub open spec fn spec_nfc(s: Seq<char>) -> Seq<char> {
    spec_compose_seq(spec_nfd(s))
}

/// Normalization Form KC: canonical composition of the NFKD form.
pub open spec fn spec_nfkc(s: Seq<char>) -> Seq<char> {
    spec_compose_seq(spec_nfkd(s))
}

/// NFD of the stream-safe rewriting of the input.
pub open spec fn spec_nfd_stream_safe(s: Seq<char>) -> Seq<char> {
    spec_nfd(spec_stream_safe(s))
}

/// NFC of the stream-safe rewriting of the input.
pub open spec fn spec_nfc_stream_safe(s: Seq<char>) -> Seq<char> {
    spec_nfc(spec_stream_safe(s))
}

/// In every normalized (decomposed) form, each maximal run of combining
/// marks is non-decreasing in combining class.
pub proof fn lemma_nfd_ordered(s: Seq<char>)
    ensures
        ordered_marks(spec_nfd(s)),
        ordered_marks(spec_nfkd(s)),
{
    lemma_canonical_order_sorted(spec_decompose_seq(DecompositionKind::Canonical, s));
    lemma_canonical_order_sorted(spec_decompose_seq(DecompositionKind::Compatible, s));
}

proof fn lemma_fully_decomposed_order(kind: DecompositionKind, s: Seq<char>)
    requires
        fully_decomposed(kind, s),
    ensures
        fully_decomposed(kind, spec_canonical_order(s)),
{
    let r = spec_canonical_order(s);
    lemma_canonical_order_membership(s);
    assert forall|j: int| 0 <= j < r.len() implies #[trigger] spec_decompose_char(kind, r[j])
        == seq![r[j]] by {
        assert(s.contains(r[j]));
        let i = choose|i: int| 0 <= i < s.len() && s[i] == r[j];
        assert(spec_decompose_char(kind, s[i]) == seq![s[i]]);
    }
}

proof fn lemma_fully_decomposed_fixpoint(kind: DecompositionKind, s: Seq<char>)
    requires
        fully_decomposed(kind, s),
    ensures
        spec_decompose_seq(kind, s) == s,
    decreases s.len(),
{
    if s.len() == 0 {
        assert(spec_decompose_seq(kind, s) =~= s);
    } else {
        assert forall|j: int| 0 <= j < s.drop_last().len() implies #[trigger] spec_decompose_char(
            kind,
            s.drop_last()[j],
        ) == seq![s.drop_last()[j]] by {
            assert(s.drop_last()[j] == s[j]);
            assert(spec_decompose_char(kind, s[j]) == seq![s[j]]);
        }
        lemma_fully_decomposed_fixpoint(kind, s.drop_last());
        assert(spec_decompose_char(kind, s[s.len() - 1]) == seq![s[s.len() - 1]]);
        assert(spec_decompose_seq(kind, s) =~= s);
    }
}

/// NFD over a character buffer.  The result is a fixed point of NFD:
/// normalizing again gives the same sequence (idempotence).
pub fn nfd_chars(v: &Vec<char>) -> (r: Vec<char>)
    ensures
        r@ == spec_nfd(v@),
        spec_nfd(r@) == r@,
{
    let d = decompose_all(DecompositionKind::Canonical, v);
    let r = canonical_order(&d);
    proof {
        lemma_fully_decomposed_order(DecompositionKind::Canonical, d@);
        lemma_fully_decomposed_fixpoint(DecompositionKind::Canonical, r@);
        lemma_canonical_order_sorted(d@);
        lemma_ordered_fixpoint(r@);
    }
    r
}

/// NFKD over a character buffer.  The result is a fixed point of NFKD:
/// normalizing again gives the same sequence (idempotence).
pub fn nfkd_chars(v: &Vec<char>) -> (r: Vec<char>)
    ensures
        r@ == spec_nfkd(v@),
        spec_nfkd(r@) == r@,
{
    let d = decompose_all(DecompositionKind::Compatible, v);
    let r = canonical_order(&d);
    proof {
        lemma_fully_decomposed_order(DecompositionKind::Compatible, d@);
        lemma_fully_decomposed_fixpoint(DecompositionKind::Compatible, r@);
        lemma_canonical_order_sorted(d@);
        lemma_ordered_fixpoint(r@);
    }
    r
}

/// NFC over a character buffer.
pub fn nfc_chars(v: &Vec<char>) -> (r: Vec<char>)
    ensures
        r@ == spec_nfc(v@),
{
    let d = nfd_chars(v);
    compose_run(&d)
}

/// NFKC over a character buffer.
pub fn nfkc_chars(v: &Vec<char>) -> (r: Vec<char>)
    ensures
        r@ == spec_nfkc(v@),
{
    let d = nfkd_chars(v);
    compose_run(&d)
}

/// The characters of `s`, in order.
fn str_to_chars(s: &str) -> (r: Vec<char>)
    ensures
        r@ == s@,
{
    let n = s.unicode_len();
    let mut out: Vec<char> = Vec::new();
    let mut i: usize = 0;
    while i < n
        invariant
            n == s@.len(),
            i <= n,
            out@ == s@.subrange(0, i as int),
        decreases n - i,
    {
        out.push(s.get_char(i));
        i += 1;
        proof {
            assert(out@ =~= s@.subrange(0, i as int));
        }
    }
    proof {
        assert(s@.subrange(0, s@.len() as int) =~= s@);
    }
    out
}

/// A string holding exactly the characters of `v`.
fn string_from_chars(v: &Vec<char>) -> (r: String)
    ensures
        r@ == v@,
{
    let mut out = String::new();
    let mut i: usize = 0;
    while i < v.len()
        invariant
            i <= v@.len(),
            out@ == v@.subrange(0, i as int),
        decreases v@.len() - i,
    {
        push_char(&mut out, v[i]);
        i += 1;
        proof {
            assert(out@ =~= v@.subrange(0, i as int));
        }
    }
    proof {
        assert(v@.subrange(0, v@.len() as int) =~= v@);
    }
    out
}

/// Normalization Form D of a string.  The result is a fixed point of NFD
/// (idempotence).
pub fn nfd(s: &str) -> (r: String)
    ensures
        r@ == spec_nfd(s@),
        spec_nfd(r@) == r@,
{
    let v = str_to_chars(s);
    let n = nfd_chars(&v);
    string_from_chars(&n)
}

/// Normalization Form KD of a string.  The result is a fixed point of NFKD
/// (idempotence).
pub fn nfkd(s: &str) -> (r: String)
    ensures
        r@ == spec_nfkd(s@),
        spec_nfkd(r@) == r@,
{
    let v = str_to_chars(s);
    let n = nfkd_chars(&v);
    string_from_chars(&n)
}

/// Normalization Form C of a string.
pub fn nfc(s: &str) -> (r: String)
    ensures
        r@ == spec_nfc(s@),
{
    let v = str_to_chars(s);
    let n = nfc_chars(&v);
    string_from_chars(&n)
}

/// Normalization Form KC of a string.
pub fn nfkc(s: &str) -> (r: String)
    ensures
        r@ == spec_nfkc(s@),
{
    let v = str_to_chars(s);
    let n = nfkc_chars(&v);
    string_from_chars(&n)
}

/// The stream-safe rewriting of a string: no run of consecutive
/// non-starters in the result is longer than 30.
pub fn stream_safe(s: &str) -> (r: String)
    ensures
        r@ == spec_stream_safe(s@),
        bounded_runs(r@),
{
    let v = str_to_chars(s);
    let b = stream_safe_chars(&v);
    string_from_chars(&b)
}

/// Stream-safe NFD: the input is bounded first, then decomposed.
pub fn nfd_stream_safe(s: &str) -> (r: String)
    ensures
        r@ == spec_nfd_stream_safe(s@),
{
    let v = str_to_chars(s);
    let b = stream_safe_chars(&v);
    let n = nfd_chars(&b);
    string_from_chars(&n)
}

/// Stream-safe NFC: the input is bounded first, then composed.
pub fn nfc_stream_safe(s: &str) -> (r: String)
    ensures
        r@ == spec_nfc_stream_safe(s@),
{
    let v = str_to_chars(s);
    let b = stream_safe_chars(&v);
    let n = nfc_chars(&b);
    string_from_chars(&n)
}

} // verus!
