//! The composition engine: recombines a canonically ordered buffer into its
//! canonically composed equivalent.  The first starter becomes the
//! composition candidate; each later character either composes into the
//! candidate, is held back as a pending mark, or — when it is an unblocked
//! starter — closes the segment.  A mark is blocked when a mark of equal or
//! greater class already attached to the candidate before it.

use vstd::prelude::*;
use crate::decompose::push_all;
use crate::hangul::{hangul_compose, hangul_composition};
use crate::tables::{combining_class_lookup, combining_class_of, composition_lookup,
    composition_of};

verus! {

/// One-step canonical composition of a pair: the algorithmic Hangul cases
/// first, then the composition table (which already excludes the
/// composition exclusions).
pub open spec fn spec_compose_pair(a: char, b: char) -> Option<char> {
    match hangul_composition(a, b) {
        Some(r) => Some(r),
        None => composition_of(a, b),
    }
}

/// Composes two characters into one where the Unicode canonical composition
/// defines a (non-excluded) composite.
pub fn compose(a: char, b: char) -> (r: Option<char>)
    ensures
        r == spec_compose_pair(a, b),
{
    match hangul_compose(a, b) {
        Some(r) => Some(r),
        None => composition_lookup(a, b),
    }
}

/// What the composition engine emits at the end of input: the pending
/// candidate, then the marks held behind it.
pub open spec fn spec_compose_flush(composee: Option<char>, buf: Seq<char>) -> Seq<char> {
    match composee {
        None => buf,
        Some(k) => seq![k] + buf,
    }
}

/// The characters still to be emitted by the composition engine, given the
/// input `s`, the next position `i`, the current candidate, the marks held
/// behind it, and the class of the last held mark.
pub open spec fn spec_compose_from(
    s: Seq<char>,
    i: int,
    composee: Option<char>,
    buf: Seq<char>,
    last: Option<u8>,
) -> Seq<char>
    decreases s.len() - i,
    when 0 <= i <= s.len()
{
    if i >= s.len() {
        spec_compose_flush(composee, buf)
    } else {
        let ch = s[i];
        let cls = combining_class_of(ch);
        match composee {
            None => if cls != 0 {
                // No candidate yet: marks at the very start pass through.
                seq![ch] + spec_compose_from(s, i + 1, None, buf, last)
            } else {
                spec_compose_from(s, i + 1, Some(ch), buf, last)
            },
            Some(k) => match last {
                None => match spec_compose_pair(k, ch) {
                    Some(r) => spec_compose_from(s, i + 1, Some(r), buf, None),
                    None => if cls == 0 {
                        seq![k] + spec_compose_from(s, i + 1, Some(ch), buf, None)
                    } else {
                        spec_compose_from(s, i + 1, Some(k), buf.push(ch), Some(cls))
                    },
                },
                Some(l) => if l >= cls {
                    // `ch` is blocked from the candidate.
                    if cls == 0 {
                        seq![k] + buf + spec_compose_from(s, i + 1, Some(ch), Seq::empty(), None)
                    } else {
                        spec_compose_from(s, i + 1, Some(k), buf.push(ch), Some(cls))
                    }
                } else {
                    match spec_compose_pair(k, ch) {
                        Some(r) => spec_compose_from(s, i + 1, Some(r), buf, Some(l)),
                        None => spec_compose_from(s, i + 1, Some(k), buf.push(ch), Some(cls)),
                    }
                },
            },
        }
    }
}

/// The canonical composition of a canonically ordered buffer.
pub open spec fn spec_compose_seq(s: Seq<char>) -> Seq<char> {
    spec_compose_from(s, 0, None, Seq::empty(), None)
}

/// Runs the composition engine over a whole buffer.
pub fn compose_run(v: &Vec<char>) -> (r: Vec<char>)
    ensures
        r@ == spec_compose_seq(v@),
{
    let mut out: Vec<char> = Vec::new();
    let mut composee: Option<char> = None;
    let mut buf: Vec<char> = Vec::new();
    let mut last: Option<u8> = None;
    let mut i: usize = 0;
    while i < v.len()
        invariant
            i <= v@.len(),
            out@ + spec_compose_from(v@, i as int, composee, buf@, last) == spec_compose_seq(v@),
        decreases v@.len() - i,
    {
        let ghost out0 = out@;
        let ghost rest0 = spec_compose_from(v@, i as int, composee, buf@, last);
        let ch = v[i];
        let cls = combining_class_lookup(ch);
        match composee {
            None => {
                if cls != 0 {
                    out.push(ch);
                    proof {
                        let next = spec_compose_from(v@, i as int + 1, composee, buf@, last);
                        assert(rest0 == seq![ch] + next);
                        assert(out@ =~= out0 + seq![ch]);
                        assert(out0 + rest0 =~= out@ + next);
                    }
                } else {
                    composee = Some(ch);
                }
            },
            Some(k) => {
                match last {
                    None => {
                        match compose(k, ch) {
                            Some(r) => {
                                composee = Some(r);
                            },
                            None => {
                                if cls == 0 {
                                    out.push(k);
                                    composee = Some(ch);
                                    proof {
                                        let next = spec_compose_from(
                                            v@, i as int + 1, composee, buf@, last);
                                        assert(rest0 == seq![k] + next);
                                        assert(out@ =~= out0 + seq![k]);
                                        assert(out0 + rest0 =~= out@ + next);
                                    }
                                } else {
                                    buf.push(ch);
                                    last = Some(cls);
                                }
                            },
                        }
                    },
                    Some(l) => {
                        if l >= cls {
                            if cls == 0 {
                                let ghost buf0 = buf@;
                                out.push(k);
                                push_all(&mut out, &buf);
                                composee = Some(ch);
                                buf = Vec::new();
                                last = None;
                                proof {
                                    let next = spec_compose_from(
                                        v@, i as int + 1, composee, buf@, last);
                                    assert(buf@ =~= Seq::<char>::empty());
                                    assert(rest0 == (seq![k] + buf0) + next);
                                    assert(out@ =~= (out0 + seq![k]) + buf0);
                                    assert(out0 + rest0 =~= out@ + next);
                                }
                            } else {
                                buf.push(ch);
                                last = Some(cls);
                            }
                        } else {
                            match compose(k, ch) {
                                Some(r) => {
                                    composee = Some(r);
                                },
                                None => {
                                    buf.push(ch);
                                    last = Some(cls);
                                },
                            }
                        }
                    },
                }
            },
        }
        i += 1;
    }
    let ghost out1 = out@;
    let ghost flush = spec_compose_flush(composee, buf@);
    match composee {
        None => {},
        Some(k) => {
            out.push(k);
        },
    }
    push_all(&mut out, &buf);
    proof {
        assert(out@ =~= out1 + flush);
    }
    out
}

} // verus!
