//! The stream-safe bounder: caps runs of consecutive non-starters by
//! inserting a COMBINING GRAPHEME JOINER once the cap is reached, so that
//! every downstream buffering stage needs only bounded lookahead.
//!
//! As in UAX #15's stream-safe text process, the running count is taken
//! over the compatibility decompositions of the incoming characters, so
//! that the bound still holds after the text is decomposed.  The bounder
//! additionally guards on the emitted run itself, so the bound on its
//! output holds for every value of the property tables.

use vstd::prelude::*;
use crate::decompose::{decompose_char, spec_decompose_char, DecompositionKind};
use crate::tables::{combining_class_lookup, combining_class_of};

verus! {

/// The longest run of non-starters that stream-safe text allows.
pub const MAX_NONSTARTERS: usize = 30;

/// U+034F, the starter inserted to break an over-long run.
pub const COMBINING_GRAPHEME_JOINER: char = '\u{034f}';

/// How many characters at the front of `d` are non-starters.
pub open spec fn leading_nonstarters(d: Seq<char>) -> int
    decreases d.len(),
{
    if d.len() == 0 {
        0
    } else if combining_class_of(d[0]) != 0 {
        1 + leading_nonstarters(d.subrange(1, d.len() as int))
    } else {
        0
    }
}

/// How many characters at the back of `d` are non-starters.
pub open spec fn trailing_nonstarters(d: Seq<char>) -> int
    decreases d.len(),
{
    if d.len() == 0 {
        0
    } else if combining_class_of(d.last()) != 0 {
        1 + trailing_nonstarters(d.drop_last())
    } else {
        0
    }
}

proof fn lemma_leading_nonstarters_value(d: Seq<char>, n: int)
    requires
        0 <= n <= d.len(),
        forall|k: int| 0 <= k < n ==> combining_class_of(#[trigger] d[k]) != 0,
        n == d.len() || combining_class_of(d[n]) == 0,
    ensures
        leading_nonstarters(d) == n,
    decreases d.len(),
{
    if d.len() == 0 {
    } else if combining_class_of(d[0]) != 0 {
        assert(n != 0);
        let t = d.subrange(1, d.len() as int);
        assert forall|k: int| 0 <= k < n - 1 implies combining_class_of(#[trigger] t[k])
            != 0 by {
            assert(t[k] == d[k + 1]);
        }
        if n < d.len() {
            assert(t[n - 1] == d[n]);
        }
        lemma_leading_nonstarters_value(t, n - 1);
    } else {
        assert(n == 0);
    }
}

proof fn lemma_trailing_nonstarters_value(d: Seq<char>, n: int)
    requires
        0 <= n <= d.len(),
        forall|k: int| d.len() - n <= k < d.len() ==> combining_class_of(#[trigger] d[k]) != 0,
        n == d.len() || combining_class_of(d[d.len() - n - 1]) == 0,
    ensures
        trailing_nonstarters(d) == n,
    decreases d.len(),
{
    if d.len() == 0 {
    } else if combining_class_of(d.last()) != 0 {
        assert(n != 0);
        let t = d.drop_last();
        assert forall|k: int| t.len() - (n - 1) <= k < t.len() implies combining_class_of(
            #[trigger] t[k],
        ) != 0 by {
            assert(t[k] == d[k]);
        }
        if n < d.len() {
            assert(t[t.len() - (n - 1) - 1] == d[d.len() - n - 1]);
        }
        lemma_trailing_nonstarters_value(t, n - 1);
    } else {
        assert(n == 0);
    }
}

/// Counts, for one character, the non-starters at the front and at the back
/// of its compatibility decomposition, and that decomposition's length.
pub fn classify_nonstarters(c: char) -> (r: (usize, usize, usize))
    ensures
        ({
            let d = spec_decompose_char(DecompositionKind::Compatible, c);
            r.0 == leading_nonstarters(d) && r.1 == trailing_nonstarters(d) && r.2 == d.len()
        }),
{
    let d = decompose_char(DecompositionKind::Compatible, c);
    let n = d.len();
    let mut lead: usize = 0;
    let mut lead_stop = false;
    while lead < n && !lead_stop
        invariant
            n == d@.len(),
            lead <= n,
            forall|k: int| 0 <= k < lead ==> combining_class_of(#[trigger] d@[k]) != 0,
            lead_stop ==> lead < n && combining_class_of(d@[lead as int]) == 0,
        decreases n - lead + (if lead_stop { 0int } else { 1int }),
    {
        let cc = combining_class_lookup(d[lead]);
        if cc == 0 {
            lead_stop = true;
        } else {
            lead += 1;
        }
    }
    proof {
        lemma_leading_nonstarters_value(d@, lead as int);
    }
    let mut trail: usize = 0;
    let mut trail_stop = false;
    while trail < n && !trail_stop
        invariant
            n == d@.len(),
            trail <= n,
            forall|k: int| n - trail <= k < n ==> combining_class_of(#[trigger] d@[k]) != 0,
            trail_stop ==> trail < n && combining_class_of(d@[n - trail - 1]) == 0,
        decreases n - trail + (if trail_stop { 0int } else { 1int }),
    {
        let cc = combining_class_lookup(d[n - 1 - trail]);
        if cc == 0 {
            trail_stop = true;
        } else {
            trail += 1;
        }
    }
    proof {
        lemma_trailing_nonstarters_value(d@, trail as int);
    }
    (lead, trail, n)
}

/// A starter somewhere in `s[lo..hi]`.
pub open spec fn has_starter(s: Seq<char>, lo: int, hi: int) -> bool {
    exists|k: int| lo <= k < hi && combining_class_of(#[trigger] s[k]) == 0
}

/// The window of 31 characters starting at `i` contains a starter (or runs
/// past the end of `s`).
pub open spec fn window_ok(s: Seq<char>, i: int) -> bool {
    i + 31 <= s.len() ==> has_starter(s, i, i + 31)
}

/// No run of consecutive non-starters in `s` is longer than 30: every 31
/// consecutive characters contain a starter.
pub open spec fn bounded_runs(s: Seq<char>) -> bool {
    forall|i: int| 0 <= i ==> #[trigger] window_ok(s, i)
}

/// The emitted sequence ends in exactly `run` non-starters, `run` at most
/// 30: the character just before them (if any) is a starter.
pub open spec fn run_inv(s: Seq<char>, run: int) -> bool {
    &&& 0 <= run <= s.len()
    &&& run <= 30
    &&& run < s.len() ==> combining_class_of(s[s.len() - run - 1]) == 0
}

proof fn lemma_bounded_push(s: Seq<char>, c: char, run: int)
    requires
        bounded_runs(s),
        run_inv(s, run),
        combining_class_of(c) != 0 ==> run < 30,
    ensures
        bounded_runs(s.push(c)),
        run_inv(s.push(c), if combining_class_of(c) != 0 { run + 1 } else { 0 }),
{
    let p = s.push(c);
    let run2: int = if combining_class_of(c) != 0 { run + 1 } else { 0 };
    if combining_class_of(c) != 0 {
        if run2 < p.len() {
            assert(p[p.len() - run2 - 1] == s[s.len() - run - 1]);
        }
    } else {
        assert(p[p.len() - 1] == c);
    }
    assert forall|i: int| 0 <= i implies #[trigger] window_ok(p, i) by {
        if i + 31 <= p.len() {
            if i + 31 <= s.len() {
                assert(window_ok(s, i));
                let k = choose|k: int| i <= k < i + 31 && combining_class_of(#[trigger] s[k]) == 0;
                assert(combining_class_of(p[k]) == 0);
            } else {
                // The window ends at the new character.
                if combining_class_of(c) == 0 {
                    assert(combining_class_of(p[p.len() - 1]) == 0);
                    assert(i <= p.len() - 1 < i + 31);
                } else {
                    // run < 30 and the window is 31 wide, so the starter
                    // that closes the old trailing run lies inside it.
                    let k0 = s.len() - run - 1;
                    assert(run < s.len());
                    assert(combining_class_of(p[k0]) == 0);
                    assert(i <= k0 < i + 31);
                }
            }
        }
    }
}

spec fn capped(x: int) -> int {
    if x > 31 {
        31
    } else {
        x
    }
}

/// The output of the bounder from position `i` on, given the running count
/// of non-starters (over decompositions) and the length of the run of
/// non-starters just emitted.
pub open spec fn spec_stream_safe_from(s: Seq<char>, i: int, count: int, run: int) -> Seq<char>
    decreases s.len() - i,
    when 0 <= i <= s.len()
{
    if i >= s.len() {
        Seq::empty()
    } else {
        let ch = s[i];
        let d = spec_decompose_char(DecompositionKind::Compatible, ch);
        let lead = leading_nonstarters(d);
        let trail = trailing_nonstarters(d);
        let dlen = d.len() as int;
        let ns = combining_class_of(ch) != 0;
        let insert = count + lead > MAX_NONSTARTERS as int || (ns && run >= MAX_NONSTARTERS as int);
        let count0: int = if insert { 0 } else { count };
        let run0: int = if insert { 0 } else { run };
        let count1: int = if lead == dlen { count0 + dlen } else { trail };
        let run1: int = if ns { run0 + 1 } else { 0 };
        if insert {
            seq![COMBINING_GRAPHEME_JOINER, ch] + spec_stream_safe_from(s, i + 1, count1, run1)
        } else {
            seq![ch] + spec_stream_safe_from(s, i + 1, count1, run1)
        }
    }
}

/// The stream-safe rewriting of `s`.
pub open spec fn spec_stream_safe(s: Seq<char>) -> Seq<char> {
    spec_stream_safe_from(s, 0, 0, 0)
}

/// Rewrites the input so that no run of consecutive non-starters exceeds
/// 30, inserting a COMBINING GRAPHEME JOINER (itself a starter) where the
/// cap would be passed.
pub fn stream_safe_chars(v: &Vec<char>) -> (r: Vec<char>)
    ensures
        r@ == spec_stream_safe(v@),
        bounded_runs(r@),
{
    let mut out: Vec<char> = Vec::new();
    let mut count: usize = 0;
    let ghost mut gcount: int = 0;
    let mut run: usize = 0;
    let mut i: usize = 0;
    while i < v.len()
        invariant
            i <= v@.len(),
            out@ + spec_stream_safe_from(v@, i as int, gcount, run as int) == spec_stream_safe(
                v@,
            ),
            0 <= gcount,
            count == capped(gcount),
            run <= 30,
            run_inv(out@, run as int),
            bounded_runs(out@),
        decreases v@.len() - i,
    {
        let ghost out0 = out@;
        let ghost rest0 = spec_stream_safe_from(v@, i as int, gcount, run as int);
        let ch = v[i];
        let (lead, trail, dlen) = classify_nonstarters(ch);
        let ccc = combining_class_lookup(ch);
        let ns = ccc != 0;
        let insert = lead > MAX_NONSTARTERS || count > MAX_NONSTARTERS - lead || (ns && run
            >= MAX_NONSTARTERS);
        proof {
            assert(insert == (gcount + lead > MAX_NONSTARTERS as int || (ns && run as int
                >= MAX_NONSTARTERS as int)));
        }
        let count0: usize = if insert {
            0
        } else {
            count
        };
        let ghost gcount0: int = if insert {
            0int
        } else {
            gcount
        };
        let run0: usize = if insert {
            0
        } else {
            run
        };
        if insert {
            let cgj_cc = combining_class_lookup(COMBINING_GRAPHEME_JOINER);
            proof {
                lemma_bounded_push(out@, COMBINING_GRAPHEME_JOINER, run as int);
            }
            out.push(COMBINING_GRAPHEME_JOINER);
        }
        proof {
            lemma_bounded_push(out@, ch, if insert { 0int } else { run as int });
        }
        out.push(ch);
        if lead == dlen {
            count = if dlen > 31 - count0 {
                31
            } else {
                count0 + dlen
            };
            proof {
                gcount = gcount0 + dlen;
            }
        } else {
            count = if trail > 31 {
                31
            } else {
                trail
            };
            proof {
                gcount = trail as int;
            }
        }
        run = if ns {
            run0 + 1
        } else {
            0
        };
        proof {
            let next = spec_stream_safe_from(v@, i as int + 1, gcount, run as int);
            if insert {
                assert(rest0 == seq![COMBINING_GRAPHEME_JOINER, ch] + next);
                assert(out@ =~= out0 + seq![COMBINING_GRAPHEME_JOINER, ch]);
                assert(out0 + rest0 =~= out@ + next);
            } else {
                assert(rest0 == seq![ch] + next);
                assert(out@ =~= out0 + seq![ch]);
                assert(out0 + rest0 =~= out@ + next);
            }
        }
        i += 1;
    }
    out
}

} // verus!
