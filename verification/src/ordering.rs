//! Canonical ordering: combining marks are stably reordered by ascending
//! combining class.  One character at a time is inserted at the end of the
//! buffer and moved backward past every mark of strictly greater class;
//! starters never move and act as barriers, and marks of equal class keep
//! their relative order (stability).

use vstd::prelude::*;
use crate::tables::{combining_class_lookup, combining_class_of};

verus! {

/// Inserts `c` behind the marks of `s` whose class exceeds `c`'s: the result
/// of one step of the canonical ordering algorithm on the buffer `s`.
pub open spec fn spec_insert_mark(s: Seq<char>, c: char) -> Seq<char>
    decreases s.len(),
{
    if s.len() == 0 {
        seq![c]
    } else if combining_class_of(c) != 0 && combining_class_of(s.last()) > combining_class_of(c) {
        spec_insert_mark(s.drop_last(), c).push(s.last())
    } else {
        s.push(c)
    }
}

/// The canonical ordering of `s`: every character inserted in turn.
pub open spec fn spec_canonical_order(s: Seq<char>) -> Seq<char>
    decreases s.len(),
{
    if s.len() == 0 {
        Seq::empty()
    } else {
        spec_insert_mark(spec_canonical_order(s.drop_last()), s.last())
    }
}

/// Canonically ordered: at every boundary, either the right-hand character
/// is a starter or the classes do not decrease — equivalently, every
/// maximal run of combining marks is non-decreasing in combining class.
pub open spec fn ordered_marks(s: Seq<char>) -> bool {
    forall|i: int|
        1 <= i && i < s.len() ==> (#[trigger] combining_class_of(s[i]) == 0
            || combining_class_of(s[i - 1]) <= combining_class_of(s[i]))
}

proof fn lemma_insert_mark_len(s: Seq<char>, c: char)
    ensures
        spec_insert_mark(s, c).len() == s.len() + 1,
    decreases s.len(),
{
    if s.len() != 0 && combining_class_of(c) != 0
        && combining_class_of(s.last()) > combining_class_of(c) {
        lemma_insert_mark_len(s.drop_last(), c);
    }
}

proof fn lemma_ordered_drop_last(s: Seq<char>)
    requires
        ordered_marks(s),
        s.len() > 0,
    ensures
        ordered_marks(s.drop_last()),
{
    let t = s.drop_last();
    assert forall|i: int|
        1 <= i && i < t.len() implies (#[trigger] combining_class_of(t[i]) == 0
        || combining_class_of(t[i - 1]) <= combining_class_of(t[i])) by {
        assert(t[i] == s[i]);
        assert(t[i - 1] == s[i - 1]);
        assert(combining_class_of(s[i]) == 0 || combining_class_of(s[i - 1])
            <= combining_class_of(s[i]));
    }
}

proof fn lemma_insert_mark_preserves_ordered(s: Seq<char>, c: char)
    requires
        ordered_marks(s),
    ensures
        ordered_marks(spec_insert_mark(s, c)),
    decreases s.len(),
{
    let r = spec_insert_mark(s, c);
    if s.len() == 0 {
        assert(ordered_marks(r));
    } else if combining_class_of(c) != 0
        && combining_class_of(s.last()) > combining_class_of(c) {
        let t = spec_insert_mark(s.drop_last(), c);
        lemma_ordered_drop_last(s);
        lemma_insert_mark_preserves_ordered(s.drop_last(), c);
        lemma_insert_mark_len(s.drop_last(), c);
        // r == t.push(s.last()); boundaries inside t are unchanged, and the
        // last element of t (either c or the old second-to-last character)
        // has a class at most that of s.last(), which is not a starter.
        if s.drop_last().len() == 0 {
            assert(t =~= seq![c]);
        } else if combining_class_of(s.drop_last().last()) > combining_class_of(c) {
            assert(t.last() == s.drop_last().last());
            assert(s.drop_last().last() == s[s.len() - 2]);
            assert(combining_class_of(s[s.len() - 1]) == 0 || combining_class_of(s[s.len() - 2])
                <= combining_class_of(s[s.len() - 1]));
            assert(s[s.len() - 1] == s.last());
        } else {
            assert(t.last() == c);
        }
        assert(combining_class_of(t.last()) <= combining_class_of(s.last()));
        assert forall|i: int|
            1 <= i && i < r.len() implies (#[trigger] combining_class_of(r[i]) == 0
            || combining_class_of(r[i - 1]) <= combining_class_of(r[i])) by {
            if i < t.len() {
                assert(r[i] == t[i]);
                assert(r[i - 1] == t[i - 1]);
                assert(combining_class_of(t[i]) == 0 || combining_class_of(t[i - 1])
                    <= combining_class_of(t[i]));
            } else {
                assert(r[i] == s.last());
                assert(r[i - 1] == t[t.len() - 1]);
                assert(t[t.len() - 1] == t.last());
            }
        }
    } else {
        assert(r == s.push(c));
        assert forall|i: int|
            1 <= i && i < r.len() implies (#[trigger] combining_class_of(r[i]) == 0
            || combining_class_of(r[i - 1]) <= combining_class_of(r[i])) by {
            if i < s.len() {
                assert(r[i] == s[i]);
                assert(r[i - 1] == s[i - 1]);
                assert(combining_class_of(s[i]) == 0 || combining_class_of(s[i - 1])
                    <= combining_class_of(s[i]));
            } else {
                assert(r[i] == c);
                assert(r[i - 1] == s.last());
            }
        }
    }
}

/// After canonical ordering, every maximal run of combining marks is
/// non-decreasing in combining class.
pub proof fn lemma_canonical_order_sorted(s: Seq<char>)
    ensures
        ordered_marks(spec_canonical_order(s)),
    decreases s.len(),
{
    if s.len() == 0 {
    } else {
        lemma_canonical_order_sorted(s.drop_last());
        lemma_insert_mark_preserves_ordered(spec_canonical_order(s.drop_last()), s.last());
    }
}

proof fn lemma_ordered_insert_is_push(s: Seq<char>, c: char)
    requires
        ordered_marks(s.push(c)),
    ensures
        spec_insert_mark(s, c) == s.push(c),
{
    if s.len() == 0 {
        assert(spec_insert_mark(s, c) =~= s.push(c));
    } else {
        let p = s.push(c);
        assert(combining_class_of(p[p.len() - 1]) == 0 || combining_class_of(p[p.len() - 2])
            <= combining_class_of(p[p.len() - 1]));
        assert(p[p.len() - 2] == s.last());
        assert(p[p.len() - 1] == c);
    }
}

/// A sequence that is already canonically ordered is left unchanged by
/// reordering.
pub proof fn lemma_ordered_fixpoint(s: Seq<char>)
    requires
        ordered_marks(s),
    ensures
        spec_canonical_order(s) == s,
    decreases s.len(),
{
    if s.len() == 0 {
        assert(spec_canonical_order(s) =~= s);
    } else {
        lemma_ordered_drop_last(s);
        lemma_ordered_fixpoint(s.drop_last());
        assert(s.drop_last().push(s.last()) =~= s);
        lemma_ordered_insert_is_push(s.drop_last(), s.last());
    }
}

proof fn lemma_insert_mark_membership(s: Seq<char>, c: char)
    ensures
        forall|j: int|
            0 <= j < spec_insert_mark(s, c).len() ==> (#[trigger] spec_insert_mark(s, c)[j] == c
                || s.contains(spec_insert_mark(s, c)[j])),
    decreases s.len(),
{
    let r = spec_insert_mark(s, c);
    if s.len() == 0 {
        assert(r[0] == c);
    } else if combining_class_of(c) != 0
        && combining_class_of(s.last()) > combining_class_of(c) {
        let t = spec_insert_mark(s.drop_last(), c);
        lemma_insert_mark_membership(s.drop_last(), c);
        lemma_insert_mark_len(s.drop_last(), c);
        assert forall|j: int| 0 <= j < r.len() implies (#[trigger] r[j] == c || s.contains(
            r[j],
        )) by {
            if j < t.len() {
                assert(r[j] == t[j]);
                if t[j] != c {
                    assert(s.drop_last().contains(t[j]));
                    let i = choose|i: int|
                        0 <= i < s.drop_last().len() && s.drop_last()[i] == t[j];
                    assert(s[i] == t[j]);
                }
            } else {
                assert(r[j] == s.last());
                assert(s[s.len() - 1] == s.last());
            }
        }
    } else {
        assert forall|j: int| 0 <= j < r.len() implies (#[trigger] r[j] == c || s.contains(
            r[j],
        )) by {
            if j < s.len() {
                assert(r[j] == s[j]);
            }
        }
    }
}

/// Canonical ordering only rearranges: every character of the result
/// occurs in the input.
pub proof fn lemma_canonical_order_membership(s: Seq<char>)
    ensures
        forall|j: int|
            0 <= j < spec_canonical_order(s).len() ==> s.contains(
                #[trigger] spec_canonical_order(s)[j],
            ),
    decreases s.len(),
{
    let r = spec_canonical_order(s);
    if s.len() == 0 {
    } else {
        let t = spec_canonical_order(s.drop_last());
        lemma_canonical_order_membership(s.drop_last());
        lemma_insert_mark_membership(t, s.last());
        assert forall|j: int| 0 <= j < r.len() implies s.contains(#[trigger] r[j]) by {
            if r[j] == s.last() {
                assert(s[s.len() - 1] == s.last());
            } else {
                assert(t.contains(r[j]));
                let i = choose|i: int| 0 <= i < t.len() && t[i] == r[j];
                assert(s.drop_last().contains(t[i]));
                let m = choose|m: int|
                    0 <= m < s.drop_last().len() && s.drop_last()[m] == t[i];
                assert(s[m] == r[j]);
            }
        }
    }
}

/// Canonical ordering is idempotent: reordering an already reordered
/// sequence leaves it unchanged.
pub proof fn lemma_canonical_order_idempotent(s: Seq<char>)
    ensures
        spec_canonical_order(spec_canonical_order(s)) == spec_canonical_order(s),
{
    lemma_canonical_order_sorted(s);
    lemma_ordered_fixpoint(spec_canonical_order(s));
}

/// Moves `c` backward from the end of the buffer past every combining mark
/// of strictly greater class, then places it: one step of the canonical
/// ordering algorithm.
fn insert_mark(out: &mut Vec<char>, c: char)
    ensures
        final(out)@ == spec_insert_mark(old(out)@, c),
{
    let ghost s = out@;
    let cls = combining_class_lookup(c);
    let mut j: usize = out.len();
    proof {
        assert(s.subrange(0, j as int) =~= s);
        assert(s.subrange(j as int, s.len() as int) =~= Seq::<char>::empty());
        assert(spec_insert_mark(s, c) =~= spec_insert_mark(s.subrange(0, j as int), c)
            + s.subrange(j as int, s.len() as int));
    }
    let mut stop = false;
    if cls != 0 {
        while j > 0 && !stop
            invariant
                j <= s.len(),
                out@ == s,
                cls == combining_class_of(c),
                cls != 0,
                stop ==> j > 0 && combining_class_of(s[j as int - 1]) <= cls,
                spec_insert_mark(s, c) == spec_insert_mark(s.subrange(0, j as int), c)
                    + s.subrange(j as int, s.len() as int),
            decreases j + (if stop { 0int } else { 1int }),
        {
            let d = combining_class_lookup(out[j - 1]);
            if d <= cls {
                stop = true;
            } else {
                proof {
                    let front = s.subrange(0, j as int);
                    assert(front.last() == s[j as int - 1]);
                    assert(front.drop_last() =~= s.subrange(0, j as int - 1));
                    assert(spec_insert_mark(front, c) == spec_insert_mark(
                        s.subrange(0, j as int - 1),
                        c,
                    ).push(s[j as int - 1]));
                    assert(s.subrange(j as int - 1, s.len() as int) =~= seq![s[j as int - 1]]
                        + s.subrange(j as int, s.len() as int));
                    assert(spec_insert_mark(s.subrange(0, j as int - 1), c).push(s[j as int - 1])
                        + s.subrange(j as int, s.len() as int) =~= spec_insert_mark(
                        s.subrange(0, j as int - 1),
                        c,
                    ) + s.subrange(j as int - 1, s.len() as int));
                }
                j -= 1;
            }
        }
    }
    proof {
        let front = s.subrange(0, j as int);
        if j == 0 {
            assert(spec_insert_mark(front, c) =~= front.push(c));
        } else if cls == 0 {
            assert(spec_insert_mark(front, c) =~= front.push(c));
        } else {
            assert(front.last() == s[j as int - 1]);
            assert(combining_class_of(front.last()) <= combining_class_of(c));
            assert(spec_insert_mark(front, c) =~= front.push(c));
        }
        assert(front.push(c) + s.subrange(j as int, s.len() as int) =~= s.insert(j as int, c));
    }
    out.insert(j, c);
}

/// Canonically reorders the whole buffer: stable by construction, since a
/// character never moves past one of equal class.
pub fn canonical_order(v: &Vec<char>) -> (r: Vec<char>)
    ensures
        r@ == spec_canonical_order(v@),
{
    let mut out: Vec<char> = Vec::new();
    let mut i: usize = 0;
    while i < v.len()
        invariant
            i <= v@.len(),
            out@ == spec_canonical_order(v@.subrange(0, i as int)),
        decreases v@.len() - i,
    {
        insert_mark(&mut out, v[i]);
        i += 1;
        proof {
            let pre = v@.subrange(0, i as int);
            assert(pre.drop_last() =~= v@.subrange(0, i as int - 1));
            assert(pre.last() == v@[i as int - 1]);
        }
    }
    proof {
        assert(v@.subrange(0, v@.len() as int) =~= v@);
    }
    out
}

} // verus!
