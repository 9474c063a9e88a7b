//! What holds of units, whatever the units.

use super::base::{Base, PhysicalQuantity};
use super::number::{
    first_alike, fold_across, has_alike, is_first_alike, merge_all, merge_from, simplify,
};
use super::unit::{
    cancel, commensurable, compose, count_of, counts_match, first_offset, first_same, has_same,
    is_first_offset, is_first_same, misplaced, reduced, well_placed, zeros_agree, UnitView,
};
use crate::float::Float;
use vstd::prelude::*;

verus! {

/// Likeness of bases is symmetric.
pub proof fn lemma_same_symmetric(a: Base, b: Base)
    requires
        a.same(b),
    ensures
        b.same(a),
{
}

/// Likeness of bases is transitive.
pub proof fn lemma_same_transitive(a: Base, b: Base, c: Base)
    requires
        a.same(b),
        b.same(c),
    ensures
        a.same(c),
{
}

/// Where a sequence holds a base like `x`, there is a first such base.
pub proof fn lemma_first_same_exists(s: Seq<Base>, x: Base, k: int)
    requires
        0 <= k < s.len(),
        x.same(s[k]),
    ensures
        has_same(s, x),
        is_first_same(s, x, first_same(s, x)),
    decreases k,
{
    if exists|i: int| 0 <= i < k && x.same(s[i]) {
        let i = choose|i: int| 0 <= i < k && x.same(s[i]);
        lemma_first_same_exists(s, x, i);
    } else {
        assert(is_first_same(s, x, k));
    }
}

/// Where a sequence holds an absolute scale, there is a first one.
pub proof fn lemma_first_offset_exists(s: Seq<Base>, k: int)
    requires
        0 <= k < s.len(),
        s[k].has_offset(),
    ensures
        first_offset(s) is Some,
    decreases k,
{
    if exists|i: int| 0 <= i < k && s[i].has_offset() {
        let i = choose|i: int| 0 <= i < k && s[i].has_offset();
        lemma_first_offset_exists(s, i);
    } else {
        assert(is_first_offset(s, k));
    }
}

/// Whether each base of `r` is a base of `d`.
pub open spec fn drawn_from(r: Seq<Base>, d: Seq<Base>) -> bool {
    forall|j: int| 0 <= j < r.len() ==> is_in(d, #[trigger] r[j])
}

/// Whether `x` is one of the bases in `d`.
pub open spec fn is_in(d: Seq<Base>, x: Base) -> bool {
    exists|k: int| 0 <= k < d.len() && #[trigger] d[k] == x
}

/// Cancelling leaves no base on both sides of the fraction, and leaves in the
/// denominator only bases that were there.
pub proof fn lemma_cancel_reduced(numer: Seq<Base>, denom: Seq<Base>)
    ensures
        reduced(cancel(numer, denom).0, cancel(numer, denom).1),
        drawn_from(cancel(numer, denom).1, denom),
    decreases numer.len(),
{
    let r = cancel(numer, denom);
    if numer.len() == 0 {
        assert forall|j: int| 0 <= j < r.1.len() implies is_in(denom, #[trigger] r.1[j]) by {
            assert(denom[j] == r.1[j]);
        }
    } else if has_same(denom, numer[0]) {
        let at = first_same(denom, numer[0]);
        let rest = denom.remove(at);
        lemma_cancel_reduced(numer.drop_first(), rest);
        assert forall|j: int| 0 <= j < r.1.len() implies is_in(denom, #[trigger] r.1[j]) by {
            assert(is_in(rest, r.1[j]));
            let k = choose|k: int| 0 <= k < rest.len() && #[trigger] rest[k] == r.1[j];
            if k < at {
                assert(denom[k] == rest[k]);
            } else {
                assert(denom[k + 1] == rest[k]);
            }
        }
    } else {
        let y = numer[0];
        let rest = cancel(numer.drop_first(), denom);
        lemma_cancel_reduced(numer.drop_first(), denom);
        assert forall|i: int, j: int| 0 <= i < r.0.len() && 0 <= j < r.1.len() implies !(
        #[trigger] r.0[i]).same(#[trigger] r.1[j]) by {
            if i == 0 {
                assert(is_in(denom, r.1[j]));
                let k = choose|k: int| 0 <= k < denom.len() && #[trigger] denom[k] == r.1[j];
                if y.same(denom[k]) {
                    lemma_first_same_exists(denom, y, k);
                }
            } else {
                assert(r.0[i] == rest.0[i - 1]);
            }
        }
    }
}

/// In a unit that was made, no base stands on both sides of the fraction,
/// and an absolute scale stands only alone in the numerator.
pub proof fn lemma_composed_unit_is_valid(numer: Seq<Base>, denom: Seq<Base>, constant: Float)
    requires
        compose(numer, denom, constant) is Ok,
    ensures
        reduced(
            compose(numer, denom, constant)->Ok_0.numer,
            compose(numer, denom, constant)->Ok_0.denom,
        ),
        well_placed(compose(numer, denom, constant)->Ok_0),
{
    lemma_cancel_reduced(numer, denom);
    let u = compose(numer, denom, constant)->Ok_0;
    assert(misplaced(u.numer, u.denom) is None);
    assert forall|j: int| 0 <= j < u.denom.len() implies !(#[trigger] u.denom[j]).has_offset() by {
        if u.denom[j].has_offset() {
            lemma_first_offset_exists(u.denom, j);
        }
    }
    if u.numer.len() > 1 || u.denom.len() > 0 {
        assert forall|i: int| 0 <= i < u.numer.len() implies !(#[trigger] u.numer[i]).has_offset() by {
            if u.numer[i].has_offset() {
                lemma_first_offset_exists(u.numer, i);
            }
        }
    }
}

/// A base is counted once, for the quantity that it measures.
pub proof fn lemma_count_of_single(b: Base, q: PhysicalQuantity)
    ensures
        count_of(seq![b], q) == (if b.physq == q {
            1nat
        } else {
            0nat
        }),
{
    assert(seq![b].drop_last() =~= Seq::<Base>::empty());
    assert(count_of(Seq::<Base>::empty(), q) == 0);
}

/// The rule of temperatures, and of every other quantity: a value on one
/// scale can be brought to another scale of the same quantity where one of
/// the two starts where the SI unit starts, where both are absolute scales,
/// or where both are scales of differences, and in no other case.
pub proof fn lemma_scales_are_commensurable(a: Base, b: Base)
    ensures
        commensurable(UnitView::of_base(a), UnitView::of_base(b)) <==> (a.physq == b.physq
            && zeros_agree(a, b)),
        a.physq == b.physq && a.zero is Some && b.zero is Some ==> commensurable(
            UnitView::of_base(a),
            UnitView::of_base(b),
        ),
        a.physq == b.physq && a.zero is None && b.zero is None ==> commensurable(
            UnitView::of_base(a),
            UnitView::of_base(b),
        ),
        a.physq == b.physq && (a.is_zero_based() || b.is_zero_based()) ==> commensurable(
            UnitView::of_base(a),
            UnitView::of_base(b),
        ),
        a.has_offset() && b.zero is None ==> !commensurable(
            UnitView::of_base(a),
            UnitView::of_base(b),
        ),
        a.zero is None && b.has_offset() ==> !commensurable(
            UnitView::of_base(a),
            UnitView::of_base(b),
        ),
{
    assert forall|q: PhysicalQuantity|
        count_of(seq![a], q) == (if a.physq == q {
            1nat
        } else {
            0nat
        }) && count_of(seq![b], q) == (if b.physq == q {
            1nat
        } else {
            0nat
        }) by {
        lemma_count_of_single(a, q);
        lemma_count_of_single(b, q);
    }
    assert(counts_match(seq![a], seq![b]) <==> a.physq == b.physq) by {
        if counts_match(seq![a], seq![b]) {
            assert(count_of(seq![a], a.physq) == count_of(seq![b], a.physq));
        }
    }
    assert(counts_match(Seq::<Base>::empty(), Seq::<Base>::empty()));
    assert(UnitView::of_base(a).denom =~= Seq::<Base>::empty());
    assert(UnitView::of_base(b).denom =~= Seq::<Base>::empty());
}

/// How many bases in `s` are like `x`.
pub open spec fn like_count(s: Seq<Base>, x: Base) -> nat
    decreases s.len(),
{
    if s.len() == 0 {
        0
    } else {
        like_count(s.drop_last(), x) + if s.last().same(x) {
            1nat
        } else {
            0nat
        }
    }
}

/// The bases in `s` that are like no base, not even themselves: those with a
/// factor or a zero that is no number.
pub open spec fn odd_ones(s: Seq<Base>) -> Seq<Base>
    decreases s.len(),
{
    if s.len() == 0 {
        s
    } else if s.last().same(s.last()) {
        odd_ones(s.drop_last())
    } else {
        odd_ones(s.drop_last()).push(s.last())
    }
}

/// How many bases in `s` are like themselves and measure `q`.
pub open spec fn even_count(s: Seq<Base>, q: PhysicalQuantity) -> nat
    decreases s.len(),
{
    if s.len() == 0 {
        0
    } else {
        even_count(s.drop_last(), q) + if s.last().same(s.last()) && s.last().physq == q {
            1nat
        } else {
            0nat
        }
    }
}

/// The bases in `s` that are not like `y`.
pub open spec fn unlike(s: Seq<Base>, y: Base) -> Seq<Base>
    decreases s.len(),
{
    if s.len() == 0 {
        s
    } else if s.last().same(y) {
        unlike(s.drop_last(), y)
    } else {
        unlike(s.drop_last(), y).push(s.last())
    }
}

/// Counts add up over a sequence in two parts.
pub proof fn lemma_like_count_adds(a: Seq<Base>, b: Seq<Base>, x: Base)
    ensures
        like_count(a + b, x) == like_count(a, x) + like_count(b, x),
    decreases b.len(),
{
    if b.len() == 0 {
        assert(a + b =~= a);
    } else {
        lemma_like_count_adds(a, b.drop_last(), x);
        assert((a + b).drop_last() =~= a + b.drop_last());
        assert((a + b).last() == b.last());
    }
}

/// Counts add up over a sequence in two parts.
pub proof fn lemma_count_of_adds(a: Seq<Base>, b: Seq<Base>, q: PhysicalQuantity)
    ensures
        count_of(a + b, q) == count_of(a, q) + count_of(b, q),
    decreases b.len(),
{
    if b.len() == 0 {
        assert(a + b =~= a);
    } else {
        lemma_count_of_adds(a, b.drop_last(), q);
        assert((a + b).drop_last() =~= a + b.drop_last());
        assert((a + b).last() == b.last());
    }
}

/// Counts add up over a sequence in two parts.
pub proof fn lemma_even_count_adds(a: Seq<Base>, b: Seq<Base>, q: PhysicalQuantity)
    ensures
        even_count(a + b, q) == even_count(a, q) + even_count(b, q),
    decreases b.len(),
{
    if b.len() == 0 {
        assert(a + b =~= a);
    } else {
        lemma_even_count_adds(a, b.drop_last(), q);
        assert((a + b).drop_last() =~= a + b.drop_last());
        assert((a + b).last() == b.last());
    }
}

/// The odd ones of a sequence in two parts are those of the parts.
pub proof fn lemma_odd_ones_add(a: Seq<Base>, b: Seq<Base>)
    ensures
        odd_ones(a + b) == odd_ones(a) + odd_ones(b),
    decreases b.len(),
{
    if b.len() == 0 {
        assert(a + b =~= a);
        assert(odd_ones(a) + odd_ones(b) =~= odd_ones(a));
    } else {
        lemma_odd_ones_add(a, b.drop_last());
        assert((a + b).drop_last() =~= a + b.drop_last());
        assert((a + b).last() == b.last());
        assert(odd_ones(a) + odd_ones(b.drop_last()).push(b.last()) =~= (odd_ones(a) + odd_ones(
            b.drop_last(),
        )).push(b.last()));
    }
}

/// A base that is in a sequence is counted.
pub proof fn lemma_like_count_positive(s: Seq<Base>, x: Base, k: int)
    requires
        0 <= k < s.len(),
        s[k].same(x),
    ensures
        like_count(s, x) > 0,
    decreases s.len(),
{
    if k < s.len() - 1 {
        assert(s.drop_last()[k] == s[k]);
        lemma_like_count_positive(s.drop_last(), x, k);
    }
}

/// A count that is not zero counts a base that is there.
pub proof fn lemma_like_count_witness(s: Seq<Base>, x: Base) -> (k: int)
    requires
        like_count(s, x) > 0,
    ensures
        0 <= k < s.len(),
        s[k].same(x),
    decreases s.len(),
{
    if s.last().same(x) {
        s.len() - 1
    } else {
        let k = lemma_like_count_witness(s.drop_last(), x);
        assert(s.drop_last()[k] == s[k]);
        k
    }
}

/// Every base counts as one that is like itself or as one that is not.
pub proof fn lemma_count_splits(s: Seq<Base>, q: PhysicalQuantity)
    ensures
        count_of(s, q) == even_count(s, q) + count_of(odd_ones(s), q),
    decreases s.len(),
{
    if s.len() > 0 {
        lemma_count_splits(s.drop_last(), q);
        if !s.last().same(s.last()) {
            let o = odd_ones(s.drop_last()).push(s.last());
            assert(o.drop_last() =~= odd_ones(s.drop_last()));
        }
    }
}

/// Taking out the bases like `y` takes out as many as were counted.
pub proof fn lemma_unlike_len(s: Seq<Base>, y: Base)
    ensures
        unlike(s, y).len() + like_count(s, y) == s.len(),
    decreases s.len(),
{
    if s.len() > 0 {
        lemma_unlike_len(s.drop_last(), y);
    }
}

/// Taking out the bases like `y` sets their count to zero and leaves the
/// other counts.
pub proof fn lemma_unlike_count(s: Seq<Base>, y: Base, x: Base)
    ensures
        like_count(unlike(s, y), x) == (if x.same(y) {
            0nat
        } else {
            like_count(s, x)
        }),
    decreases s.len(),
{
    if s.len() > 0 {
        lemma_unlike_count(s.drop_last(), y, x);
        let e = s.last();
        if e.same(y) {
            if e.same(x) && !x.same(y) {
                lemma_same_symmetric(e, x);
                lemma_same_transitive(x, e, y);
            }
        } else {
            let u = unlike(s.drop_last(), y).push(e);
            assert(u.drop_last() =~= unlike(s.drop_last(), y));
            assert(u.last() == e);
            if e.same(x) && x.same(y) {
                lemma_same_transitive(e, x, y);
            }
        }
    }
}

/// The bases like `y` are like themselves and measure what `y` measures.
pub proof fn lemma_unlike_even(s: Seq<Base>, y: Base, q: PhysicalQuantity)
    ensures
        even_count(s, q) == even_count(unlike(s, y), q) + (if y.physq == q {
            like_count(s, y)
        } else {
            0nat
        }),
    decreases s.len(),
{
    if s.len() > 0 {
        lemma_unlike_even(s.drop_last(), y, q);
        let e = s.last();
        if e.same(y) {
            lemma_same_symmetric(e, y);
            lemma_same_transitive(e, y, e);
        } else {
            let u = unlike(s.drop_last(), y).push(e);
            assert(u.drop_last() =~= unlike(s.drop_last(), y));
            assert(u.last() == e);
        }
    }
}

/// A sequence without a base that is like itself holds no base that is like
/// any base.
pub proof fn lemma_no_like_ones(s: Seq<Base>, x: Base)
    requires
        forall|i: int| 0 <= i < s.len() ==> !(#[trigger] s[i]).same(s[i]),
    ensures
        like_count(s, x) == 0,
    decreases s.len(),
{
    if s.len() > 0 {
        assert forall|i: int| 0 <= i < s.drop_last().len() implies !(#[trigger] s.drop_last()[i]).same(
            s.drop_last()[i],
        ) by {
            assert(s.drop_last()[i] == s[i]);
        }
        lemma_no_like_ones(s.drop_last(), x);
        let e = s.last();
        assert(e == s[s.len() - 1]);
        if e.same(x) {
            lemma_same_symmetric(e, x);
            lemma_same_transitive(e, x, e);
        }
    }
}

/// A sequence without a base that is like itself counts nothing.
pub proof fn lemma_no_even_ones(s: Seq<Base>, q: PhysicalQuantity)
    requires
        forall|i: int| 0 <= i < s.len() ==> !(#[trigger] s[i]).same(s[i]),
    ensures
        even_count(s, q) == 0,
    decreases s.len(),
{
    if s.len() > 0 {
        assert forall|i: int| 0 <= i < s.drop_last().len() implies !(#[trigger] s.drop_last()[i]).same(
            s.drop_last()[i],
        ) by {
            assert(s.drop_last()[i] == s[i]);
        }
        lemma_no_even_ones(s.drop_last(), q);
        assert(s.last() == s[s.len() - 1]);
    }
}

/// Sequences that hold as many bases like each base measure each quantity by
/// as many bases that are like themselves.
pub proof fn lemma_like_counts_decide(s: Seq<Base>, t: Seq<Base>, q: PhysicalQuantity)
    requires
        forall|x: Base| like_count(s, x) == like_count(t, x),
    ensures
        even_count(s, q) == even_count(t, q),
    decreases s.len(),
{
    if exists|i: int| 0 <= i < s.len() && (#[trigger] s[i]).same(s[i]) {
        let i = choose|i: int| 0 <= i < s.len() && (#[trigger] s[i]).same(s[i]);
        let y = s[i];
        lemma_like_count_positive(s, y, i);
        lemma_unlike_len(s, y);
        assert(like_count(s, y) == like_count(t, y));
        assert forall|x: Base| like_count(unlike(s, y), x) == like_count(unlike(t, y), x) by {
            assert(like_count(s, x) == like_count(t, x));
            lemma_unlike_count(s, y, x);
            lemma_unlike_count(t, y, x);
        }
        lemma_like_counts_decide(unlike(s, y), unlike(t, y), q);
        lemma_unlike_even(s, y, q);
        lemma_unlike_even(t, y, q);
    } else {
        lemma_no_even_ones(s, q);
        if exists|j: int| 0 <= j < t.len() && (#[trigger] t[j]).same(t[j]) {
            let j = choose|j: int| 0 <= j < t.len() && (#[trigger] t[j]).same(t[j]);
            lemma_like_count_positive(t, t[j], j);
            lemma_no_like_ones(s, t[j]);
            assert(like_count(s, t[j]) == like_count(t, t[j]));
        }
        lemma_no_even_ones(t, q);
    }
}

/// One base is counted once where it is like `x`.
pub proof fn lemma_like_count_single(y: Base, x: Base)
    ensures
        like_count(seq![y], x) == (if y.same(x) {
            1nat
        } else {
            0nat
        }),
        odd_ones(seq![y]) == (if y.same(y) {
            Seq::<Base>::empty()
        } else {
            seq![y]
        }),
{
    assert(seq![y].drop_last() =~= Seq::<Base>::empty());
    assert(like_count(Seq::<Base>::empty(), x) == 0);
    assert(odd_ones(Seq::<Base>::empty()) =~= Seq::<Base>::empty());
    assert(Seq::<Base>::empty().push(y) =~= seq![y]);
}

/// Cancelling takes from both sides as many bases like `x`.
pub proof fn lemma_cancel_balance(numer: Seq<Base>, denom: Seq<Base>, x: Base)
    ensures
        like_count(cancel(numer, denom).0, x) + like_count(denom, x) == like_count(numer, x)
            + like_count(cancel(numer, denom).1, x),
    decreases numer.len(),
{
    if numer.len() > 0 {
        let y = numer[0];
        let tail = numer.drop_first();
        assert(numer =~= seq![y] + tail);
        lemma_like_count_adds(seq![y], tail, x);
        lemma_like_count_single(y, x);
        if has_same(denom, y) {
            let at = first_same(denom, y);
            let z = denom[at];
            let rest = denom.remove(at);
            lemma_cancel_balance(tail, rest, x);
            assert(denom =~= denom.take(at) + seq![z] + denom.skip(at + 1));
            assert(rest =~= denom.take(at) + denom.skip(at + 1));
            lemma_like_count_adds(denom.take(at), seq![z], x);
            lemma_like_count_adds(denom.take(at) + seq![z], denom.skip(at + 1), x);
            lemma_like_count_adds(denom.take(at), denom.skip(at + 1), x);
            lemma_like_count_single(z, x);
            if y.same(x) {
                lemma_same_symmetric(y, z);
                lemma_same_transitive(z, y, x);
            }
            if z.same(x) {
                lemma_same_transitive(y, z, x);
            }
        } else {
            let rest = cancel(tail, denom);
            lemma_cancel_balance(tail, denom, x);
            lemma_like_count_adds(seq![y], rest.0, x);
        }
    }
}

/// After cancelling, a base is like bases of one side at most.
pub proof fn lemma_cancel_apart(numer: Seq<Base>, denom: Seq<Base>, x: Base)
    ensures
        like_count(cancel(numer, denom).0, x) == 0 || like_count(cancel(numer, denom).1, x) == 0,
{
    let r = cancel(numer, denom);
    if like_count(r.0, x) > 0 && like_count(r.1, x) > 0 {
        let i = lemma_like_count_witness(r.0, x);
        let j = lemma_like_count_witness(r.1, x);
        lemma_cancel_reduced(numer, denom);
        lemma_same_symmetric(r.1[j], x);
        lemma_same_transitive(r.0[i], x, r.1[j]);
    }
}

/// Cancelling keeps the bases that are like no base.
pub proof fn lemma_cancel_keeps_odd_ones(numer: Seq<Base>, denom: Seq<Base>)
    ensures
        odd_ones(cancel(numer, denom).0) == odd_ones(numer),
        odd_ones(cancel(numer, denom).1) == odd_ones(denom),
    decreases numer.len(),
{
    if numer.len() > 0 {
        let y = numer[0];
        let tail = numer.drop_first();
        assert(numer =~= seq![y] + tail);
        lemma_odd_ones_add(seq![y], tail);
        lemma_like_count_single(y, y);
        if has_same(denom, y) {
            let at = first_same(denom, y);
            let z = denom[at];
            let rest = denom.remove(at);
            lemma_cancel_keeps_odd_ones(tail, rest);
            assert(denom =~= denom.take(at) + seq![z] + denom.skip(at + 1));
            assert(rest =~= denom.take(at) + denom.skip(at + 1));
            lemma_odd_ones_add(denom.take(at), seq![z]);
            lemma_odd_ones_add(denom.take(at) + seq![z], denom.skip(at + 1));
            lemma_odd_ones_add(denom.take(at), denom.skip(at + 1));
            lemma_like_count_single(z, z);
            lemma_same_symmetric(y, z);
            lemma_same_transitive(y, z, y);
            lemma_same_transitive(z, y, z);
            assert(odd_ones(denom.take(at)) + Seq::<Base>::empty() =~= odd_ones(denom.take(at)));
            assert(Seq::<Base>::empty() + odd_ones(tail) =~= odd_ones(tail));
        } else {
            let rest = cancel(tail, denom);
            lemma_cancel_keeps_odd_ones(tail, denom);
            lemma_odd_ones_add(seq![y], rest.0);
        }
    }
}

/// What cancelling leaves of bases like `x` depends on how many there were
/// on each side, and on nothing else.
pub proof fn lemma_cancel_counts(
    n1: Seq<Base>,
    d1: Seq<Base>,
    n2: Seq<Base>,
    d2: Seq<Base>,
    x: Base,
)
    requires
        like_count(n1, x) == like_count(n2, x),
        like_count(d1, x) == like_count(d2, x),
    ensures
        like_count(cancel(n1, d1).0, x) == like_count(cancel(n2, d2).0, x),
        like_count(cancel(n1, d1).1, x) == like_count(cancel(n2, d2).1, x),
{
    lemma_cancel_balance(n1, d1, x);
    lemma_cancel_balance(n2, d2, x);
    lemma_cancel_apart(n1, d1, x);
    lemma_cancel_apart(n2, d2, x);
}

/// The sum of the counts of all quantities.
pub open spec fn count_of_all(s: Seq<Base>) -> nat {
    count_of(s, PhysicalQuantity::Time) + count_of(s, PhysicalQuantity::Length) + count_of(
        s,
        PhysicalQuantity::Mass,
    ) + count_of(s, PhysicalQuantity::Current) + count_of(s, PhysicalQuantity::Temperature)
        + count_of(s, PhysicalQuantity::AmountOfSubstance) + count_of(
        s,
        PhysicalQuantity::LuminousIntensity,
    ) + count_of(s, PhysicalQuantity::Angle)
}

/// Every base is counted for one quantity.
pub proof fn lemma_counts_cover(s: Seq<Base>)
    ensures
        count_of_all(s) == s.len(),
    decreases s.len(),
{
    if s.len() > 0 {
        lemma_counts_cover(s.drop_last());
    }
}

/// The bases that are left of a product do not depend on the order of the
/// factors, but for their own order: the two results measure each quantity
/// by as many bases on each side, and agree in their bases like `x` and in
/// their bases that are like no base.
pub proof fn lemma_products_agree(a: UnitView, b: UnitView, q: PhysicalQuantity)
    ensures
        count_of(cancel(a.numer + b.numer, a.denom + b.denom).0, q) == count_of(
            cancel(b.numer + a.numer, b.denom + a.denom).0,
            q,
        ),
        count_of(cancel(a.numer + b.numer, a.denom + b.denom).1, q) == count_of(
            cancel(b.numer + a.numer, b.denom + a.denom).1,
            q,
        ),
{
    let n1 = a.numer + b.numer;
    let d1 = a.denom + b.denom;
    let n2 = b.numer + a.numer;
    let d2 = b.denom + a.denom;
    let r1 = cancel(n1, d1);
    let r2 = cancel(n2, d2);
    assert forall|x: Base|
        like_count(r1.0, x) == like_count(r2.0, x) && like_count(r1.1, x) == like_count(
            r2.1,
            x,
        ) by {
        lemma_like_count_adds(a.numer, b.numer, x);
        lemma_like_count_adds(b.numer, a.numer, x);
        lemma_like_count_adds(a.denom, b.denom, x);
        lemma_like_count_adds(b.denom, a.denom, x);
        lemma_cancel_counts(n1, d1, n2, d2, x);
    }
    lemma_like_counts_decide(r1.0, r2.0, q);
    lemma_like_counts_decide(r1.1, r2.1, q);
    lemma_count_splits(r1.0, q);
    lemma_count_splits(r2.0, q);
    lemma_count_splits(r1.1, q);
    lemma_count_splits(r2.1, q);
    lemma_cancel_keeps_odd_ones(n1, d1);
    lemma_cancel_keeps_odd_ones(n2, d2);
    lemma_odd_ones_add(a.numer, b.numer);
    lemma_odd_ones_add(b.numer, a.numer);
    lemma_odd_ones_add(a.denom, b.denom);
    lemma_odd_ones_add(b.denom, a.denom);
    lemma_count_of_adds(odd_ones(a.numer), odd_ones(b.numer), q);
    lemma_count_of_adds(odd_ones(b.numer), odd_ones(a.numer), q);
    lemma_count_of_adds(odd_ones(a.denom), odd_ones(b.denom), q);
    lemma_count_of_adds(odd_ones(b.denom), odd_ones(a.denom), q);
}

/// The bases that are left of a product in either order agree in their bases
/// like `x`.
pub proof fn lemma_products_agree_in_like(a: UnitView, b: UnitView, x: Base)
    ensures
        like_count(cancel(a.numer + b.numer, a.denom + b.denom).0, x) == like_count(
            cancel(b.numer + a.numer, b.denom + a.denom).0,
            x,
        ),
{
    lemma_like_count_adds(a.numer, b.numer, x);
    lemma_like_count_adds(b.numer, a.numer, x);
    lemma_like_count_adds(a.denom, b.denom, x);
    lemma_like_count_adds(b.denom, a.denom, x);
    lemma_cancel_counts(
        a.numer + b.numer,
        a.denom + b.denom,
        b.numer + a.numer,
        b.denom + a.denom,
        x,
    );
}

/// Commutative simplification: the bases that are left of the product of two
/// units are commensurable with those that are left of the product in the
/// other order, whatever the constants and symbols of the results. The
/// population of each quantity does not depend on the order, though the order
/// of the bases may.
pub proof fn lemma_multiply_commutes(a: UnitView, b: UnitView, ab: UnitView, ba: UnitView)
    requires
        ab.numer == cancel(a.numer + b.numer, a.denom + b.denom).0,
        ab.denom == cancel(a.numer + b.numer, a.denom + b.denom).1,
        ba.numer == cancel(b.numer + a.numer, b.denom + a.denom).0,
        ba.denom == cancel(b.numer + a.numer, b.denom + a.denom).1,
    ensures
        commensurable(ab, ba),
{
    assert forall|q: PhysicalQuantity|
        count_of(ab.numer, q) == count_of(ba.numer, q) && count_of(ab.denom, q) == count_of(
            ba.denom,
            q,
        ) by {
        lemma_products_agree(a, b, q);
    }
    if ab.numer.len() == 1 && ab.denom.len() == 0 {
        lemma_counts_cover(ab.numer);
        lemma_counts_cover(ba.numer);
        let x = ab.numer[0];
        let y = ba.numer[0];
        if x.same(x) {
            lemma_like_count_positive(ab.numer, x, 0);
            lemma_products_agree_in_like(a, b, x);
            lemma_like_count_witness(ba.numer, x);
            assert(y.same(x));
        } else {
            lemma_cancel_keeps_odd_ones(a.numer + b.numer, a.denom + b.denom);
            lemma_cancel_keeps_odd_ones(b.numer + a.numer, b.denom + a.denom);
            lemma_odd_ones_add(a.numer, b.numer);
            lemma_odd_ones_add(b.numer, a.numer);
            assert(ab.numer =~= seq![x]);
            assert(ba.numer =~= seq![y]);
            lemma_like_count_single(x, x);
            lemma_like_count_single(y, y);
            let p = odd_ones(a.numer);
            let r = odd_ones(b.numer);
            assert(p + r == seq![x]);
            assert((p + r).len() == 1);
            if p.len() == 0 {
                assert(r + p =~= p + r);
            } else {
                assert(r + p =~= p + r);
            }
            assert(odd_ones(seq![y]) == seq![x]);
            assert(seq![y][0] == seq![x][0]);
        }
    }
}

/// Commutative simplification of units that were made:
/// `multiply(a, b)` and `multiply(b, a)` are commensurable.
pub proof fn lemma_products_are_commensurable(a: UnitView, b: UnitView, c1: Float, c2: Float)
    requires
        compose(a.numer + b.numer, a.denom + b.denom, c1) is Ok,
        compose(b.numer + a.numer, b.denom + a.denom, c2) is Ok,
    ensures
        commensurable(
            compose(a.numer + b.numer, a.denom + b.denom, c1)->Ok_0,
            compose(b.numer + a.numer, b.denom + a.denom, c2)->Ok_0,
        ),
{
    lemma_multiply_commutes(
        a,
        b,
        compose(a.numer + b.numer, a.denom + b.denom, c1)->Ok_0,
        compose(b.numer + a.numer, b.denom + a.denom, c2)->Ok_0,
    );
}

/// Every unit can be converted to itself.
pub proof fn lemma_commensurable_reflexive(u: UnitView)
    ensures
        commensurable(u, u),
{
}

/// A conversion can be undone: where a quantity in the unit `a` can be
/// converted to the unit `b`, a quantity in `b` can be converted to `a`.
pub proof fn lemma_commensurable_symmetric(a: UnitView, b: UnitView)
    requires
        commensurable(a, b),
    ensures
        commensurable(b, a),
{
    lemma_counts_cover(a.numer);
    lemma_counts_cover(b.numer);
    lemma_counts_cover(a.denom);
    lemma_counts_cover(b.denom);
    assert forall|q: PhysicalQuantity|
        count_of(b.numer, q) == count_of(a.numer, q) && count_of(b.denom, q) == count_of(
            a.denom,
            q,
        ) by {
        assert(count_of(a.numer, q) == count_of(b.numer, q));
        assert(count_of(a.denom, q) == count_of(b.denom, q));
    }
}

/// Where a sequence holds a base of the quantity of `x`, there is a first
/// such base.
pub proof fn lemma_first_alike_exists(s: Seq<Base>, x: Base, k: int)
    requires
        0 <= k < s.len(),
        x.physq == s[k].physq,
    ensures
        has_alike(s, x),
        is_first_alike(s, x, first_alike(s, x)),
    decreases k,
{
    if exists|i: int| 0 <= i < k && x.physq == s[i].physq {
        let i = choose|i: int| 0 <= i < k && x.physq == s[i].physq;
        lemma_first_alike_exists(s, x, i);
    } else {
        assert(is_first_alike(s, x, k));
    }
}

/// Whether no physical quantity is measured on both sides of the fraction.
pub open spec fn apart(numer: Seq<Base>, denom: Seq<Base>) -> bool {
    forall|i: int, j: int|
        0 <= i < numer.len() && 0 <= j < denom.len() ==> (#[trigger] numer[i]).physq != (
        #[trigger] denom[j]).physq
}

/// Whether bases that measure the same physical quantity are the same base.
pub open spec fn uniform(s: Seq<Base>) -> bool {
    forall|i: int, j: int|
        0 <= i < s.len() && 0 <= j < s.len() && (#[trigger] s[i]).physq == (#[trigger] s[j]).physq
            ==> s[i] == s[j]
}

/// Whether two sequences measure the same physical quantities, place for
/// place.
pub open spec fn same_quantities(a: Seq<Base>, b: Seq<Base>) -> bool {
    a.len() == b.len() && forall|i: int| 0 <= i < a.len() ==> (#[trigger] a[i]).physq == b[i].physq
}

/// Cancelling across the fraction leaves no physical quantity on both sides,
/// and in the denominator only bases that were there.
pub proof fn lemma_fold_across_apart(numer: Seq<Base>, denom: Seq<Base>)
    ensures
        apart(fold_across(numer, denom).numer, fold_across(numer, denom).denom),
        drawn_from(fold_across(numer, denom).denom, denom),
    decreases numer.len(),
{
    let out = fold_across(numer, denom);
    if numer.len() == 0 {
        assert forall|j: int| 0 <= j < out.denom.len() implies is_in(
            denom,
            #[trigger] out.denom[j],
        ) by {
            assert(denom[j] == out.denom[j]);
        }
    } else if has_alike(denom, numer[0]) {
        let at = first_alike(denom, numer[0]);
        let left = denom.remove(at);
        lemma_fold_across_apart(numer.drop_first(), left);
        assert forall|j: int| 0 <= j < out.denom.len() implies is_in(
            denom,
            #[trigger] out.denom[j],
        ) by {
            assert(is_in(left, out.denom[j]));
            let k = choose|k: int| 0 <= k < left.len() && #[trigger] left[k] == out.denom[j];
            if k < at {
                assert(denom[k] == out.denom[j]);
            } else {
                assert(denom[k + 1] == out.denom[j]);
            }
        }
    } else {
        lemma_fold_across_apart(numer.drop_first(), denom);
        let rest = fold_across(numer.drop_first(), denom);
        assert forall|i: int, j: int| 0 <= i < out.numer.len() && 0 <= j < out.denom.len() implies (
        #[trigger] out.numer[i]).physq != (#[trigger] out.denom[j]).physq by {
            if i == 0 {
                assert(is_in(denom, out.denom[j]));
                let k = choose|k: int| 0 <= k < denom.len() && #[trigger] denom[k] == out.denom[j];
                if numer[0].physq == denom[k].physq {
                    lemma_first_alike_exists(denom, numer[0], k);
                }
            } else {
                assert(out.numer[i] == rest.numer[i - 1]);
            }
        }
    }
}

/// What merging from one place does: the bases behind `j` that measure the
/// quantity of the base at `i` become that base, and the others stay.
pub proof fn lemma_merge_from(bases: Seq<Base>, i: int, j: int, inverse: bool)
    requires
        0 <= i < j <= bases.len(),
    ensures
        same_quantities(merge_from(bases, i, j, inverse).0, bases),
        forall|k: int|
            0 <= k < bases.len() ==> #[trigger] merge_from(bases, i, j, inverse).0[k] == (if k >= j
                && bases[k].physq == bases[i].physq {
                bases[i]
            } else {
                bases[k]
            }),
    decreases bases.len() - j,
{
    if j < bases.len() {
        if bases[i].physq == bases[j].physq {
            lemma_merge_from(bases.update(j, bases[i]), i, j + 1, inverse);
        } else {
            lemma_merge_from(bases, i, j + 1, inverse);
        }
    }
}

/// Whether each of the first `i` bases is the base of every later base of its
/// quantity.
pub open spec fn uniform_to(s: Seq<Base>, i: int) -> bool {
    forall|k: int, l: int|
        0 <= k < i && k < l < s.len() && (#[trigger] s[k]).physq == (#[trigger] s[l]).physq
            ==> s[l] == s[k]
}

/// Merging leaves the physical quantities in their places and makes the
/// bases of each quantity the same.
pub proof fn lemma_merge_all(bases: Seq<Base>, i: int, inverse: bool)
    requires
        0 <= i <= bases.len(),
        uniform_to(bases, i),
    ensures
        same_quantities(merge_all(bases, i, bases.len() as int, inverse).0, bases),
        uniform(merge_all(bases, i, bases.len() as int, inverse).0),
    decreases bases.len() - i,
{
    let n = bases.len() as int;
    if i >= n {
        assert forall|k: int, l: int|
            0 <= k < n && 0 <= l < n && (#[trigger] bases[k]).physq == (
            #[trigger] bases[l]).physq implies bases[k] == bases[l] by {
            if k < l {
                assert(bases[l] == bases[k]);
            } else if l < k {
                assert(bases[k] == bases[l]);
            }
        }
    } else {
        let inner = merge_from(bases, i, i + 1, inverse).0;
        lemma_merge_from(bases, i, i + 1, inverse);
        assert forall|k: int, l: int|
            0 <= k < i + 1 && k < l < inner.len() && (#[trigger] inner[k]).physq == (
            #[trigger] inner[l]).physq implies inner[l] == inner[k] by {
            assert(inner[k] == bases[k]);
            assert(bases[k].physq == bases[l].physq);
            if k < i {
                assert(bases[l] == bases[k]);
                if l > i && bases[l].physq == bases[i].physq {
                    assert(bases[i] == bases[k]);
                }
            }
        }
        lemma_merge_all(inner, i + 1, inverse);
        let out = merge_all(bases, i, n, inverse).0;
        assert forall|k: int| 0 <= k < out.len() implies (#[trigger] out[k]).physq
            == bases[k].physq by {
            assert(inner[k].physq == bases[k].physq);
        }
    }
}

/// Simplifying by physical quantity leaves no quantity on both sides of the
/// fraction, and on either side one base for each quantity.
pub proof fn lemma_simplify_settles(numer: Seq<Base>, denom: Seq<Base>)
    ensures
        apart(simplify(numer, denom).numer, simplify(numer, denom).denom),
        uniform(simplify(numer, denom).numer),
        uniform(simplify(numer, denom).denom),
{
    let across = fold_across(numer, denom);
    lemma_fold_across_apart(numer, denom);
    lemma_merge_all(across.numer, 0, false);
    lemma_merge_all(across.denom, 0, true);
    let out = simplify(numer, denom);
    assert forall|i: int, j: int| 0 <= i < out.numer.len() && 0 <= j < out.denom.len() implies (
    #[trigger] out.numer[i]).physq != (#[trigger] out.denom[j]).physq by {
        assert(across.numer[i].physq == out.numer[i].physq);
        assert(across.denom[j].physq == out.denom[j].physq);
    }
}

} // verus!
