//! Stable sorting of vectors under an ordering chosen by a marker type.
//!
//! `sorted` says, as a function on sequences, what sorting gives: the
//! elements in ascending order, those that the ordering does not tell apart
//! staying in the order in which they came.

use vstd::prelude::*;

verus! {

/// A type whose values the ordering `O` ranks.
pub trait Ranked<O>: Sized {
    /// `self` must stand strictly before `other`.
    spec fn precedes(&self, other: &Self) -> bool;

    /// Executable form of `precedes`.
    fn is_before(&self, other: &Self) -> (b: bool)
        ensures
            b == self.precedes(other),
    ;
}

/// `t` with `x` put in front of the first element that does not precede it.
pub open spec fn placed<O, T: Ranked<O>>(x: T, t: Seq<T>) -> Seq<T>
    decreases t.len(),
{
    if t.len() > 0 && t[0].precedes(&x) {
        seq![t[0]] + placed::<O, T>(x, t.drop_first())
    } else {
        seq![x] + t
    }
}

/// The elements of `s` in ascending order; elements of which neither
/// precedes the other keep the order they have in `s`.
pub open spec fn sorted<O, T: Ranked<O>>(s: Seq<T>) -> Seq<T>
    decreases s.len(),
{
    if s.len() == 0 {
        Seq::empty()
    } else {
        placed::<O, T>(s[0], sorted::<O, T>(s.drop_first()))
    }
}

/// How many elements at the front of `t` precede `x`.
pub open spec fn lead<O, T: Ranked<O>>(x: T, t: Seq<T>) -> nat
    decreases t.len(),
{
    if t.len() > 0 && t[0].precedes(&x) {
        1 + lead::<O, T>(x, t.drop_first())
    } else {
        0
    }
}

/// Placing `x` is inserting it after the elements at the front that precede
/// it.
pub proof fn lemma_placed_is_insert<O, T: Ranked<O>>(x: T, t: Seq<T>)
    ensures
        lead::<O, T>(x, t) <= t.len(),
        placed::<O, T>(x, t) == t.insert(lead::<O, T>(x, t) as int, x),
    decreases t.len(),
{
    if t.len() > 0 && t[0].precedes(&x) {
        lemma_placed_is_insert::<O, T>(x, t.drop_first());
        let n = lead::<O, T>(x, t.drop_first());
        assert(seq![t[0]] + t.drop_first().insert(n as int, x) =~= t.insert(n as int + 1, x));
    } else {
        assert(seq![x] + t =~= t.insert(0, x));
    }
}

/// Placing keeps every element and adds `x`.
pub proof fn lemma_placed_multiset<O, T: Ranked<O>>(x: T, t: Seq<T>)
    ensures
        placed::<O, T>(x, t).to_multiset() == t.to_multiset().insert(x),
        placed::<O, T>(x, t).len() == t.len() + 1,
{
    lemma_placed_is_insert::<O, T>(x, t);
    vstd::seq_lib::to_multiset_insert(t, lead::<O, T>(x, t) as int, x);
}

/// Sorting keeps the elements: the result holds each element as often as the
/// input does.
pub proof fn lemma_sorted_permutes<O, T: Ranked<O>>(s: Seq<T>)
    ensures
        sorted::<O, T>(s).to_multiset() == s.to_multiset(),
        sorted::<O, T>(s).len() == s.len(),
    decreases s.len(),
{
    broadcast use vstd::seq_lib::group_to_multiset_ensures;

    if s.len() == 0 {
        assert(s =~= Seq::<T>::empty());
    } else {
        lemma_sorted_permutes::<O, T>(s.drop_first());
        lemma_placed_multiset::<O, T>(s[0], sorted::<O, T>(s.drop_first()));
        assert(s =~= seq![s[0]] + s.drop_first());
        vstd::seq_lib::to_multiset_insert(s.drop_first(), 0, s[0]);
        assert(s.drop_first().insert(0, s[0]) =~= s);
    }
}

/// No element of `t` stands after one that it must precede.
pub open spec fn ascending<O, T: Ranked<O>>(t: Seq<T>) -> bool {
    forall|i: int, j: int| #![trigger t[i], t[j]] 0 <= i < j < t.len() ==> !t[j].precedes(&t[i])
}

/// The ordering ranks by levels: where `a` does not precede `b` and `b` does
/// not precede `c`, `a` does not precede `c`; and what precedes is not
/// preceded in turn.
pub open spec fn ranks_by_levels<O, T: Ranked<O>>() -> bool {
    &&& forall|a: T, b: T| #[trigger] a.precedes(&b) ==> !b.precedes(&a)
    &&& forall|a: T, b: T, c: T|
        !(#[trigger] a.precedes(&b)) && !(#[trigger] b.precedes(&c)) ==> !a.precedes(&c)
}

/// Placing into an ascending sequence gives an ascending sequence.
pub proof fn lemma_placed_ascending<O, T: Ranked<O>>(x: T, t: Seq<T>)
    requires
        ranks_by_levels::<O, T>(),
        ascending::<O, T>(t),
    ensures
        ascending::<O, T>(placed::<O, T>(x, t)),
    decreases t.len(),
{
    let r = placed::<O, T>(x, t);
    if t.len() > 0 && t[0].precedes(&x) {
        let rest = t.drop_first();
        assert(ascending::<O, T>(rest)) by {
            assert forall|i: int, j: int| #![trigger rest[i], rest[j]] 0 <= i < j < rest.len() implies !rest[j].precedes(
                &rest[i],
            ) by {
                assert(rest[i] == t[i + 1] && rest[j] == t[j + 1]);
            }
        }
        lemma_placed_ascending::<O, T>(x, rest);
        lemma_placed_multiset::<O, T>(x, rest);
        let pr = placed::<O, T>(x, rest);
        assert forall|i: int, j: int| #![trigger r[i], r[j]] 0 <= i < j < r.len() implies !r[j].precedes(
            &r[i],
        ) by {
            if i > 0 {
                assert(r[i] == pr[i - 1] && r[j] == pr[j - 1]);
            } else {
                assert(r[0] == t[0]);
                assert(r[j] == pr[j - 1]);
                // every element of `pr` is `x` or an element of `rest`
                lemma_placed_is_insert::<O, T>(x, rest);
                let n = lead::<O, T>(x, rest) as int;
                if j - 1 < n {
                    assert(pr[j - 1] == rest[j - 1]);
                    assert(rest[j - 1] == t[j]);
                } else if j - 1 == n {
                    assert(pr[j - 1] == x);
                } else {
                    assert(pr[j - 1] == rest[j - 2]);
                    assert(rest[j - 2] == t[j - 1]);
                }
            }
        }
    } else {
        assert forall|i: int, j: int| #![trigger r[i], r[j]] 0 <= i < j < r.len() implies !r[j].precedes(
            &r[i],
        ) by {
            if i > 0 {
                assert(r[i] == t[i - 1] && r[j] == t[j - 1]);
            } else {
                assert(r[0] == x);
                assert(r[j] == t[j - 1]);
                if j - 1 > 0 {
                    assert(!t[j - 1].precedes(&t[0]));
                }
            }
        }
    }
}

/// Sorting orders: in the result no element stands after one that it must
/// precede.
pub proof fn lemma_sorted_ascending<O, T: Ranked<O>>(s: Seq<T>)
    requires
        ranks_by_levels::<O, T>(),
    ensures
        ascending::<O, T>(sorted::<O, T>(s)),
    decreases s.len(),
{
    if s.len() > 0 {
        lemma_sorted_ascending::<O, T>(s.drop_first());
        lemma_placed_ascending::<O, T>(s[0], sorted::<O, T>(s.drop_first()));
    }
}

/// The first elements of an ascending sequence are ascending.
pub proof fn lemma_prefix_ascending<O, T: Ranked<O>>(t: Seq<T>, n: int)
    requires
        ascending::<O, T>(t),
        0 <= n <= t.len(),
    ensures
        ascending::<O, T>(t.take(n)),
{
    let p = t.take(n);
    assert forall|i: int, j: int| #![trigger p[i], p[j]] 0 <= i < j < p.len() implies !p[j].precedes(
        &p[i],
    ) by {
        assert(p[i] == t[i] && p[j] == t[j]);
    }
}

/// Sorts `v`, stably.
pub fn sort<O, T: Ranked<O>>(v: Vec<T>) -> (r: Vec<T>)
    ensures
        r@ == sorted::<O, T>(v@),
{
    let mut rest = v;
    let mut out: Vec<T> = Vec::new();
    let ghost all = rest@;
    assert(all.skip(all.len() as int) =~= Seq::<T>::empty());
    while rest.len() > 0
        invariant
            rest@ == all.take(rest@.len() as int),
            rest@.len() <= all.len(),
            out@ == sorted::<O, T>(all.skip(rest@.len() as int)),
        decreases rest@.len(),
    {
        let ghost k = rest@.len() - 1;
        let x = rest.pop().unwrap();
        let mut pos: usize = 0;
        let ghost t = out@;
        assert(t.skip(0) =~= t);
        while pos < out.len() && out[pos].is_before(&x)
            invariant
                out@ == t,
                pos <= t.len(),
                lead::<O, T>(x, t) == pos + lead::<O, T>(x, t.skip(pos as int)),
            decreases t.len() - pos,
        {
            assert(t.skip(pos as int).drop_first() =~= t.skip(pos + 1));
            pos = pos + 1;
        }
        proof {
            assert(t.skip(0) =~= t);
            lemma_placed_is_insert::<O, T>(x, t);
            assert(all.skip(k).drop_first() =~= all.skip(k + 1));
            assert(all.skip(k)[0] == x);
            assert(rest@ =~= all.take(k));
        }
        out.insert(pos, x);
    }
    assert(all.skip(0) =~= all);
    out
}

} // verus!
