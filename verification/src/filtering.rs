//! Keeping the elements of a sequence that a predicate accepts.

use vstd::prelude::*;

verus! {

/// The elements of `s` that `keep` accepts, in the order they have in `s`.
pub open spec fn kept<T>(s: Seq<T>, keep: spec_fn(T) -> bool) -> Seq<T>
    decreases s.len(),
{
    if s.len() == 0 {
        Seq::empty()
    } else if keep(s.last()) {
        kept(s.drop_last(), keep).push(s.last())
    } else {
        kept(s.drop_last(), keep)
    }
}

/// What is kept is exactly what the sequence holds and `keep` accepts.
pub proof fn lemma_kept_members<T>(s: Seq<T>, keep: spec_fn(T) -> bool)
    ensures
        kept(s, keep).len() <= s.len(),
        forall|x: T| #[trigger] kept(s, keep).contains(x) <==> (s.contains(x) && keep(x)),
    decreases s.len(),
{
    if s.len() > 0 {
        lemma_kept_members(s.drop_last(), keep);
        let rest = kept(s.drop_last(), keep);
        assert forall|x: T| #[trigger] kept(s, keep).contains(x) <==> (s.contains(x) && keep(
            x,
        )) by {
            if kept(s, keep).contains(x) {
                let i = choose|i: int| 0 <= i < kept(s, keep).len() && kept(s, keep)[i] == x;
                if keep(s.last()) && i == rest.len() {
                    assert(s[s.len() - 1] == x);
                } else {
                    assert(rest[i] == x);
                    assert(rest.contains(x));
                    let j = choose|j: int| 0 <= j < s.drop_last().len() && s.drop_last()[j] == x;
                    assert(s[j] == x);
                }
            }
            if s.contains(x) && keep(x) {
                let j = choose|j: int| 0 <= j < s.len() && s[j] == x;
                if j == s.len() - 1 {
                    assert(kept(s, keep)[rest.len() as int] == x);
                } else {
                    assert(s.drop_last()[j] == x);
                    assert(s.drop_last().contains(x));
                    assert(rest.contains(x));
                    let i = choose|i: int| 0 <= i < rest.len() && rest[i] == x;
                    assert(kept(s, keep)[i] == x);
                }
            }
        }
    }
}

/// Where a key rises along a sequence, it rises along what is kept of it.
pub proof fn lemma_kept_rising<T>(s: Seq<T>, keep: spec_fn(T) -> bool, key: spec_fn(T) -> int)
    requires
        forall|i: int, j: int| 0 <= i < j < s.len() ==> key(s[i]) < key(s[j]),
    ensures
        forall|i: int, j: int|
            0 <= i < j < kept(s, keep).len() ==> key(kept(s, keep)[i]) < key(kept(s, keep)[j]),
    decreases s.len(),
{
    if s.len() > 0 {
        let front = s.drop_last();
        assert forall|i: int, j: int| 0 <= i < j < front.len() implies key(front[i]) < key(
            front[j],
        ) by {
            assert(front[i] == s[i] && front[j] == s[j]);
        }
        lemma_kept_rising(front, keep, key);
        lemma_kept_members(front, keep);
        let rest = kept(front, keep);
        let all = kept(s, keep);
        assert forall|i: int, j: int| 0 <= i < j < all.len() implies key(all[i]) < key(all[j]) by {
            if j < rest.len() {
                assert(all[i] == rest[i] && all[j] == rest[j]);
            } else {
                assert(all[j] == s.last());
                assert(all[i] == rest[i]);
                assert(rest.contains(rest[i]));
                assert(front.contains(rest[i]));
                let k = choose|k: int| 0 <= k < front.len() && front[k] == rest[i];
                assert(s[k] == rest[i]);
            }
        }
    }
}

/// Keeping twice keeps what keeping once keeps.
pub proof fn lemma_kept_again<T>(s: Seq<T>, keep: spec_fn(T) -> bool)
    ensures
        kept(kept(s, keep), keep) == kept(s, keep),
    decreases s.len(),
{
    if s.len() > 0 {
        lemma_kept_again(s.drop_last(), keep);
        if keep(s.last()) {
            let inner = kept(s.drop_last(), keep);
            assert(kept(s, keep).drop_last() =~= inner);
        }
    }
}

/// Keeping goes through concatenation.
pub proof fn lemma_kept_of_joined<T>(a: Seq<T>, b: Seq<T>, keep: spec_fn(T) -> bool)
    ensures
        kept(a + b, keep) == kept(a, keep) + kept(b, keep),
    decreases b.len(),
{
    if b.len() == 0 {
        assert(a + b =~= a);
        assert(kept(a, keep) + kept(b, keep) =~= kept(a, keep));
    } else {
        lemma_kept_of_joined(a, b.drop_last(), keep);
        assert((a + b).drop_last() =~= a + b.drop_last());
        assert((a + b).last() == b.last());
        if keep(b.last()) {
            assert(kept(a, keep) + kept(b.drop_last(), keep).push(b.last()) =~= (kept(a, keep)
                + kept(b.drop_last(), keep)).push(b.last()));
        }
    }
}

/// Where every element is accepted, everything is kept; where none is,
/// nothing.
pub proof fn lemma_kept_all_or_none<T>(s: Seq<T>, keep: spec_fn(T) -> bool)
    ensures
        (forall|k: int| 0 <= k < s.len() ==> keep(#[trigger] s[k])) ==> kept(s, keep) == s,
        (forall|k: int| 0 <= k < s.len() ==> !keep(#[trigger] s[k])) ==> kept(s, keep)
            == Seq::<T>::empty(),
    decreases s.len(),
{
    if s.len() > 0 {
        lemma_kept_all_or_none(s.drop_last(), keep);
        let front = s.drop_last();
        if forall|k: int| 0 <= k < s.len() ==> keep(#[trigger] s[k]) {
            assert forall|k: int| 0 <= k < front.len() implies keep(#[trigger] front[k]) by {
                assert(front[k] == s[k]);
            }
            assert(keep(s[s.len() - 1]));
            assert(front.push(s.last()) =~= s);
        }
        if forall|k: int| 0 <= k < s.len() ==> !keep(#[trigger] s[k]) {
            assert forall|k: int| 0 <= k < front.len() implies !keep(#[trigger] front[k]) by {
                assert(front[k] == s[k]);
            }
            assert(!keep(s[s.len() - 1]));
        }
    } else {
        assert(kept(s, keep) =~= s);
    }
}

} // verus!
