//! Searches in sequences, as the contracts of the library speak of them.

use vstd::prelude::*;

verus! {

/// The first element of `s` that `ok` does not hold of.
pub open spec fn first_not<T>(s: Seq<T>, ok: spec_fn(T) -> bool) -> Option<T>
    decreases s.len(),
{
    if s.len() == 0 {
        None
    } else if !ok(s.first()) {
        Some(s.first())
    } else {
        first_not(s.drop_first(), ok)
    }
}

/// There is no such element exactly when `ok` holds of every element; where
/// there is one, it is an element of `s` of which `ok` does not hold.
pub proof fn lemma_first_not<T>(s: Seq<T>, ok: spec_fn(T) -> bool)
    ensures
        first_not(s, ok) is None <==> forall|i: int| 0 <= i < s.len() ==> ok(#[trigger] s[i]),
        first_not(s, ok) matches Some(x) ==> !ok(x) && s.contains(x),
    decreases s.len(),
{
    if s.len() > 0 {
        let rest = s.drop_first();
        lemma_first_not(rest, ok);
        if ok(s.first()) {
            if first_not(rest, ok) is None {
                assert forall|i: int| 0 <= i < s.len() implies ok(#[trigger] s[i]) by {
                    if i > 0 {
                        assert(s[i] == rest[i - 1]);
                    }
                }
            } else {
                let x = first_not(rest, ok)->0;
                let j = choose|j: int| 0 <= j < rest.len() && rest[j] == x;
                assert(s[j + 1] == x);
            }
        } else {
            assert(s[0] == s.first());
        }
    }
}

/// The search goes through a sequence and what follows it in order.
pub proof fn lemma_first_not_concat<T>(a: Seq<T>, b: Seq<T>, ok: spec_fn(T) -> bool)
    ensures
        first_not(a + b, ok) == match first_not(a, ok) {
            Some(x) => Some(x),
            None => first_not(b, ok),
        },
    decreases a.len(),
{
    if a.len() == 0 {
        assert(a + b =~= b);
    } else {
        assert((a + b).drop_first() =~= a.drop_first() + b);
        lemma_first_not_concat(a.drop_first(), b, ok);
    }
}

/// The search in a sequence of one element.
pub proof fn lemma_first_not_single<T>(x: T, ok: spec_fn(T) -> bool)
    ensures
        first_not(seq![x], ok) == if ok(x) {
            None
        } else {
            Some(x)
        },
{
    reveal_with_fuel(first_not, 2);
    assert(seq![x].drop_first() =~= Seq::<T>::empty());
}

/// The position of the first element of `s` that also stands before it.
pub open spec fn first_repeat<T>(s: Seq<T>) -> Option<int>
    decreases s.len(),
{
    if s.len() == 0 {
        None
    } else {
        match first_repeat(s.drop_last()) {
            Some(j) => Some(j),
            None => if s.drop_last().contains(s.last()) {
                Some(s.len() - 1)
            } else {
                None
            },
        }
    }
}

/// Whether no element of `s` occurs twice.
pub open spec fn all_distinct<T>(s: Seq<T>) -> bool {
    forall|i: int, j: int| 0 <= i < j < s.len() ==> s[i] != s[j]
}

/// There is no repeat exactly when all elements are distinct; where there is
/// one, it is the first position whose element stands before it too.
pub proof fn lemma_first_repeat<T>(s: Seq<T>)
    ensures
        first_repeat(s) is None <==> all_distinct(s),
        first_repeat(s) matches Some(j) ==> 0 < j < s.len() && s.take(j).contains(s[j])
            && all_distinct(s.take(j)),
    decreases s.len(),
{
    if s.len() > 0 {
        let front = s.drop_last();
        lemma_first_repeat(front);
        match first_repeat(front) {
            Some(j) => {
                assert(front.take(j) =~= s.take(j));
                assert(front[j] == s[j]);
                let i = choose|i: int| 0 <= i < j && front.take(j)[i] == front[j];
                assert(s[i] == s[j]);
            },
            None => {
                if front.contains(s.last()) {
                    let i = choose|i: int| 0 <= i < front.len() && front[i] == s.last();
                    assert(s[i] == s[s.len() - 1]);
                    assert(s.take(s.len() - 1) =~= front);
                } else {
                    assert forall|i: int, j: int| 0 <= i < j < s.len() implies s[i] != s[j] by {
                        if j < s.len() - 1 {
                            assert(front[i] != front[j]);
                        } else {
                            assert(front[i] == s[i]);
                        }
                    }
                }
            },
        }
    }
}

/// A repeat among the first `n` elements is the first repeat of the whole.
pub proof fn lemma_first_repeat_extends<T>(s: Seq<T>, n: int)
    requires
        0 <= n <= s.len(),
        first_repeat(s.take(n)) is Some,
    ensures
        first_repeat(s) == first_repeat(s.take(n)),
    decreases s.len() - n,
{
    if n == s.len() {
        assert(s.take(n) =~= s);
    } else {
        assert(s.take(n + 1).drop_last() =~= s.take(n));
        lemma_first_repeat_extends(s, n + 1);
    }
}

/// The positions of the elements of `s` that `wanted` holds of, in order.
pub open spec fn positions<T>(s: Seq<T>, wanted: spec_fn(T) -> bool) -> Seq<usize>
    decreases s.len(),
{
    if s.len() == 0 {
        Seq::empty()
    } else {
        let before = positions(s.drop_last(), wanted);
        if wanted(s.last()) {
            before.push((s.len() - 1) as usize)
        } else {
            before
        }
    }
}

/// The positions found are positions of wanted elements, in rising order,
/// and every wanted element is found.
pub proof fn lemma_positions<T>(s: Seq<T>, wanted: spec_fn(T) -> bool)
    requires
        s.len() <= usize::MAX,
    ensures
        positions(s, wanted).len() <= s.len(),
        forall|k: int|
            0 <= k < positions(s, wanted).len() ==> (#[trigger] positions(s, wanted)[k]) < s.len()
                && wanted(s[positions(s, wanted)[k] as int]),
        forall|a: int, b: int|
            0 <= a < b < positions(s, wanted).len() ==> positions(s, wanted)[a] < positions(
                s,
                wanted,
            )[b],
        forall|i: int|
            0 <= i < s.len() && wanted(#[trigger] s[i]) ==> positions(s, wanted).contains(
                i as usize,
            ),
    decreases s.len(),
{
    if s.len() > 0 {
        let front = s.drop_last();
        lemma_positions(front, wanted);
        let before = positions(front, wanted);
        let all = positions(s, wanted);
        assert forall|k: int| 0 <= k < all.len() implies (#[trigger] all[k]) < s.len() && wanted(
            s[all[k] as int],
        ) by {
            if k < before.len() {
                assert(all[k] == before[k]);
                assert(front[before[k] as int] == s[before[k] as int]);
            }
        }
        assert forall|a: int, b: int| 0 <= a < b < all.len() implies all[a] < all[b] by {
            assert(all[a] == before[a]);
            if b < before.len() {
                assert(all[b] == before[b]);
            }
        }
        assert forall|i: int| 0 <= i < s.len() && wanted(#[trigger] s[i]) implies all.contains(
            i as usize,
        ) by {
            if i < front.len() {
                assert(front[i] == s[i]);
                let k = choose|k: int| 0 <= k < before.len() && before[k] == i as usize;
                assert(all[k] == i as usize);
            } else {
                assert(all[all.len() - 1] == i as usize);
            }
        }
    }
}

/// The positions among the first elements and one more.
pub proof fn lemma_positions_step<T>(s: Seq<T>, wanted: spec_fn(T) -> bool, i: int)
    requires
        0 <= i < s.len(),
    ensures
        positions(s.take(i + 1), wanted) == if wanted(s[i]) {
            positions(s.take(i), wanted).push(i as usize)
        } else {
            positions(s.take(i), wanted)
        },
{
    assert(s.take(i + 1).drop_last() =~= s.take(i));
}

/// The elements of `s` at the given positions.
pub open spec fn at_positions<T>(s: Seq<T>, positions: Seq<usize>) -> Seq<T> {
    Seq::new(positions.len(), |k: int| s[positions[k] as int])
}

/// `s` with, for each `k`, the element at `positions[k]` replaced by
/// `found[k]`.
pub open spec fn merged<T>(s: Seq<T>, positions: Seq<usize>, found: Seq<T>) -> Seq<T>
    decreases positions.len(),
{
    if positions.len() == 0 {
        s
    } else {
        merged(s, positions.drop_last(), found.drop_last()).update(
            positions.last() as int,
            found.last(),
        )
    }
}

/// Merging goes one position at a time.
pub proof fn lemma_merged_step<T>(s: Seq<T>, positions: Seq<usize>, found: Seq<T>, k: int)
    requires
        0 <= k < positions.len(),
        positions.len() == found.len(),
    ensures
        merged(s, positions.take(k + 1), found.take(k + 1)) == merged(
            s,
            positions.take(k),
            found.take(k),
        ).update(positions[k] as int, found[k]),
{
    assert(positions.take(k + 1).drop_last() =~= positions.take(k));
    assert(found.take(k + 1).drop_last() =~= found.take(k));
}

/// Merging leaves the length as it is, and every element as it is whose
/// position is not among `positions`.
pub proof fn lemma_merged<T>(s: Seq<T>, positions: Seq<usize>, found: Seq<T>)
    requires
        positions.len() == found.len(),
        forall|k: int| 0 <= k < positions.len() ==> (#[trigger] positions[k]) < s.len(),
    ensures
        merged(s, positions, found).len() == s.len(),
        forall|i: int|
            0 <= i < s.len() && !positions.contains(i as usize) ==> #[trigger] merged(
                s,
                positions,
                found,
            )[i] == s[i],
    decreases positions.len(),
{
    if positions.len() > 0 {
        let front = positions.drop_last();
        assert forall|k: int| 0 <= k < front.len() implies (#[trigger] front[k]) < s.len() by {
            assert(front[k] == positions[k]);
        }
        lemma_merged(s, front, found.drop_last());
        assert(positions[positions.len() - 1] < s.len());
        assert forall|i: int|
            0 <= i < s.len() && !positions.contains(i as usize) implies #[trigger] merged(
            s,
            positions,
            found,
        )[i] == s[i] by {
            if front.contains(i as usize) {
                let k = choose|k: int| 0 <= k < front.len() && front[k] == i as usize;
                assert(positions[k] == i as usize);
            }
            assert(positions[positions.len() - 1] != i as usize);
        }
    }
}

/// The first position of `x` in `s`.
pub open spec fn first_position<T>(s: Seq<T>, x: T) -> Option<int>
    decreases s.len(),
{
    if s.len() == 0 {
        None
    } else {
        match first_position(s.drop_last(), x) {
            Some(i) => Some(i),
            None => if s.last() == x {
                Some(s.len() - 1)
            } else {
                None
            },
        }
    }
}

/// The first position of `x` is a position of `x` with no `x` before it;
/// there is none exactly when `x` is not in `s`.
pub proof fn lemma_first_position<T>(s: Seq<T>, x: T)
    ensures
        match first_position(s, x) {
            Some(i) => 0 <= i < s.len() && s[i] == x && forall|k: int| 0 <= k < i ==> s[k] != x,
            None => !s.contains(x),
        },
    decreases s.len(),
{
    if s.len() > 0 {
        let front = s.drop_last();
        lemma_first_position(front, x);
        match first_position(front, x) {
            Some(i) => {
                assert(front[i] == s[i]);
                assert forall|k: int| 0 <= k < i implies s[k] != x by {
                    assert(front[k] == s[k]);
                }
            },
            None => {
                assert forall|k: int| 0 <= k < s.len() - 1 implies s[k] != x by {
                    assert(front[k] == s[k]);
                    assert(front.contains(front[k]));
                }
            },
        }
    }
}

/// A position found among the first `n` elements is the first position in
/// the whole.
pub proof fn lemma_first_position_extends<T>(s: Seq<T>, x: T, n: int)
    requires
        0 <= n <= s.len(),
        first_position(s.take(n), x) is Some,
    ensures
        first_position(s, x) == first_position(s.take(n), x),
    decreases s.len() - n,
{
    if n == s.len() {
        assert(s.take(n) =~= s);
    } else {
        assert(s.take(n + 1).drop_last() =~= s.take(n));
        lemma_first_position_extends(s, x, n + 1);
    }
}

} // verus!
