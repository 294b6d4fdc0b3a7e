//! Summing a measure over a sequence, with the update and push lemmas the
//! pool accounting needs.

use vstd::prelude::*;

verus! {

/// Sum of `f` over the elements of `s`.
pub open spec fn sum_by<T>(s: Seq<T>, f: spec_fn(T) -> int) -> int
    decreases s.len(),
{
    if s.len() == 0 {
        0
    } else {
        sum_by(s.drop_last(), f) + f(s.last())
    }
}

/// Replacing one element changes the sum by the difference of measures.
pub proof fn lemma_sum_by_update<T>(s: Seq<T>, i: int, v: T, f: spec_fn(T) -> int)
    requires
        0 <= i < s.len(),
    ensures
        sum_by(s.update(i, v), f) == sum_by(s, f) - f(s[i]) + f(v),
    decreases s.len(),
{
    let s2 = s.update(i, v);
    if i == s.len() - 1 {
        assert(s2.drop_last() =~= s.drop_last());
        assert(s2.last() == v);
    } else {
        assert(s2.drop_last() =~= s.drop_last().update(i, v));
        assert(s2.last() == s.last());
        lemma_sum_by_update(s.drop_last(), i, v, f);
        assert(s.drop_last()[i] == s[i]);
    }
}

/// Appending an element adds its measure.
pub proof fn lemma_sum_by_push<T>(s: Seq<T>, v: T, f: spec_fn(T) -> int)
    ensures
        sum_by(s.push(v), f) == sum_by(s, f) + f(v),
{
    assert(s.push(v).drop_last() =~= s);
    assert(s.push(v).last() == v);
}

/// A pointwise smaller measure sums to a smaller value.
pub proof fn lemma_sum_by_le<T>(s: Seq<T>, f: spec_fn(T) -> int, g: spec_fn(T) -> int)
    requires
        forall|i: int| 0 <= i < s.len() ==> #[trigger] f(s[i]) <= g(s[i]),
    ensures
        sum_by(s, f) <= sum_by(s, g),
    decreases s.len(),
{
    if s.len() > 0 {
        assert(forall|i: int|
            0 <= i < s.drop_last().len() ==> #[trigger] f(s.drop_last()[i]) == f(s[i]) && g(
                s.drop_last()[i],
            ) == g(s[i]));
        lemma_sum_by_le(s.drop_last(), f, g);
        assert(f(s.last()) == f(s[s.len() - 1]) && g(s.last()) == g(s[s.len() - 1]));
    }
}

/// A 0/1-valued measure sums to at most the length.
pub proof fn lemma_sum_by_units<T>(s: Seq<T>, f: spec_fn(T) -> int)
    requires
        forall|i: int| 0 <= i < s.len() ==> 0 <= #[trigger] f(s[i]) <= 1,
    ensures
        0 <= sum_by(s, f) <= s.len(),
    decreases s.len(),
{
    if s.len() > 0 {
        assert(forall|i: int|
            0 <= i < s.drop_last().len() ==> #[trigger] f(s.drop_last()[i]) == f(s[i]));
        lemma_sum_by_units(s.drop_last(), f);
        assert(f(s.last()) == f(s[s.len() - 1]));
    }
}

/// A 0/1-valued measure that misses one element sums below the length.
pub proof fn lemma_sum_by_units_gap<T>(s: Seq<T>, f: spec_fn(T) -> int, i: int)
    requires
        0 <= i < s.len(),
        forall|j: int| 0 <= j < s.len() ==> 0 <= #[trigger] f(s[j]) <= 1,
        f(s[i]) == 0,
    ensures
        sum_by(s, f) <= s.len() - 1,
    decreases s.len(),
{
    assert(forall|j: int|
        0 <= j < s.drop_last().len() ==> #[trigger] f(s.drop_last()[j]) == f(s[j]));
    assert(f(s.last()) == f(s[s.len() - 1]));
    if i == s.len() - 1 {
        lemma_sum_by_units(s.drop_last(), f);
    } else {
        lemma_sum_by_units_gap(s.drop_last(), f, i);
    }
}

/// Walking one element forward extends a prefix sum.
pub proof fn lemma_sum_by_take_step<T>(s: Seq<T>, i: int, f: spec_fn(T) -> int)
    requires
        0 <= i < s.len(),
    ensures
        sum_by(s.take(i + 1), f) == sum_by(s.take(i), f) + f(s[i]),
{
    assert(s.take(i + 1).drop_last() =~= s.take(i));
    assert(s.take(i + 1).last() == s[i]);
}

/// The full prefix is the whole sum.
pub proof fn lemma_sum_by_take_all<T>(s: Seq<T>, f: spec_fn(T) -> int)
    ensures
        sum_by(s.take(s.len() as int), f) == sum_by(s, f),
{
    assert(s.take(s.len() as int) =~= s);
}

/// A prefix sum of a non-negative measure stays below the whole sum.
pub proof fn lemma_sum_by_take_le<T>(s: Seq<T>, i: int, f: spec_fn(T) -> int)
    requires
        0 <= i <= s.len(),
        forall|j: int| 0 <= j < s.len() ==> #[trigger] f(s[j]) >= 0,
    ensures
        sum_by(s.take(i), f) <= sum_by(s, f),
    decreases s.len() - i,
{
    if i == s.len() {
        lemma_sum_by_take_all(s, f);
    } else {
        lemma_sum_by_take_step(s, i, f);
        lemma_sum_by_take_le(s, i + 1, f);
    }
}

/// A measure that vanishes everywhere sums to zero.
pub proof fn lemma_sum_by_zero<T>(s: Seq<T>, f: spec_fn(T) -> int)
    requires
        forall|i: int| 0 <= i < s.len() ==> #[trigger] f(s[i]) == 0,
    ensures
        sum_by(s, f) == 0,
    decreases s.len(),
{
    if s.len() > 0 {
        assert(forall|i: int|
            0 <= i < s.drop_last().len() ==> #[trigger] f(s.drop_last()[i]) == f(s[i]));
        lemma_sum_by_zero(s.drop_last(), f);
        assert(f(s.last()) == f(s[s.len() - 1]));
    }
}

/// A pointwise non-negative measure sums to a non-negative value.
pub proof fn lemma_sum_by_nonneg<T>(s: Seq<T>, f: spec_fn(T) -> int)
    requires
        forall|i: int| 0 <= i < s.len() ==> #[trigger] f(s[i]) >= 0,
    ensures
        sum_by(s, f) >= 0,
    decreases s.len(),
{
    if s.len() > 0 {
        assert(forall|i: int|
            0 <= i < s.drop_last().len() ==> #[trigger] f(s.drop_last()[i]) == f(s[i]));
        lemma_sum_by_nonneg(s.drop_last(), f);
        assert(f(s.last()) == f(s[s.len() - 1]));
    }
}

/// One element's measure is at most the sum, when the measure is
/// non-negative everywhere.
pub proof fn lemma_sum_by_bound<T>(s: Seq<T>, i: int, f: spec_fn(T) -> int)
    requires
        0 <= i < s.len(),
        forall|j: int| 0 <= j < s.len() ==> #[trigger] f(s[j]) >= 0,
    ensures
        f(s[i]) <= sum_by(s, f),
    decreases s.len(),
{
    assert(forall|j: int|
        0 <= j < s.drop_last().len() ==> #[trigger] f(s.drop_last()[j]) == f(s[j]));
    if i == s.len() - 1 {
        lemma_sum_by_nonneg(s.drop_last(), f);
        assert(f(s.last()) == f(s[i]));
    } else {
        lemma_sum_by_bound(s.drop_last(), i, f);
        assert(f(s.last()) == f(s[s.len() - 1]));
    }
}

} // verus!
