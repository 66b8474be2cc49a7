//! The grouping machinery shared by every aggregation grain: the rows
//! matching one composite key, the distinct keys in first-appearance
//! order, and the numeric folds (counts, sums, minima, maxima) that the
//! measure columns are defined from.
use vstd::prelude::*;

use crate::row::DerivedRow;

verus! {

/// Every aggregation admits at most this many input rows, so that the
/// 64-bit and 128-bit measure accumulators cannot overflow.
pub open spec fn max_agg_rows() -> int {
    0x1_0000_0000
}

/// The rows of `s` whose key under `f` equals `k`, in input order.
pub open spec fn matching<K>(s: Seq<DerivedRow>, f: spec_fn(DerivedRow) -> K, k: K) -> Seq<
    DerivedRow,
>
    decreases s.len(),
{
    if s.len() == 0 {
        Seq::empty()
    } else {
        let prefix = matching(s.drop_last(), f, k);
        if f(s.last()) == k {
            prefix.push(s.last())
        } else {
            prefix
        }
    }
}

/// The distinct keys of `s` under `f`, each at its first appearance.
pub open spec fn keys_in_order<K>(s: Seq<DerivedRow>, f: spec_fn(DerivedRow) -> K) -> Seq<K>
    decreases s.len(),
{
    if s.len() == 0 {
        Seq::empty()
    } else {
        let prefix = keys_in_order(s.drop_last(), f);
        if prefix.contains(f(s.last())) {
            prefix
        } else {
            prefix.push(f(s.last()))
        }
    }
}

/// Extending the input by one row extends exactly that row's group.
pub proof fn lemma_matching_push<K>(s: Seq<DerivedRow>, f: spec_fn(DerivedRow) -> K, k: K, r: DerivedRow)
    ensures
        matching(s.push(r), f, k) == if f(r) == k {
            matching(s, f, k).push(r)
        } else {
            matching(s, f, k)
        },
{
    assert(s.push(r).drop_last() =~= s);
    assert(s.push(r).last() == r);
}

/// Extending the input by one row leaves the key order unchanged when the
/// row's key was already seen, and appends it otherwise.
pub proof fn lemma_keys_push<K>(s: Seq<DerivedRow>, f: spec_fn(DerivedRow) -> K, r: DerivedRow)
    ensures
        keys_in_order(s.push(r), f) == if keys_in_order(s, f).contains(f(r)) {
            keys_in_order(s, f)
        } else {
            keys_in_order(s, f).push(f(r))
        },
{
    assert(s.push(r).drop_last() =~= s);
    assert(s.push(r).last() == r);
}

/// The distinct keys are distinct.
pub proof fn lemma_keys_distinct<K>(s: Seq<DerivedRow>, f: spec_fn(DerivedRow) -> K)
    ensures
        forall|i: int, j: int|
            0 <= i < keys_in_order(s, f).len() && 0 <= j < keys_in_order(s, f).len() && i != j
                ==> #[trigger] keys_in_order(s, f)[i] != #[trigger] keys_in_order(s, f)[j],
    decreases s.len(),
{
    if s.len() > 0 {
        let pre = s.drop_last();
        lemma_keys_distinct(pre, f);
        let ks = keys_in_order(s, f);
        let ksp = keys_in_order(pre, f);
        if !ksp.contains(f(s.last())) {
            assert forall|i: int, j: int|
                0 <= i < ks.len() && 0 <= j < ks.len() && i != j implies #[trigger] ks[i]
                != #[trigger] ks[j] by {
                if i < ksp.len() && j < ksp.len() {
                } else {
                    let a = if i < ksp.len() {
                        i
                    } else {
                        j
                    };
                    assert(ks[a] == ksp[a]);
                    assert(!ksp.contains(f(s.last())));
                }
            }
        }
    }
}

/// A key outside the distinct-key list matches no row.
pub proof fn lemma_matching_unseen_empty<K>(s: Seq<DerivedRow>, f: spec_fn(DerivedRow) -> K, k: K)
    requires
        !keys_in_order(s, f).contains(k),
    ensures
        matching(s, f, k).len() == 0,
    decreases s.len(),
{
    if s.len() > 0 {
        let pre = s.drop_last();
        let ksp = keys_in_order(pre, f);
        assert forall|i: int| 0 <= i < ksp.len() implies ksp[i] != k by {
            if ksp.contains(f(s.last())) {
                assert(keys_in_order(s, f)[i] == ksp[i]);
            } else {
                assert(keys_in_order(s, f)[i] == ksp[i]);
            }
        }
        assert(!ksp.contains(k));
        lemma_matching_unseen_empty(pre, f, k);
        if ksp.contains(f(s.last())) {
            assert(keys_in_order(s, f).contains(f(s.last())));
        } else {
            assert(keys_in_order(s, f)[ksp.len() as int] == f(s.last()));
            assert(keys_in_order(s, f).contains(f(s.last())));
        }
        assert(f(s.last()) != k);
    }
}

/// Every listed key matches at least one row.
pub proof fn lemma_keys_have_rows<K>(s: Seq<DerivedRow>, f: spec_fn(DerivedRow) -> K)
    ensures
        forall|i: int|
            0 <= i < keys_in_order(s, f).len() ==> matching(
                s,
                f,
                #[trigger] keys_in_order(s, f)[i],
            ).len() > 0,
    decreases s.len(),
{
    if s.len() > 0 {
        let pre = s.drop_last();
        lemma_keys_have_rows(pre, f);
        let ks = keys_in_order(s, f);
        let ksp = keys_in_order(pre, f);
        assert forall|i: int| 0 <= i < ks.len() implies matching(s, f, #[trigger] ks[i]).len()
            > 0 by {
            assert(pre.push(s.last()) =~= s);
            lemma_matching_push(pre, f, ks[i], s.last());
            if i < ksp.len() {
                assert(ks[i] == ksp[i]);
            } else {
                assert(ks[i] == f(s.last()));
            }
        }
    }
}

/// Passenger count with absence coalesced to zero.
pub open spec fn pass_of(r: DerivedRow) -> int {
    match r.raw.passenger_count {
        Some(p) => p as int,
        None => 0,
    }
}

pub open spec fn sum_passengers(s: Seq<DerivedRow>) -> int
    decreases s.len(),
{
    if s.len() == 0 {
        0
    } else {
        sum_passengers(s.drop_last()) + pass_of(s.last())
    }
}

pub open spec fn sum_distance(s: Seq<DerivedRow>) -> int
    decreases s.len(),
{
    if s.len() == 0 {
        0
    } else {
        sum_distance(s.drop_last()) + s.last().raw.trip_distance
    }
}

pub open spec fn sum_duration(s: Seq<DerivedRow>) -> int
    decreases s.len(),
{
    if s.len() == 0 {
        0
    } else {
        sum_duration(s.drop_last()) + s.last().trip_duration_minutes
    }
}

pub open spec fn sum_amount(s: Seq<DerivedRow>) -> int
    decreases s.len(),
{
    if s.len() == 0 {
        0
    } else {
        sum_amount(s.drop_last()) + s.last().raw.total_amount
    }
}

pub open spec fn sum_tip(s: Seq<DerivedRow>) -> int
    decreases s.len(),
{
    if s.len() == 0 {
        0
    } else {
        sum_tip(s.drop_last()) + s.last().raw.tip_amount
    }
}

/// Smallest total fare of a non-empty group.
pub open spec fn min_amount(s: Seq<DerivedRow>) -> int
    decreases s.len(),
{
    if s.len() <= 1 {
        if s.len() == 1 {
            s.last().raw.total_amount as int
        } else {
            0
        }
    } else if s.last().raw.total_amount <= min_amount(s.drop_last()) {
        s.last().raw.total_amount as int
    } else {
        min_amount(s.drop_last())
    }
}

pub open spec fn max_amount(s: Seq<DerivedRow>) -> int
    decreases s.len(),
{
    if s.len() <= 1 {
        if s.len() == 1 {
            s.last().raw.total_amount as int
        } else {
            0
        }
    } else if s.last().raw.total_amount >= max_amount(s.drop_last()) {
        s.last().raw.total_amount as int
    } else {
        max_amount(s.drop_last())
    }
}

pub open spec fn min_tip(s: Seq<DerivedRow>) -> int
    decreases s.len(),
{
    if s.len() <= 1 {
        if s.len() == 1 {
            s.last().raw.tip_amount as int
        } else {
            0
        }
    } else if s.last().raw.tip_amount <= min_tip(s.drop_last()) {
        s.last().raw.tip_amount as int
    } else {
        min_tip(s.drop_last())
    }
}

pub open spec fn max_tip(s: Seq<DerivedRow>) -> int
    decreases s.len(),
{
    if s.len() <= 1 {
        if s.len() == 1 {
            s.last().raw.tip_amount as int
        } else {
            0
        }
    } else if s.last().raw.tip_amount >= max_tip(s.drop_last()) {
        s.last().raw.tip_amount as int
    } else {
        max_tip(s.drop_last())
    }
}

/// How every fold advances when a group gains one row.
pub proof fn lemma_folds_push(s: Seq<DerivedRow>, r: DerivedRow)
    ensures
        sum_passengers(s.push(r)) == sum_passengers(s) + pass_of(r),
        sum_distance(s.push(r)) == sum_distance(s) + r.raw.trip_distance,
        sum_duration(s.push(r)) == sum_duration(s) + r.trip_duration_minutes,
        sum_amount(s.push(r)) == sum_amount(s) + r.raw.total_amount,
        sum_tip(s.push(r)) == sum_tip(s) + r.raw.tip_amount,
        min_amount(s.push(r)) == if s.len() == 0 || r.raw.total_amount < min_amount(s) {
            r.raw.total_amount as int
        } else {
            min_amount(s)
        },
        max_amount(s.push(r)) == if s.len() == 0 || r.raw.total_amount > max_amount(s) {
            r.raw.total_amount as int
        } else {
            max_amount(s)
        },
        min_tip(s.push(r)) == if s.len() == 0 || r.raw.tip_amount < min_tip(s) {
            r.raw.tip_amount as int
        } else {
            min_tip(s)
        },
        max_tip(s.push(r)) == if s.len() == 0 || r.raw.tip_amount > max_tip(s) {
            r.raw.tip_amount as int
        } else {
            max_tip(s)
        },
{
    assert(s.push(r).drop_last() =~= s);
    assert(s.push(r).last() == r);
}

/// A group is never larger than the input it was grouped from.
pub proof fn lemma_matching_len<K>(s: Seq<DerivedRow>, f: spec_fn(DerivedRow) -> K, k: K)
    ensures
        matching(s, f, k).len() <= s.len(),
    decreases s.len(),
{
    if s.len() > 0 {
        lemma_matching_len(s.drop_last(), f, k);
    }
}

/// Every row of a group is a row of the grouped input.
pub proof fn lemma_matching_elems<K>(s: Seq<DerivedRow>, f: spec_fn(DerivedRow) -> K, k: K)
    ensures
        forall|j: int|
            #![trigger matching(s, f, k)[j]]
            0 <= j < matching(s, f, k).len() ==> exists|i: int|
                0 <= i < s.len() && #[trigger] s[i] == matching(s, f, k)[j],
    decreases s.len(),
{
    if s.len() > 0 {
        let pre = s.drop_last();
        lemma_matching_elems(pre, f, k);
        let ms = matching(s, f, k);
        let msp = matching(pre, f, k);
        assert forall|j: int| #![trigger ms[j]] 0 <= j < ms.len() implies exists|i: int|
            0 <= i < s.len() && #[trigger] s[i] == ms[j] by {
            if j < msp.len() {
                let i = choose|i: int| 0 <= i < pre.len() && #[trigger] pre[i] == msp[j];
                assert(s[i] == ms[j]);
            } else {
                assert(s[s.len() - 1] == ms[j]);
            }
        }
    }
}

/// The folds stay inside the ranges the accumulators and averages need:
/// each sum is bounded by the group size times the largest element value,
/// and the extrema of a non-empty group are element values.
pub proof fn lemma_folds_bounds(s: Seq<DerivedRow>)
    ensures
        0 <= sum_passengers(s) <= s.len() * 0xffff_ffff,
        0 <= sum_distance(s) <= s.len() * 0xffff_ffff,
        0 <= sum_amount(s) <= s.len() * 0xffff_ffff,
        0 <= sum_tip(s) <= s.len() * 0xffff_ffff,
        -(s.len() * 0x8000_0000_0000_0000) <= sum_duration(s) <= s.len()
            * 0x8000_0000_0000_0000,
        s.len() > 0 ==> 0 <= min_amount(s) <= 0xffff_ffff,
        s.len() > 0 ==> 0 <= max_amount(s) <= 0xffff_ffff,
        s.len() > 0 ==> 0 <= min_tip(s) <= 0xffff_ffff,
        s.len() > 0 ==> 0 <= max_tip(s) <= 0xffff_ffff,
    decreases s.len(),
{
    if s.len() > 0 {
        lemma_folds_bounds(s.drop_last());
    }
}

/// A sum of durations each bounded by `d` is bounded by the group size
/// times `d`.
pub proof fn lemma_sum_duration_bound(s: Seq<DerivedRow>, d: int)
    requires
        d >= 0,
        forall|i: int|
            0 <= i < s.len() ==> -d <= #[trigger] s[i].trip_duration_minutes <= d,
    ensures
        -(s.len() * d) <= sum_duration(s) <= s.len() * d,
    decreases s.len(),
{
    if s.len() > 0 {
        let pre = s.drop_last();
        assert(forall|i: int| 0 <= i < pre.len() ==> pre[i] == s[i]);
        lemma_sum_duration_bound(pre, d);
        assert(pre.len() * d + d == s.len() * d) by (nonlinear_arith)
            requires pre.len() + 1 == s.len();
    }
}

/// Dividing a value bounded by `b * m` by `b` gives at most `m`.
pub proof fn lemma_div_bound(a: int, b: int, m: int)
    requires
        0 < b,
        0 <= a <= b * m,
    ensures
        0 <= a / b <= m,
{
    assert(0 <= a / b <= m) by (nonlinear_arith)
        requires 0 < b, 0 <= a, a <= b * m;
}

/// Integer division truncated toward zero, matching whole-unit
/// truncation of a possibly negative quantity.
pub open spec fn div_trunc(a: int, b: int) -> int {
    if a >= 0 {
        a / b
    } else {
        -((-a) / b)
    }
}

} // verus!
