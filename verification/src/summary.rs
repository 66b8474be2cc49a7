//! The day-grain trip-summary: one aggregate row per {year, date},
//! carrying the row count, the summed passenger count, and the average
//! and exact median of the fares and tips.
use vstd::prelude::*;

use vstd::relations::{sorted_by, total_ordering};
use vstd::seq_lib::lemma_sorted_unique;

use crate::agg::{
    keys_in_order, lemma_keys_distinct, lemma_keys_have_rows, lemma_keys_push, lemma_matching_len,
    lemma_matching_push, lemma_matching_unseen_empty, matching, max_agg_rows, pass_of, sum_amount,
    sum_passengers, sum_tip,
};
use crate::merge::Keyed;
use crate::row::DerivedRow;
use crate::time::Date;

verus! {

/// The composite aggregate key of the day grain.
#[derive(Clone, Copy, PartialEq, Eq, Structural, Debug)]
pub struct DayKey {
    pub year: u32,
    pub date: Date,
}

/// The key each derived row falls under at the day grain.
pub open spec fn day_key_fn() -> spec_fn(DerivedRow) -> DayKey {
    |r: DerivedRow| DayKey { year: r.year, date: r.date }
}

/// The fares of a group, in row order.
pub open spec fn amounts_of(s: Seq<DerivedRow>) -> Seq<u32>
    decreases s.len(),
{
    if s.len() == 0 {
        Seq::empty()
    } else {
        amounts_of(s.drop_last()).push(s.last().raw.total_amount)
    }
}

/// The tips of a group, in row order.
pub open spec fn tips_of(s: Seq<DerivedRow>) -> Seq<u32>
    decreases s.len(),
{
    if s.len() == 0 {
        Seq::empty()
    } else {
        tips_of(s.drop_last()).push(s.last().raw.tip_amount)
    }
}

pub open spec fn u32_leq() -> spec_fn(u32, u32) -> bool {
    |a: u32, b: u32| a <= b
}

/// The exact order-statistic median of a value multiset: the middle
/// element of the sorted values, or for an even count the truncated mean
/// of the two middle elements.
pub open spec fn spec_median(vals: Seq<u32>) -> int {
    let sorted = vals.sort_by(u32_leq());
    let n = vals.len() as int;
    if n % 2 == 1 {
        sorted[n / 2] as int
    } else {
        (sorted[n / 2 - 1] + sorted[n / 2]) as int / 2
    }
}

/// One day-grain trip-summary aggregate row; fares and tips are fixed
/// point with two decimal places.
#[derive(Clone, Copy, PartialEq, Eq, Structural, Debug)]
pub struct TripSummaryRow {
    pub year: u32,
    pub date: Date,
    pub trip_count: u64,
    pub sum_passengers: u64,
    pub avg_amount: u64,
    pub median_amount: u64,
    pub avg_tip: u64,
    pub median_tip: u64,
}

impl Keyed<DayKey> for TripSummaryRow {
    open spec fn skey(self) -> DayKey {
        DayKey { year: self.year, date: self.date }
    }

    fn key_eq(&self, other: &Self) -> (b: bool) {
        self.year == other.year && self.date == other.date
    }
}

/// The trip-summary row one key owes to an input.
pub open spec fn spec_trip_summary_row(rows: Seq<DerivedRow>, k: DayKey) -> TripSummaryRow {
    let ms = matching(rows, day_key_fn(), k);
    let n = ms.len() as int;
    TripSummaryRow {
        year: k.year,
        date: k.date,
        trip_count: n as u64,
        sum_passengers: sum_passengers(ms) as u64,
        avg_amount: (sum_amount(ms) / n) as u64,
        median_amount: spec_median(amounts_of(ms)) as u64,
        avg_tip: (sum_tip(ms) / n) as u64,
        median_tip: spec_median(tips_of(ms)) as u64,
    }
}

/// The whole day-grain aggregation result: one row per distinct key, in
/// first-appearance order.
pub open spec fn spec_trip_summary_agg(rows: Seq<DerivedRow>) -> Seq<TripSummaryRow> {
    let ks = keys_in_order(rows, day_key_fn());
    Seq::new(ks.len(), |i: int| spec_trip_summary_row(rows, ks[i]))
}

/// No two rows of a day-grain aggregation result share a key.
pub proof fn lemma_trip_summary_agg_unique(rows: Seq<DerivedRow>)
    ensures
        crate::merge::unique_keys(spec_trip_summary_agg(rows)),
{
    lemma_keys_distinct(rows, day_key_fn());
    let a = spec_trip_summary_agg(rows);
    let ks = keys_in_order(rows, day_key_fn());
    assert forall|i: int, j: int|
        0 <= i < a.len() && 0 <= j < a.len() && i != j implies #[trigger] a[i].skey()
        != #[trigger] a[j].skey() by {
        assert(a[i].skey() == ks[i]);
        assert(a[j].skey() == ks[j]);
    }
}

proof fn lemma_u32_leq_total()
    ensures
        total_ordering(u32_leq()),
{
}

/// How the value sequences advance when a group gains one row.
proof fn lemma_values_push(s: Seq<DerivedRow>, r: DerivedRow)
    ensures
        amounts_of(s.push(r)) == amounts_of(s).push(r.raw.total_amount),
        tips_of(s.push(r)) == tips_of(s).push(r.raw.tip_amount),
{
    assert(s.push(r).drop_last() =~= s);
    assert(s.push(r).last() == r);
}

/// The fares and tips of the rows matching one day key, in row order.
fn collect_group_values(rows: &Vec<DerivedRow>, k: &DayKey) -> (out: (Vec<u32>, Vec<u32>))
    ensures
        out.0@ == amounts_of(matching(rows@, day_key_fn(), *k)),
        out.1@ == tips_of(matching(rows@, day_key_fn(), *k)),
{
    let ghost f = day_key_fn();
    let n = rows.len();
    let mut amounts: Vec<u32> = Vec::new();
    let mut tips: Vec<u32> = Vec::new();
    let mut i: usize = 0;
    while i < n
        invariant
            i <= n,
            n == rows@.len(),
            f == day_key_fn(),
            amounts@ == amounts_of(matching(rows@.take(i as int), f, *k)),
            tips@ == tips_of(matching(rows@.take(i as int), f, *k)),
        decreases n - i,
    {
        let ghost s = rows@.take(i as int);
        let ghost rr = rows@[i as int];
        let row = rows[i];
        proof {
            assert(rows@.take(i + 1).drop_last() =~= s);
            assert(rows@.take(i + 1) =~= s.push(rr));
            lemma_matching_push(s, f, *k, rr);
            lemma_values_push(matching(s, f, *k), rr);
        }
        if row.year == k.year && row.date.year == k.date.year && row.date.month == k.date.month
            && row.date.day == k.date.day {
            proof {
                assert(f(rr) == *k);
            }
            amounts.push(row.raw.total_amount);
            tips.push(row.raw.tip_amount);
        } else {
            proof {
                assert(f(rr) != *k);
            }
        }
        i += 1;
    }
    proof {
        assert(rows@.take(n as int) =~= rows@);
    }
    (amounts, tips)
}

/// Sorts the values ascending by repeatedly moving a least remaining
/// element across, giving exactly the sorted permutation the median is
/// defined over.
fn sort_values(xs: &Vec<u32>) -> (out: Vec<u32>)
    ensures
        out@ == xs@.sort_by(u32_leq()),
        out@.len() == xs@.len(),
{
    let ghost leq = u32_leq();
    let n = xs.len();
    let mut work: Vec<u32> = Vec::new();
    let mut i: usize = 0;
    while i < n
        invariant
            i <= n,
            n == xs@.len(),
            work@ == xs@.take(i as int),
        decreases n - i,
    {
        work.push(xs[i]);
        proof {
            assert(work@ =~= xs@.take(i + 1));
        }
        i += 1;
    }
    proof {
        assert(work@ =~= xs@);
    }
    let mut out: Vec<u32> = Vec::new();
    proof {
        out@.to_multiset_ensures();
        assert forall|x: u32| out@.to_multiset().count(x) == 0 by {
            assert(!out@.contains(x));
        }
        assert(out@.to_multiset().add(work@.to_multiset()) =~= xs@.to_multiset());
    }
    while work.len() > 0
        invariant
            leq == u32_leq(),
            sorted_by(out@, leq),
            out@.to_multiset().add(work@.to_multiset()) =~= xs@.to_multiset(),
            forall|a: int, b: int|
                0 <= a < out@.len() && 0 <= b < work@.len() ==> #[trigger] out@[a]
                    <= #[trigger] work@[b],
        decreases work@.len(),
    {
        let m = work.len();
        let mut mi: usize = 0;
        let mut p: usize = 1;
        while p < m
            invariant
                mi < p <= m,
                m == work@.len(),
                forall|q: int| 0 <= q < p ==> work@[mi as int] <= #[trigger] work@[q],
            decreases m - p,
        {
            if work[p] < work[mi] {
                mi = p;
            }
            p += 1;
        }
        let ghost work0 = work@;
        let ghost out0 = out@;
        let v = work.remove(mi);
        out.push(v);
        proof {
            work0.to_multiset_ensures();
            out0.to_multiset_ensures();
            assert(work@.to_multiset() =~= work0.to_multiset().remove(v));
            assert(out@.to_multiset() =~= out0.to_multiset().insert(v));
            assert(work0.contains(v)) by {
                assert(work0[mi as int] == v);
            }
            assert(work0.to_multiset().count(v) > 0);
            assert(out@.to_multiset().add(work@.to_multiset()) =~= xs@.to_multiset());
            assert forall|a: int, b: int|
                0 <= a < out@.len() && 0 <= b < work@.len() implies #[trigger] out@[a]
                <= #[trigger] work@[b] by {
                if b < mi {
                    assert(work@[b] == work0[b]);
                } else {
                    assert(work@[b] == work0[b + 1]);
                }
                if a < out0.len() {
                    assert(out@[a] == out0[a]);
                }
            }
            assert forall|a: int, b: int| 0 <= a < b < out@.len() implies leq(out@[a], out@[b]) by {
                if b < out0.len() {
                    assert(sorted_by(out0, leq));
                } else {
                    assert(out@[b] == v);
                }
            }
        }
    }
    proof {
        work@.to_multiset_ensures();
        assert forall|x: u32| work@.to_multiset().count(x) == 0 by {
            assert(!work@.contains(x));
        }
        assert(out@.to_multiset() =~= xs@.to_multiset());
        lemma_u32_leq_total();
        xs@.lemma_sort_by_ensures(leq);
        lemma_sorted_unique(out@, xs@.sort_by(leq), leq);
        assert(out@ =~= xs@.sort_by(leq));
        out@.to_multiset_ensures();
        xs@.to_multiset_ensures();
        assert(out@.len() == xs@.len());
    }
    out
}

/// The exact median of a non-empty value list.
fn median_of(xs: &Vec<u32>) -> (r: u64)
    requires
        xs@.len() > 0,
    ensures
        r == spec_median(xs@),
{
    let sorted = sort_values(xs);
    let n = sorted.len();
    if n % 2 == 1 {
        sorted[n / 2] as u64
    } else {
        ((sorted[n / 2 - 1] as u64) + (sorted[n / 2] as u64)) / 2
    }
}

/// The running totals of one day group.
#[derive(Clone, Copy)]
struct DayAcc {
    key: DayKey,
    count: u64,
    sum_pass: u64,
    sum_amount: u64,
    sum_tip: u64,
}

spec fn day_acc_ok(a: DayAcc, ms: Seq<DerivedRow>) -> bool {
    &&& a.count == ms.len()
    &&& a.sum_pass == sum_passengers(ms)
    &&& a.sum_amount == sum_amount(ms)
    &&& a.sum_tip == sum_tip(ms)
}

fn find_day_acc(accs: &Vec<DayAcc>, k: &DayKey) -> (res: Option<usize>)
    ensures
        match res {
            Some(j) => j < accs@.len() && accs@[j as int].key == *k,
            None => forall|p: int| 0 <= p < accs@.len() ==> #[trigger] accs@[p].key != *k,
        },
{
    let n = accs.len();
    let mut p: usize = 0;
    while p < n
        invariant
            p <= n,
            n == accs@.len(),
            forall|q: int| 0 <= q < p ==> #[trigger] accs@[q].key != *k,
        decreases n - p,
    {
        if accs[p].key.year == k.year && accs[p].key.date == k.date {
            return Some(p);
        }
        p += 1;
    }
    None
}

/// Groups the period's rows by {year, date} and computes the count,
/// passenger sum, and the average and exact median fare and tip of each
/// group.
pub fn aggregate_trip_summary(rows: &Vec<DerivedRow>) -> (out: Vec<TripSummaryRow>)
    requires
        rows@.len() <= max_agg_rows(),
    ensures
        out@ == spec_trip_summary_agg(rows@),
        crate::merge::unique_keys(out@),
{
    let ghost f = day_key_fn();
    let n = rows.len();
    let mut accs: Vec<DayAcc> = Vec::new();
    let mut i: usize = 0;
    while i < n
        invariant
            i <= n,
            n == rows@.len(),
            n <= max_agg_rows(),
            f == day_key_fn(),
            accs@.len() == keys_in_order(rows@.take(i as int), f).len(),
            forall|j: int|
                0 <= j < accs@.len() ==> #[trigger] accs@[j].key == keys_in_order(
                    rows@.take(i as int),
                    f,
                )[j],
            forall|j: int|
                0 <= j < accs@.len() ==> day_acc_ok(
                    #[trigger] accs@[j],
                    matching(rows@.take(i as int), f, accs@[j].key),
                ),
        decreases n - i,
    {
        let ghost s = rows@.take(i as int);
        let ghost rr = rows@[i as int];
        let row = rows[i];
        let k = DayKey { year: row.year, date: row.date };
        let p_add: u64 = match row.raw.passenger_count {
            Some(p) => p as u64,
            None => 0,
        };
        proof {
            assert(rows@.take(i + 1).drop_last() =~= s);
            assert(rows@.take(i + 1) =~= s.push(rr));
            assert(k == f(rr));
            assert(p_add == pass_of(rr));
            lemma_keys_push(s, f, rr);
            lemma_keys_distinct(s, f);
        }
        match find_day_acc(&accs, &k) {
            Some(j) => {
                let a = accs[j];
                proof {
                    let ks = keys_in_order(s, f);
                    assert(ks[j as int] == k);
                    assert(ks.contains(k));
                    let ms = matching(s, f, k);
                    lemma_matching_len(s, f, k);
                    crate::agg::lemma_folds_bounds(ms);
                    crate::agg::lemma_folds_push(ms, rr);
                }
                accs[j] = DayAcc {
                    key: a.key,
                    count: a.count + 1,
                    sum_pass: a.sum_pass + p_add,
                    sum_amount: a.sum_amount + row.raw.total_amount as u64,
                    sum_tip: a.sum_tip + row.raw.tip_amount as u64,
                };
                proof {
                    let ks = keys_in_order(s, f);
                    assert(keys_in_order(rows@.take(i + 1), f) == ks);
                    assert forall|p: int| 0 <= p < accs@.len() implies day_acc_ok(
                        #[trigger] accs@[p],
                        matching(rows@.take(i + 1), f, accs@[p].key),
                    ) by {
                        lemma_matching_push(s, f, accs@[p].key, rr);
                    }
                }
            },
            None => {
                proof {
                    let ks = keys_in_order(s, f);
                    assert(!ks.contains(k)) by {
                        if ks.contains(k) {
                            let idx = choose|idx: int| 0 <= idx < ks.len() && ks[idx] == k;
                            assert(accs@[idx].key == k);
                        }
                    }
                    assert(keys_in_order(rows@.take(i + 1), f) == ks.push(k));
                    lemma_matching_unseen_empty(s, f, k);
                    crate::agg::lemma_folds_push(matching(s, f, k), rr);
                }
                accs.push(
                    DayAcc {
                        key: k,
                        count: 1,
                        sum_pass: p_add,
                        sum_amount: row.raw.total_amount as u64,
                        sum_tip: row.raw.tip_amount as u64,
                    },
                );
                proof {
                    let ks = keys_in_order(s, f);
                    assert forall|p: int| 0 <= p < accs@.len() implies day_acc_ok(
                        #[trigger] accs@[p],
                        matching(rows@.take(i + 1), f, accs@[p].key),
                    ) by {
                        lemma_matching_push(s, f, accs@[p].key, rr);
                        if p < accs@.len() - 1 {
                            assert(accs@[p].key == ks[p]);
                        } else {
                            assert(matching(s, f, k).len() == 0);
                        }
                    }
                    assert forall|j: int| 0 <= j < accs@.len() implies #[trigger] accs@[j].key
                        == keys_in_order(rows@.take(i + 1), f)[j] by {
                        if j < accs@.len() - 1 {
                            assert(ks.push(k)[j] == ks[j]);
                        }
                    }
                }
            },
        }
        i += 1;
    }
    proof {
        assert(rows@.take(n as int) =~= rows@);
    }
    let ghost ks = keys_in_order(rows@, f);
    let m = accs.len();
    let mut out: Vec<TripSummaryRow> = Vec::new();
    let mut j: usize = 0;
    while j < m
        invariant
            j <= m,
            m == accs@.len(),
            m == ks.len(),
            f == day_key_fn(),
            ks == keys_in_order(rows@, f),
            forall|p: int| 0 <= p < m ==> #[trigger] accs@[p].key == ks[p],
            forall|p: int|
                0 <= p < m ==> day_acc_ok(#[trigger] accs@[p], matching(rows@, f, accs@[p].key)),
            out@.len() == j,
            forall|p: int|
                0 <= p < j ==> #[trigger] out@[p] == spec_trip_summary_row(rows@, ks[p]),
        decreases m - j,
    {
        let a = accs[j];
        let ghost ms = matching(rows@, f, a.key);
        proof {
            lemma_keys_have_rows(rows@, f);
            assert(ms.len() > 0);
            assert(amounts_of(ms).len() == ms.len() && tips_of(ms).len() == ms.len()) by {
                lemma_values_len(ms);
            }
        }
        let (amounts, tips) = collect_group_values(rows, &a.key);
        let med_amount = median_of(&amounts);
        let med_tip = median_of(&tips);
        out.push(
            TripSummaryRow {
                year: a.key.year,
                date: a.key.date,
                trip_count: a.count,
                sum_passengers: a.sum_pass,
                avg_amount: a.sum_amount / a.count,
                median_amount: med_amount,
                avg_tip: a.sum_tip / a.count,
                median_tip: med_tip,
            },
        );
        proof {
            assert(out@[j as int] == spec_trip_summary_row(rows@, ks[j as int]));
        }
        j += 1;
    }
    proof {
        lemma_keys_distinct(rows@, f);
        assert(out@ =~= spec_trip_summary_agg(rows@));
        assert forall|p: int, q: int|
            0 <= p < out@.len() && 0 <= q < out@.len() && p != q implies #[trigger] out@[p].skey()
            != #[trigger] out@[q].skey() by {
            assert(out@[p].skey() == ks[p]);
            assert(out@[q].skey() == ks[q]);
        }
    }
    out
}

/// A group has as many fares and tips as rows.
proof fn lemma_values_len(s: Seq<DerivedRow>)
    ensures
        amounts_of(s).len() == s.len(),
        tips_of(s).len() == s.len(),
    decreases s.len(),
{
    if s.len() > 0 {
        lemma_values_len(s.drop_last());
    }
}

} // verus!
