//! The monthly-summary grain: one aggregate row per {year, month_start}
//! key, carrying the trip count and the averaged passenger, distance,
//! duration, fare and tip measures.
use vstd::prelude::*;

use crate::agg::{
    div_trunc, keys_in_order, lemma_div_bound, lemma_folds_bounds, lemma_folds_push,
    lemma_keys_distinct, lemma_keys_have_rows, lemma_keys_push, lemma_matching_elems,
    lemma_matching_len, lemma_matching_push, lemma_matching_unseen_empty, lemma_sum_duration_bound,
    matching, max_agg_rows, pass_of, sum_amount, sum_distance, sum_duration, sum_passengers,
    sum_tip,
};
use crate::merge::Keyed;
use crate::row::{row_duration_ok, DerivedRow};
use crate::time::Date;

verus! {

/// The composite aggregate key of the monthly grain.
#[derive(Clone, Copy, PartialEq, Eq, Structural, Debug)]
pub struct MonthKey {
    pub year: u32,
    pub month_start: Date,
}

/// The key each derived row falls under at the monthly grain.
pub open spec fn month_key_fn() -> spec_fn(DerivedRow) -> MonthKey {
    |r: DerivedRow| MonthKey { year: r.year, month_start: r.month_start }
}

/// One monthly-summary aggregate row. The averaged columns are fixed
/// point with two decimal places; the duration average is truncated
/// toward zero, every other average toward negative infinity (they are
/// non-negative, so both are plain truncation).
#[derive(Clone, Copy, PartialEq, Eq, Structural, Debug)]
pub struct TripStatsRow {
    pub year: u32,
    pub month_start: Date,
    pub trip_count: u64,
    pub avg_passengers: u64,
    pub avg_trip_distance_miles: u64,
    pub avg_trip_duration_minutes: i64,
    pub avg_amount: u64,
    pub avg_tip: u64,
}

impl Keyed<MonthKey> for TripStatsRow {
    open spec fn skey(self) -> MonthKey {
        MonthKey { year: self.year, month_start: self.month_start }
    }

    fn key_eq(&self, other: &Self) -> (b: bool) {
        self.year == other.year && self.month_start == other.month_start
    }
}

/// The monthly aggregate row one key owes to an input: each measure as a
/// fold over exactly the rows matching the key.
pub open spec fn spec_trip_stats_row(rows: Seq<DerivedRow>, k: MonthKey) -> TripStatsRow {
    let ms = matching(rows, month_key_fn(), k);
    let n = ms.len() as int;
    TripStatsRow {
        year: k.year,
        month_start: k.month_start,
        trip_count: n as u64,
        avg_passengers: (100 * sum_passengers(ms) / n) as u64,
        avg_trip_distance_miles: (sum_distance(ms) / n) as u64,
        avg_trip_duration_minutes: div_trunc(100 * sum_duration(ms), n) as i64,
        avg_amount: (sum_amount(ms) / n) as u64,
        avg_tip: (sum_tip(ms) / n) as u64,
    }
}

/// The whole monthly aggregation result: one row per distinct key, in
/// first-appearance order.
pub open spec fn spec_trip_stats_agg(rows: Seq<DerivedRow>) -> Seq<TripStatsRow> {
    let ks = keys_in_order(rows, month_key_fn());
    Seq::new(ks.len(), |i: int| spec_trip_stats_row(rows, ks[i]))
}

/// No two rows of a monthly aggregation result share a key.
pub proof fn lemma_trip_stats_agg_unique(rows: Seq<DerivedRow>)
    ensures
        crate::merge::unique_keys(spec_trip_stats_agg(rows)),
{
    lemma_keys_distinct(rows, month_key_fn());
    let a = spec_trip_stats_agg(rows);
    let ks = keys_in_order(rows, month_key_fn());
    assert forall|i: int, j: int|
        0 <= i < a.len() && 0 <= j < a.len() && i != j implies #[trigger] a[i].skey()
        != #[trigger] a[j].skey() by {
        assert(a[i].skey() == ks[i]);
        assert(a[j].skey() == ks[j]);
    }
}

/// The running totals of one group while the input is walked.
#[derive(Clone, Copy)]
struct MonthAcc {
    key: MonthKey,
    count: u64,
    sum_pass: u64,
    sum_dist: u64,
    sum_dur: i128,
    sum_amount: u64,
    sum_tip: u64,
}

spec fn month_acc_ok(a: MonthAcc, ms: Seq<DerivedRow>) -> bool {
    &&& a.count == ms.len()
    &&& a.sum_pass == sum_passengers(ms)
    &&& a.sum_dist == sum_distance(ms)
    &&& a.sum_dur == sum_duration(ms)
    &&& a.sum_amount == sum_amount(ms)
    &&& a.sum_tip == sum_tip(ms)
}

fn find_month_acc(accs: &Vec<MonthAcc>, k: &MonthKey) -> (res: Option<usize>)
    ensures
        match res {
            Some(j) => j < accs@.len() && accs@[j as int].key == *k,
            None => forall|p: int| 0 <= p < accs@.len() ==> #[trigger] accs@[p].key != *k,
        },
{
    let n = accs.len();
    let mut p: usize = 0;
    while p < n
        invariant
            p <= n,
            n == accs@.len(),
            forall|q: int| 0 <= q < p ==> #[trigger] accs@[q].key != *k,
        decreases n - p,
    {
        if accs[p].key.year == k.year && accs[p].key.month_start == k.month_start {
            return Some(p);
        }
        p += 1;
    }
    None
}

/// Groups the period's rows by {year, month_start} and computes the
/// monthly measures: the count of rows and the average passenger count,
/// trip distance, trip duration, fare and tip of each group.
pub fn aggregate_trip_stats(rows: &Vec<DerivedRow>) -> (out: Vec<TripStatsRow>)
    requires
        rows@.len() <= max_agg_rows(),
        forall|i: int| 0 <= i < rows@.len() ==> row_duration_ok(#[trigger] rows@[i]),
    ensures
        out@ == spec_trip_stats_agg(rows@),
        crate::merge::unique_keys(out@),
{
    let ghost f = month_key_fn();
    let n = rows.len();
    let mut accs: Vec<MonthAcc> = Vec::new();
    let mut i: usize = 0;
    while i < n
        invariant
            i <= n,
            n == rows@.len(),
            n <= max_agg_rows(),
            f == month_key_fn(),
            forall|q: int| 0 <= q < rows@.len() ==> row_duration_ok(#[trigger] rows@[q]),
            accs@.len() == keys_in_order(rows@.take(i as int), f).len(),
            forall|j: int|
                0 <= j < accs@.len() ==> #[trigger] accs@[j].key == keys_in_order(
                    rows@.take(i as int),
                    f,
                )[j],
            forall|j: int|
                0 <= j < accs@.len() ==> month_acc_ok(
                    #[trigger] accs@[j],
                    matching(rows@.take(i as int), f, accs@[j].key),
                ),
        decreases n - i,
    {
        let ghost s = rows@.take(i as int);
        let ghost rr = rows@[i as int];
        let row = rows[i];
        let k = MonthKey { year: row.year, month_start: row.month_start };
        let p_add: u64 = match row.raw.passenger_count {
            Some(p) => p as u64,
            None => 0,
        };
        proof {
            assert(rows@.take(i + 1).drop_last() =~= s);
            assert(rows@.take(i + 1) =~= s.push(rr));
            assert(k == f(rr));
            assert(p_add == pass_of(rr));
            lemma_keys_push(s, f, rr);
            lemma_keys_distinct(s, f);
        }
        match find_month_acc(&accs, &k) {
            Some(j) => {
                let a = accs[j];
                proof {
                    let ks = keys_in_order(s, f);
                    assert(ks[j as int] == k);
                    assert(ks.contains(k));
                    let ms = matching(s, f, k);
                    lemma_matching_len(s, f, k);
                    lemma_folds_bounds(ms);
                    lemma_folds_push(ms, rr);
                }
                accs[j] = MonthAcc {
                    key: a.key,
                    count: a.count + 1,
                    sum_pass: a.sum_pass + p_add,
                    sum_dist: a.sum_dist + row.raw.trip_distance as u64,
                    sum_dur: a.sum_dur + row.trip_duration_minutes as i128,
                    sum_amount: a.sum_amount + row.raw.total_amount as u64,
                    sum_tip: a.sum_tip + row.raw.tip_amount as u64,
                };
                proof {
                    let ks = keys_in_order(s, f);
                    assert(keys_in_order(rows@.take(i + 1), f) == ks);
                    assert forall|p: int| 0 <= p < accs@.len() implies month_acc_ok(
                        #[trigger] accs@[p],
                        matching(rows@.take(i + 1), f, accs@[p].key),
                    ) by {
                        lemma_matching_push(s, f, accs@[p].key, rr);
                    }
                }
            },
            None => {
                proof {
                    let ks = keys_in_order(s, f);
                    assert(!ks.contains(k)) by {
                        if ks.contains(k) {
                            let idx = choose|idx: int| 0 <= idx < ks.len() && ks[idx] == k;
                            assert(accs@[idx].key == k);
                        }
                    }
                    assert(keys_in_order(rows@.take(i + 1), f) == ks.push(k));
                    lemma_matching_unseen_empty(s, f, k);
                    lemma_folds_push(matching(s, f, k), rr);
                }
                accs.push(
                    MonthAcc {
                        key: k,
                        count: 1,
                        sum_pass: p_add,
                        sum_dist: row.raw.trip_distance as u64,
                        sum_dur: row.trip_duration_minutes as i128,
                        sum_amount: row.raw.total_amount as u64,
                        sum_tip: row.raw.tip_amount as u64,
                    },
                );
                proof {
                    let ks = keys_in_order(s, f);
                    assert forall|p: int| 0 <= p < accs@.len() implies month_acc_ok(
                        #[trigger] accs@[p],
                        matching(rows@.take(i + 1), f, accs@[p].key),
                    ) by {
                        lemma_matching_push(s, f, accs@[p].key, rr);
                        if p < accs@.len() - 1 {
                            assert(accs@[p].key == ks[p]);
                        } else {
                            assert(matching(s, f, k).len() == 0);
                        }
                    }
                    assert forall|j: int| 0 <= j < accs@.len() implies #[trigger] accs@[j].key
                        == keys_in_order(rows@.take(i + 1), f)[j] by {
                        if j < accs@.len() - 1 {
                            assert(ks.push(k)[j] == ks[j]);
                        }
                    }
                }
            },
        }
        i += 1;
    }
    proof {
        assert(rows@.take(n as int) =~= rows@);
    }
    let ghost ks = keys_in_order(rows@, f);
    let m = accs.len();
    let mut out: Vec<TripStatsRow> = Vec::new();
    let mut j: usize = 0;
    while j < m
        invariant
            j <= m,
            m == accs@.len(),
            m == ks.len(),
            f == month_key_fn(),
            ks == keys_in_order(rows@, f),
            rows@.len() <= max_agg_rows(),
            forall|q: int| 0 <= q < rows@.len() ==> row_duration_ok(#[trigger] rows@[q]),
            forall|p: int| 0 <= p < m ==> #[trigger] accs@[p].key == ks[p],
            forall|p: int|
                0 <= p < m ==> month_acc_ok(#[trigger] accs@[p], matching(rows@, f, accs@[p].key)),
            out@.len() == j,
            forall|p: int| 0 <= p < j ==> #[trigger] out@[p] == spec_trip_stats_row(rows@, ks[p]),
        decreases m - j,
    {
        let a = accs[j];
        let ghost ms = matching(rows@, f, a.key);
        proof {
            lemma_keys_have_rows(rows@, f);
            assert(ms.len() > 0);
            lemma_matching_len(rows@, f, a.key);
            lemma_folds_bounds(ms);
            lemma_matching_elems(rows@, f, a.key);
            assert forall|q: int| 0 <= q < ms.len() implies -5_258_964_960 <= #[trigger] ms[q].trip_duration_minutes
                <= 5_258_964_960 by {
                let w = choose|w: int| 0 <= w < rows@.len() && #[trigger] rows@[w] == ms[q];
            }
            lemma_sum_duration_bound(ms, 5_258_964_960);
            if sum_duration(ms) >= 0 {
                lemma_div_bound(100 * sum_duration(ms), ms.len() as int, 525_896_496_000);
            } else {
                lemma_div_bound(100 * (-sum_duration(ms)), ms.len() as int, 525_896_496_000);
            }
        }
        let cnt: u128 = a.count as u128;
        let avg_pass: u64 = ((100u128 * (a.sum_pass as u128)) / cnt) as u64;
        let avg_dist: u64 = a.sum_dist / a.count;
        let avg_dur: i64 = if a.sum_dur >= 0 {
            (((100u128 * (a.sum_dur as u128)) / cnt) as i64)
        } else {
            -(((100u128 * ((-a.sum_dur) as u128)) / cnt) as i64)
        };
        let avg_amt: u64 = a.sum_amount / a.count;
        let avg_tip_v: u64 = a.sum_tip / a.count;
        out.push(
            TripStatsRow {
                year: a.key.year,
                month_start: a.key.month_start,
                trip_count: a.count,
                avg_passengers: avg_pass,
                avg_trip_distance_miles: avg_dist,
                avg_trip_duration_minutes: avg_dur,
                avg_amount: avg_amt,
                avg_tip: avg_tip_v,
            },
        );
        proof {
            assert(out@[j as int] == spec_trip_stats_row(rows@, ks[j as int]));
        }
        j += 1;
    }
    proof {
        lemma_keys_distinct(rows@, f);
        assert(out@ =~= spec_trip_stats_agg(rows@));
        assert forall|p: int, q: int|
            0 <= p < out@.len() && 0 <= q < out@.len() && p != q implies #[trigger] out@[p].skey()
            != #[trigger] out@[q].skey() by {
            assert(out@[p].skey() == ks[p]);
            assert(out@[q].skey() == ks[q]);
        }
    }
    out
}

} // verus!
