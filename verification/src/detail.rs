//! The trip-detail grain: one aggregate row per {year, date, time_of_day,
//! pickup location, dropoff location}, carrying the row count, the summed
//! passenger count, the average trip duration, and the average, minimum
//! and maximum fare and tip.
use vstd::prelude::*;

use crate::agg::{
    div_trunc, keys_in_order, lemma_div_bound, lemma_folds_bounds, lemma_folds_push,
    lemma_keys_distinct, lemma_keys_have_rows, lemma_keys_push, lemma_matching_elems,
    lemma_matching_len, lemma_matching_push, lemma_matching_unseen_empty, lemma_sum_duration_bound,
    matching, max_agg_rows, max_amount, max_tip, min_amount, min_tip, pass_of, sum_amount,
    sum_duration, sum_passengers, sum_tip,
};
use crate::merge::Keyed;
use crate::row::{row_duration_ok, DerivedRow};
use crate::time::{Date, TimeOfDay};

verus! {

/// The composite aggregate key of the trip-detail grain.
#[derive(Clone, Copy, PartialEq, Eq, Structural, Debug)]
pub struct TripDetailKey {
    pub year: u32,
    pub date: Date,
    pub time_of_day: TimeOfDay,
    pub pickup_location_id: u32,
    pub dropoff_location_id: u32,
}

/// The key each derived row falls under at the trip-detail grain.
pub open spec fn detail_key_fn() -> spec_fn(DerivedRow) -> TripDetailKey {
    |r: DerivedRow|
        TripDetailKey {
            year: r.year,
            date: r.date,
            time_of_day: r.time_of_day,
            pickup_location_id: r.raw.pickup_location_id,
            dropoff_location_id: r.raw.dropoff_location_id,
        }
}

/// One trip-detail aggregate row; an absent passenger count sums as
/// zero, and the averaged columns are fixed point with two decimal
/// places.
#[derive(Clone, Copy, PartialEq, Eq, Structural, Debug)]
pub struct TripDetailRow {
    pub year: u32,
    pub date: Date,
    pub time_of_day: TimeOfDay,
    pub pickup_location_id: u32,
    pub dropoff_location_id: u32,
    pub trip_count: u64,
    pub sum_passengers: u64,
    pub avg_trip_duration_minutes: i64,
    pub avg_amount: u64,
    pub min_amount: u32,
    pub max_amount: u32,
    pub avg_tip: u64,
    pub min_tip: u32,
    pub max_tip: u32,
}

impl Keyed<TripDetailKey> for TripDetailRow {
    open spec fn skey(self) -> TripDetailKey {
        TripDetailKey {
            year: self.year,
            date: self.date,
            time_of_day: self.time_of_day,
            pickup_location_id: self.pickup_location_id,
            dropoff_location_id: self.dropoff_location_id,
        }
    }

    fn key_eq(&self, other: &Self) -> (b: bool) {
        self.year == other.year && self.date == other.date && self.time_of_day
            == other.time_of_day && self.pickup_location_id == other.pickup_location_id
            && self.dropoff_location_id == other.dropoff_location_id
    }
}

/// The trip-detail aggregate row one key owes to an input.
pub open spec fn spec_trip_detail_row(rows: Seq<DerivedRow>, k: TripDetailKey) -> TripDetailRow {
    let ms = matching(rows, detail_key_fn(), k);
    let n = ms.len() as int;
    TripDetailRow {
        year: k.year,
        date: k.date,
        time_of_day: k.time_of_day,
        pickup_location_id: k.pickup_location_id,
        dropoff_location_id: k.dropoff_location_id,
        trip_count: n as u64,
        sum_passengers: sum_passengers(ms) as u64,
        avg_trip_duration_minutes: div_trunc(100 * sum_duration(ms), n) as i64,
        avg_amount: (sum_amount(ms) / n) as u64,
        min_amount: min_amount(ms) as u32,
        max_amount: max_amount(ms) as u32,
        avg_tip: (sum_tip(ms) / n) as u64,
        min_tip: min_tip(ms) as u32,
        max_tip: max_tip(ms) as u32,
    }
}

/// The whole trip-detail aggregation result: one row per distinct key,
/// in first-appearance order.
pub open spec fn spec_trip_detail_agg(rows: Seq<DerivedRow>) -> Seq<TripDetailRow> {
    let ks = keys_in_order(rows, detail_key_fn());
    Seq::new(ks.len(), |i: int| spec_trip_detail_row(rows, ks[i]))
}

/// No two rows of a trip-detail aggregation result share a key.
pub proof fn lemma_trip_detail_agg_unique(rows: Seq<DerivedRow>)
    ensures
        crate::merge::unique_keys(spec_trip_detail_agg(rows)),
{
    lemma_keys_distinct(rows, detail_key_fn());
    let a = spec_trip_detail_agg(rows);
    let ks = keys_in_order(rows, detail_key_fn());
    assert forall|i: int, j: int|
        0 <= i < a.len() && 0 <= j < a.len() && i != j implies #[trigger] a[i].skey()
        != #[trigger] a[j].skey() by {
        assert(a[i].skey() == ks[i]);
        assert(a[j].skey() == ks[j]);
    }
}

/// The running totals and extrema of one group.
#[derive(Clone, Copy)]
struct DetailAcc {
    key: TripDetailKey,
    count: u64,
    sum_pass: u64,
    sum_dur: i128,
    sum_amount: u64,
    min_amount: u32,
    max_amount: u32,
    sum_tip: u64,
    min_tip: u32,
    max_tip: u32,
}

spec fn detail_acc_ok(a: DetailAcc, ms: Seq<DerivedRow>) -> bool {
    &&& a.count == ms.len()
    &&& a.sum_pass == sum_passengers(ms)
    &&& a.sum_dur == sum_duration(ms)
    &&& a.sum_amount == sum_amount(ms)
    &&& a.min_amount == min_amount(ms)
    &&& a.max_amount == max_amount(ms)
    &&& a.sum_tip == sum_tip(ms)
    &&& a.min_tip == min_tip(ms)
    &&& a.max_tip == max_tip(ms)
}

fn find_detail_acc(accs: &Vec<DetailAcc>, k: &TripDetailKey) -> (res: Option<usize>)
    ensures
        match res {
            Some(j) => j < accs@.len() && accs@[j as int].key == *k,
            None => forall|p: int| 0 <= p < accs@.len() ==> #[trigger] accs@[p].key != *k,
        },
{
    let n = accs.len();
    let mut p: usize = 0;
    while p < n
        invariant
            p <= n,
            n == accs@.len(),
            forall|q: int| 0 <= q < p ==> #[trigger] accs@[q].key != *k,
        decreases n - p,
    {
        if accs[p].key.year == k.year && accs[p].key.date == k.date && accs[p].key.time_of_day
            == k.time_of_day && accs[p].key.pickup_location_id == k.pickup_location_id
            && accs[p].key.dropoff_location_id == k.dropoff_location_id {
            return Some(p);
        }
        p += 1;
    }
    None
}

/// Groups the period's rows by the trip-detail key and computes the
/// count, passenger sum, duration average, and fare and tip average,
/// minimum and maximum of each group.
pub fn aggregate_trip_detail(rows: &Vec<DerivedRow>) -> (out: Vec<TripDetailRow>)
    requires
        rows@.len() <= max_agg_rows(),
        forall|i: int| 0 <= i < rows@.len() ==> row_duration_ok(#[trigger] rows@[i]),
    ensures
        out@ == spec_trip_detail_agg(rows@),
        crate::merge::unique_keys(out@),
{
    let ghost f = detail_key_fn();
    let n = rows.len();
    let mut accs: Vec<DetailAcc> = Vec::new();
    let mut i: usize = 0;
    while i < n
        invariant
            i <= n,
            n == rows@.len(),
            n <= max_agg_rows(),
            f == detail_key_fn(),
            forall|q: int| 0 <= q < rows@.len() ==> row_duration_ok(#[trigger] rows@[q]),
            accs@.len() == keys_in_order(rows@.take(i as int), f).len(),
            forall|j: int|
                0 <= j < accs@.len() ==> #[trigger] accs@[j].key == keys_in_order(
                    rows@.take(i as int),
                    f,
                )[j],
            forall|j: int|
                0 <= j < accs@.len() ==> detail_acc_ok(
                    #[trigger] accs@[j],
                    matching(rows@.take(i as int), f, accs@[j].key),
                ),
        decreases n - i,
    {
        let ghost s = rows@.take(i as int);
        let ghost rr = rows@[i as int];
        let row = rows[i];
        let k = TripDetailKey {
            year: row.year,
            date: row.date,
            time_of_day: row.time_of_day,
            pickup_location_id: row.raw.pickup_location_id,
            dropoff_location_id: row.raw.dropoff_location_id,
        };
        let p_add: u64 = match row.raw.passenger_count {
            Some(p) => p as u64,
            None => 0,
        };
        proof {
            assert(rows@.take(i + 1).drop_last() =~= s);
            assert(rows@.take(i + 1) =~= s.push(rr));
            assert(k == f(rr));
            assert(p_add == pass_of(rr));
            lemma_keys_push(s, f, rr);
            lemma_keys_distinct(s, f);
        }
        match find_detail_acc(&accs, &k) {
            Some(j) => {
                let a = accs[j];
                proof {
                    let ks = keys_in_order(s, f);
                    assert(ks[j as int] == k);
                    assert(ks.contains(k));
                    let ms = matching(s, f, k);
                    lemma_keys_have_rows(s, f);
                    assert(ms.len() > 0);
                    lemma_matching_len(s, f, k);
                    lemma_folds_bounds(ms);
                    lemma_folds_push(ms, rr);
                }
                accs[j] = DetailAcc {
                    key: a.key,
                    count: a.count + 1,
                    sum_pass: a.sum_pass + p_add,
                    sum_dur: a.sum_dur + row.trip_duration_minutes as i128,
                    sum_amount: a.sum_amount + row.raw.total_amount as u64,
                    min_amount: if row.raw.total_amount < a.min_amount {
                        row.raw.total_amount
                    } else {
                        a.min_amount
                    },
                    max_amount: if row.raw.total_amount > a.max_amount {
                        row.raw.total_amount
                    } else {
                        a.max_amount
                    },
                    sum_tip: a.sum_tip + row.raw.tip_amount as u64,
                    min_tip: if row.raw.tip_amount < a.min_tip {
                        row.raw.tip_amount
                    } else {
                        a.min_tip
                    },
                    max_tip: if row.raw.tip_amount > a.max_tip {
                        row.raw.tip_amount
                    } else {
                        a.max_tip
                    },
                };
                proof {
                    let ks = keys_in_order(s, f);
                    assert(keys_in_order(rows@.take(i + 1), f) == ks);
                    assert forall|p: int| 0 <= p < accs@.len() implies detail_acc_ok(
                        #[trigger] accs@[p],
                        matching(rows@.take(i + 1), f, accs@[p].key),
                    ) by {
                        lemma_matching_push(s, f, accs@[p].key, rr);
                    }
                }
            },
            None => {
                proof {
                    let ks = keys_in_order(s, f);
                    assert(!ks.contains(k)) by {
                        if ks.contains(k) {
                            let idx = choose|idx: int| 0 <= idx < ks.len() && ks[idx] == k;
                            assert(accs@[idx].key == k);
                        }
                    }
                    assert(keys_in_order(rows@.take(i + 1), f) == ks.push(k));
                    lemma_matching_unseen_empty(s, f, k);
                    lemma_folds_push(matching(s, f, k), rr);
                }
                accs.push(
                    DetailAcc {
                        key: k,
                        count: 1,
                        sum_pass: p_add,
                        sum_dur: row.trip_duration_minutes as i128,
                        sum_amount: row.raw.total_amount as u64,
                        min_amount: row.raw.total_amount,
                        max_amount: row.raw.total_amount,
                        sum_tip: row.raw.tip_amount as u64,
                        min_tip: row.raw.tip_amount,
                        max_tip: row.raw.tip_amount,
                    },
                );
                proof {
                    let ks = keys_in_order(s, f);
                    assert forall|p: int| 0 <= p < accs@.len() implies detail_acc_ok(
                        #[trigger] accs@[p],
                        matching(rows@.take(i + 1), f, accs@[p].key),
                    ) by {
                        lemma_matching_push(s, f, accs@[p].key, rr);
                        if p < accs@.len() - 1 {
                            assert(accs@[p].key == ks[p]);
                        } else {
                            assert(matching(s, f, k).len() == 0);
                        }
                    }
                    assert forall|j: int| 0 <= j < accs@.len() implies #[trigger] accs@[j].key
                        == keys_in_order(rows@.take(i + 1), f)[j] by {
                        if j < accs@.len() - 1 {
                            assert(ks.push(k)[j] == ks[j]);
                        }
                    }
                }
            },
        }
        i += 1;
    }
    proof {
        assert(rows@.take(n as int) =~= rows@);
    }
    let ghost ks = keys_in_order(rows@, f);
    let m = accs.len();
    let mut out: Vec<TripDetailRow> = Vec::new();
    let mut j: usize = 0;
    while j < m
        invariant
            j <= m,
            m == accs@.len(),
            m == ks.len(),
            f == detail_key_fn(),
            ks == keys_in_order(rows@, f),
            rows@.len() <= max_agg_rows(),
            forall|q: int| 0 <= q < rows@.len() ==> row_duration_ok(#[trigger] rows@[q]),
            forall|p: int| 0 <= p < m ==> #[trigger] accs@[p].key == ks[p],
            forall|p: int|
                0 <= p < m ==> detail_acc_ok(#[trigger] accs@[p], matching(rows@, f, accs@[p].key)),
            out@.len() == j,
            forall|p: int| 0 <= p < j ==> #[trigger] out@[p] == spec_trip_detail_row(rows@, ks[p]),
        decreases m - j,
    {
        let a = accs[j];
        let ghost ms = matching(rows@, f, a.key);
        proof {
            lemma_keys_have_rows(rows@, f);
            assert(ms.len() > 0);
            lemma_matching_len(rows@, f, a.key);
            lemma_folds_bounds(ms);
            lemma_matching_elems(rows@, f, a.key);
            assert forall|q: int| 0 <= q < ms.len() implies -5_258_964_960 <= #[trigger] ms[q].trip_duration_minutes
                <= 5_258_964_960 by {
                let w = choose|w: int| 0 <= w < rows@.len() && #[trigger] rows@[w] == ms[q];
            }
            lemma_sum_duration_bound(ms, 5_258_964_960);
            if sum_duration(ms) >= 0 {
                lemma_div_bound(100 * sum_duration(ms), ms.len() as int, 525_896_496_000);
            } else {
                lemma_div_bound(100 * (-sum_duration(ms)), ms.len() as int, 525_896_496_000);
            }
        }
        let cnt: u128 = a.count as u128;
        let avg_dur: i64 = if a.sum_dur >= 0 {
            (((100u128 * (a.sum_dur as u128)) / cnt) as i64)
        } else {
            -(((100u128 * ((-a.sum_dur) as u128)) / cnt) as i64)
        };
        out.push(
            TripDetailRow {
                year: a.key.year,
                date: a.key.date,
                time_of_day: a.key.time_of_day,
                pickup_location_id: a.key.pickup_location_id,
                dropoff_location_id: a.key.dropoff_location_id,
                trip_count: a.count,
                sum_passengers: a.sum_pass,
                avg_trip_duration_minutes: avg_dur,
                avg_amount: a.sum_amount / a.count,
                min_amount: a.min_amount,
                max_amount: a.max_amount,
                avg_tip: a.sum_tip / a.count,
                min_tip: a.min_tip,
                max_tip: a.max_tip,
            },
        );
        proof {
            assert(out@[j as int] == spec_trip_detail_row(rows@, ks[j as int]));
        }
        j += 1;
    }
    proof {
        lemma_keys_distinct(rows@, f);
        assert(out@ =~= spec_trip_detail_agg(rows@));
        assert forall|p: int, q: int|
            0 <= p < out@.len() && 0 <= q < out@.len() && p != q implies #[trigger] out@[p].skey()
            != #[trigger] out@[q].skey() by {
            assert(out@[p].skey() == ks[p]);
            assert(out@[q].skey() == ks[q]);
        }
    }
    out
}

} // verus!
