//! Raw trip records, the derived rows the aggregations consume, and the
//! load step that derives and filters one target period's rows.
use vstd::prelude::*;

use crate::time::{
    classify_hour, date_valid, duration_minutes, in_same_month, month_start_of, same_month,
    spec_duration_minutes, spec_month_start, spec_time_of_day, timestamp_valid, Date, TimeOfDay,
    Timestamp,
};

verus! {

/// One raw trip-level input record. Immutable; one instance per physical
/// trip. Monetary amounts and the distance are fixed point with two
/// decimal places.
#[derive(Clone, Copy, Debug)]
pub struct RawTripRecord {
    pub pickup: Timestamp,
    pub dropoff: Timestamp,
    pub pickup_location_id: u32,
    pub dropoff_location_id: u32,
    /// Trip distance in hundredths of a mile.
    pub trip_distance: u32,
    /// Absent when the source row carried no passenger count; treated as
    /// zero by the summing aggregations.
    pub passenger_count: Option<u32>,
    /// Total fare in hundredths (a fare of 20.00 is 2000).
    pub total_amount: u32,
    /// Tip in hundredths.
    pub tip_amount: u32,
}

/// A raw record augmented with the computed time-bucket and duration
/// columns; derived deterministically from the raw fields alone and
/// discarded after aggregation.
#[derive(Clone, Copy, Debug)]
pub struct DerivedRow {
    pub raw: RawTripRecord,
    /// Calendar day of the pickup.
    pub date: Date,
    /// Year of the pickup date.
    pub year: u32,
    /// First day of the month containing the pickup.
    pub month_start: Date,
    /// Pickup hour of day, 0 to 23.
    pub hour: u8,
    pub time_of_day: TimeOfDay,
    /// Dropoff minus pickup in whole minutes, truncated toward zero.
    pub trip_duration_minutes: i64,
}

pub open spec fn raw_valid(r: RawTripRecord) -> bool {
    &&& timestamp_valid(r.pickup)
    &&& timestamp_valid(r.dropoff)
}

/// The derivation rules: every computed column as a function of the raw
/// record alone.
pub open spec fn spec_derive(r: RawTripRecord) -> DerivedRow {
    DerivedRow {
        raw: r,
        date: r.pickup.date,
        year: r.pickup.date.year,
        month_start: spec_month_start(r.pickup.date),
        hour: r.pickup.hour,
        time_of_day: spec_time_of_day(r.pickup.hour as int),
        trip_duration_minutes: spec_duration_minutes(r.pickup, r.dropoff) as i64,
    }
}

pub fn derive_row(r: &RawTripRecord) -> (d: DerivedRow)
    requires
        raw_valid(*r),
    ensures
        d == spec_derive(*r),
{
    DerivedRow {
        raw: *r,
        date: r.pickup.date,
        year: r.pickup.date.year,
        month_start: month_start_of(&r.pickup.date),
        hour: r.pickup.hour,
        time_of_day: classify_hour(r.pickup.hour),
        trip_duration_minutes: duration_minutes(&r.pickup, &r.dropoff),
    }
}

/// Whether a derived row survives the period filter: its month truncation
/// equals the target's.
pub open spec fn in_period(d: DerivedRow, period: Date) -> bool {
    d.month_start == spec_month_start(period)
}

pub open spec fn all_raw_valid(raws: Seq<RawTripRecord>) -> bool {
    forall|i: int| 0 <= i < raws.len() ==> raw_valid(#[trigger] raws[i])
}

/// The derived rows of one target period, in input order: each raw record
/// is derived, and exactly those whose pickup month equals the target
/// month survive.
pub open spec fn spec_load_period(raws: Seq<RawTripRecord>, period: Date) -> Seq<DerivedRow>
    decreases raws.len(),
{
    if raws.len() == 0 {
        Seq::empty()
    } else {
        let prefix = spec_load_period(raws.drop_last(), period);
        let d = spec_derive(raws.last());
        if in_period(d, period) {
            prefix.push(d)
        } else {
            prefix
        }
    }
}

pub proof fn lemma_load_period_len(raws: Seq<RawTripRecord>, period: Date)
    ensures
        spec_load_period(raws, period).len() <= raws.len(),
    decreases raws.len(),
{
    if raws.len() > 0 {
        lemma_load_period_len(raws.drop_last(), period);
    }
}

/// All rows the load step hands out are derived rows of the target period.
pub proof fn lemma_load_period_rows(raws: Seq<RawTripRecord>, period: Date)
    ensures
        forall|i: int|
            0 <= i < spec_load_period(raws, period).len() ==> in_period(
                #[trigger] spec_load_period(raws, period)[i],
                period,
            ),
    decreases raws.len(),
{
    if raws.len() > 0 {
        lemma_load_period_rows(raws.drop_last(), period);
        let prefix = spec_load_period(raws.drop_last(), period);
        let d = spec_derive(raws.last());
        if in_period(d, period) {
            assert forall|i: int| 0 <= i < prefix.push(d).len() implies in_period(
                #[trigger] prefix.push(d)[i],
                period,
            ) by {
                if i < prefix.len() {
                    assert(prefix.push(d)[i] == prefix[i]);
                }
            }
        }
    }
}

/// The duration bound every row derived from valid timestamps satisfies;
/// the averaging aggregations require it of their input.
pub open spec fn row_duration_ok(d: DerivedRow) -> bool {
    -5_258_964_960 < d.trip_duration_minutes < 5_258_964_960
}

/// Rows loaded from valid raw records satisfy the duration bound.
pub proof fn lemma_load_period_duration_ok(raws: Seq<RawTripRecord>, period: Date)
    requires
        all_raw_valid(raws),
    ensures
        forall|i: int|
            0 <= i < spec_load_period(raws, period).len() ==> row_duration_ok(
                #[trigger] spec_load_period(raws, period)[i],
            ),
    decreases raws.len(),
{
    if raws.len() > 0 {
        let pre = raws.drop_last();
        assert(all_raw_valid(pre)) by {
            assert(forall|i: int| 0 <= i < pre.len() ==> pre[i] == raws[i]);
        }
        lemma_load_period_duration_ok(pre, period);
        let prefix = spec_load_period(pre, period);
        let d = spec_derive(raws.last());
        if in_period(d, period) {
            assert(row_duration_ok(d)) by {
                crate::time::lemma_duration_minutes_bounds(raws.last().pickup, raws.last().dropoff);
            }
            assert forall|i: int| 0 <= i < prefix.push(d).len() implies row_duration_ok(
                #[trigger] prefix.push(d)[i],
            ) by {
                if i < prefix.len() {
                    assert(prefix.push(d)[i] == prefix[i]);
                }
            }
        }
    }
}

/// The load step of one invocation: derives every raw record and keeps
/// exactly the target month's rows, in input order. The result is computed
/// once and reused by every aggregation of the run.
pub fn load_period(raws: &Vec<RawTripRecord>, period: Date) -> (out: Vec<DerivedRow>)
    requires
        all_raw_valid(raws@),
    ensures
        out@ == spec_load_period(raws@, period),
        out@.len() <= raws@.len(),
        forall|i: int| 0 <= i < out@.len() ==> in_period(#[trigger] out@[i], period),
{
    proof {
        lemma_load_period_rows(raws@, period);
    }
    let mut out: Vec<DerivedRow> = Vec::new();
    let n = raws.len();
    let mut i: usize = 0;
    while i < n
        invariant
            i <= n,
            n == raws@.len(),
            all_raw_valid(raws@),
            out@ == spec_load_period(raws@.take(i as int), period),
            out@.len() <= i,
        decreases n - i,
    {
        assert(raws@.take(i + 1).drop_last() =~= raws@.take(i as int));
        assert(raws@.take(i + 1).last() == raws@[i as int]);
        let d = derive_row(&raws[i]);
        if in_same_month(&d.month_start, &period) {
            proof {
                assert(spec_month_start(spec_month_start(period)) == spec_month_start(period));
            }
            out.push(d);
        }
        i += 1;
    }
    assert(raws@.take(n as int) =~= raws@);
    out
}

} // verus!
