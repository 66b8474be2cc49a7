//! The orchestrator: for one target period, derive and filter the raw
//! records once, aggregate the cached rows at each grain, and merge every
//! aggregation result into its persisted table. The laws the whole run
//! obeys — idempotent re-processing, key uniqueness, count conservation —
//! are stated and proved here over the same model the orchestrators'
//! contracts use.
use vstd::prelude::*;

use crate::agg::{matching, max_agg_rows};
use crate::detail::{
    detail_key_fn, lemma_trip_detail_agg_unique, spec_trip_detail_agg, TripDetailKey, TripDetailRow,
};
use crate::location::{
    dropoff_count, lemma_location_stats_agg_unique, pickup_count, pickup_key_fn,
    spec_location_stats_agg, LocationKey, LocationStatsRow,
};
use crate::merge::{
    lemma_merge_idempotent, lemma_rows_map_index, lemma_rows_map_props, lemma_spec_merge_map,
    lemma_spec_merge_unique, merge_rows, rows_map, spec_merge, unique_keys, Keyed,
};
use crate::monthly::{
    lemma_trip_stats_agg_unique, month_key_fn, spec_trip_stats_agg, MonthKey, TripStatsRow,
};
use crate::row::{
    all_raw_valid, lemma_load_period_duration_ok, lemma_load_period_len, load_period,
    spec_load_period, RawTripRecord,
};
use crate::summary::{
    day_key_fn, lemma_trip_summary_agg_unique, spec_trip_summary_agg, DayKey, TripSummaryRow,
};
use crate::time::Date;

verus! {

/// The monthly table after one run: the period's rows are loaded once,
/// aggregated, and merged over the previous contents.
pub open spec fn spec_run_trip_stats(
    table: Seq<TripStatsRow>,
    raws: Seq<RawTripRecord>,
    period: Date,
) -> Seq<TripStatsRow> {
    spec_merge(table, spec_trip_stats_agg(spec_load_period(raws, period)))
}

/// The location table after one run.
pub open spec fn spec_run_location_stats(
    table: Seq<LocationStatsRow>,
    raws: Seq<RawTripRecord>,
    period: Date,
) -> Seq<LocationStatsRow> {
    spec_merge(table, spec_location_stats_agg(spec_load_period(raws, period)))
}

/// The trip-detail table after one run.
pub open spec fn spec_run_trip_detail(
    table: Seq<TripDetailRow>,
    raws: Seq<RawTripRecord>,
    period: Date,
) -> Seq<TripDetailRow> {
    spec_merge(table, spec_trip_detail_agg(spec_load_period(raws, period)))
}

/// The day-grain table after one run.
pub open spec fn spec_run_trip_summary(
    table: Seq<TripSummaryRow>,
    raws: Seq<RawTripRecord>,
    period: Date,
) -> Seq<TripSummaryRow> {
    spec_merge(table, spec_trip_summary_agg(spec_load_period(raws, period)))
}

/// One monthly-grain run: loads and derives the target month's rows once,
/// aggregates the cached set at the monthly and the location grain, and
/// merges each result into its table. Nothing is ever deleted, and both
/// tables keep their keys unique.
pub fn process_month(
    raws: &Vec<RawTripRecord>,
    period: Date,
    trip_stats: &mut Vec<TripStatsRow>,
    location_stats: &mut Vec<LocationStatsRow>,
)
    requires
        all_raw_valid(raws@),
        raws@.len() <= max_agg_rows(),
        unique_keys(old(trip_stats)@),
        unique_keys(old(location_stats)@),
    ensures
        final(trip_stats)@ == spec_run_trip_stats(old(trip_stats)@, raws@, period),
        final(location_stats)@ == spec_run_location_stats(old(location_stats)@, raws@, period),
        unique_keys(final(trip_stats)@),
        unique_keys(final(location_stats)@),
{
    proof {
        lemma_load_period_len(raws@, period);
        lemma_load_period_duration_ok(raws@, period);
    }
    let rows = load_period(raws, period);
    let stats = crate::monthly::aggregate_trip_stats(&rows);
    merge_rows(trip_stats, &stats);
    let locations = crate::location::aggregate_location_stats(&rows);
    merge_rows(location_stats, &locations);
}

/// One day-grain run: loads and derives the target month's rows once,
/// aggregates the cached set at the trip-detail and the day grain, and
/// merges each result into its table.
pub fn process_month_details(
    raws: &Vec<RawTripRecord>,
    period: Date,
    trip_detail: &mut Vec<TripDetailRow>,
    trip_summary: &mut Vec<TripSummaryRow>,
)
    requires
        all_raw_valid(raws@),
        raws@.len() <= max_agg_rows(),
        unique_keys(old(trip_detail)@),
        unique_keys(old(trip_summary)@),
    ensures
        final(trip_detail)@ == spec_run_trip_detail(old(trip_detail)@, raws@, period),
        final(trip_summary)@ == spec_run_trip_summary(old(trip_summary)@, raws@, period),
        unique_keys(final(trip_detail)@),
        unique_keys(final(trip_summary)@),
{
    proof {
        lemma_load_period_len(raws@, period);
        lemma_load_period_duration_ok(raws@, period);
    }
    let rows = load_period(raws, period);
    let details = crate::detail::aggregate_trip_detail(&rows);
    merge_rows(trip_detail, &details);
    let summaries = crate::summary::aggregate_trip_summary(&rows);
    merge_rows(trip_summary, &summaries);
}

/// Idempotence at the monthly grain: for a fixed raw-record set and
/// target period, running the load, aggregate and merge a second time
/// leaves the persisted table exactly as one run left it.
pub proof fn lemma_run_trip_stats_idempotent(
    table: Seq<TripStatsRow>,
    raws: Seq<RawTripRecord>,
    period: Date,
)
    requires
        unique_keys(table),
    ensures
        spec_run_trip_stats(spec_run_trip_stats(table, raws, period), raws, period)
            == spec_run_trip_stats(table, raws, period),
{
    lemma_trip_stats_agg_unique(spec_load_period(raws, period));
    lemma_merge_idempotent(table, spec_trip_stats_agg(spec_load_period(raws, period)));
}

/// Idempotence at the location grain.
pub proof fn lemma_run_location_stats_idempotent(
    table: Seq<LocationStatsRow>,
    raws: Seq<RawTripRecord>,
    period: Date,
)
    requires
        unique_keys(table),
    ensures
        spec_run_location_stats(spec_run_location_stats(table, raws, period), raws, period)
            == spec_run_location_stats(table, raws, period),
{
    lemma_location_stats_agg_unique(spec_load_period(raws, period));
    lemma_merge_idempotent(table, spec_location_stats_agg(spec_load_period(raws, period)));
}

/// Idempotence at the trip-detail grain.
pub proof fn lemma_run_trip_detail_idempotent(
    table: Seq<TripDetailRow>,
    raws: Seq<RawTripRecord>,
    period: Date,
)
    requires
        unique_keys(table),
    ensures
        spec_run_trip_detail(spec_run_trip_detail(table, raws, period), raws, period)
            == spec_run_trip_detail(table, raws, period),
{
    lemma_trip_detail_agg_unique(spec_load_period(raws, period));
    lemma_merge_idempotent(table, spec_trip_detail_agg(spec_load_period(raws, period)));
}

/// Idempotence at the day grain.
pub proof fn lemma_run_trip_summary_idempotent(
    table: Seq<TripSummaryRow>,
    raws: Seq<RawTripRecord>,
    period: Date,
)
    requires
        unique_keys(table),
    ensures
        spec_run_trip_summary(spec_run_trip_summary(table, raws, period), raws, period)
            == spec_run_trip_summary(table, raws, period),
{
    lemma_trip_summary_agg_unique(spec_load_period(raws, period));
    lemma_merge_idempotent(table, spec_trip_summary_agg(spec_load_period(raws, period)));
}

/// Count conservation at the monthly grain: after a run, the persisted
/// count under any key of the current period equals the number of
/// filtered derived rows matching that key.
pub proof fn lemma_conservation_trip_stats(
    table: Seq<TripStatsRow>,
    raws: Seq<RawTripRecord>,
    period: Date,
    k: MonthKey,
)
    requires
        unique_keys(table),
        raws.len() <= max_agg_rows(),
        matching(spec_load_period(raws, period), month_key_fn(), k).len() > 0,
    ensures
        rows_map(spec_run_trip_stats(table, raws, period)).dom().contains(k),
        rows_map(spec_run_trip_stats(table, raws, period))[k].trip_count == matching(
            spec_load_period(raws, period),
            month_key_fn(),
            k,
        ).len(),
{
    let loaded = spec_load_period(raws, period);
    let a = spec_trip_stats_agg(loaded);
    let ks = crate::agg::keys_in_order(loaded, month_key_fn());
    lemma_load_period_len(raws, period);
    crate::agg::lemma_matching_len(loaded, month_key_fn(), k);
    lemma_trip_stats_agg_unique(loaded);
    lemma_spec_merge_map(table, a);
    assert(ks.contains(k)) by {
        if !ks.contains(k) {
            crate::agg::lemma_matching_unseen_empty(loaded, month_key_fn(), k);
        }
    }
    let i = choose|i: int| 0 <= i < ks.len() && ks[i] == k;
    assert(a[i].skey() == k);
    lemma_rows_map_props(a);
    lemma_rows_map_index(a, i);
    assert(rows_map(a)[k] == a[i]);
}

/// Count conservation at the location grain: after a run, each joined
/// key's pickup and dropoff counts equal the numbers of filtered rows
/// picked up at and dropped off at that location in that month.
pub proof fn lemma_conservation_location_stats(
    table: Seq<LocationStatsRow>,
    raws: Seq<RawTripRecord>,
    period: Date,
    k: LocationKey,
)
    requires
        unique_keys(table),
        raws.len() <= max_agg_rows(),
        pickup_count(spec_load_period(raws, period), k) > 0,
        dropoff_count(spec_load_period(raws, period), k) > 0,
    ensures
        rows_map(spec_run_location_stats(table, raws, period)).dom().contains(k),
        rows_map(spec_run_location_stats(table, raws, period))[k].num_pickups == pickup_count(
            spec_load_period(raws, period),
            k,
        ),
        rows_map(spec_run_location_stats(table, raws, period))[k].num_dropoffs == dropoff_count(
            spec_load_period(raws, period),
            k,
        ),
{
    let loaded = spec_load_period(raws, period);
    let a = spec_location_stats_agg(loaded);
    let ks = crate::agg::keys_in_order(loaded, pickup_key_fn());
    let jk = crate::location::join_keys(ks, loaded);
    lemma_load_period_len(raws, period);
    crate::agg::lemma_matching_len(loaded, pickup_key_fn(), k);
    crate::agg::lemma_matching_len(loaded, crate::location::dropoff_key_fn(), k);
    lemma_location_stats_agg_unique(loaded);
    lemma_spec_merge_map(table, a);
    assert(ks.contains(k)) by {
        if !ks.contains(k) {
            crate::agg::lemma_matching_unseen_empty(loaded, pickup_key_fn(), k);
        }
    }
    let i = choose|i: int| 0 <= i < ks.len() && ks[i] == k;
    crate::location::lemma_join_keys_member(ks, loaded, i);
    let j = choose|j: int| 0 <= j < jk.len() && jk[j] == k;
    assert(a[j].skey() == k);
    lemma_rows_map_props(a);
    lemma_rows_map_index(a, j);
    assert(rows_map(a)[k] == a[j]);
}

/// Count conservation at the trip-detail grain.
pub proof fn lemma_conservation_trip_detail(
    table: Seq<TripDetailRow>,
    raws: Seq<RawTripRecord>,
    period: Date,
    k: TripDetailKey,
)
    requires
        unique_keys(table),
        raws.len() <= max_agg_rows(),
        matching(spec_load_period(raws, period), detail_key_fn(), k).len() > 0,
    ensures
        rows_map(spec_run_trip_detail(table, raws, period)).dom().contains(k),
        rows_map(spec_run_trip_detail(table, raws, period))[k].trip_count == matching(
            spec_load_period(raws, period),
            detail_key_fn(),
            k,
        ).len(),
{
    let loaded = spec_load_period(raws, period);
    let a = spec_trip_detail_agg(loaded);
    let ks = crate::agg::keys_in_order(loaded, detail_key_fn());
    lemma_load_period_len(raws, period);
    crate::agg::lemma_matching_len(loaded, detail_key_fn(), k);
    lemma_trip_detail_agg_unique(loaded);
    lemma_spec_merge_map(table, a);
    assert(ks.contains(k)) by {
        if !ks.contains(k) {
            crate::agg::lemma_matching_unseen_empty(loaded, detail_key_fn(), k);
        }
    }
    let i = choose|i: int| 0 <= i < ks.len() && ks[i] == k;
    assert(a[i].skey() == k);
    lemma_rows_map_props(a);
    lemma_rows_map_index(a, i);
    assert(rows_map(a)[k] == a[i]);
}

/// Count conservation at the day grain.
pub proof fn lemma_conservation_trip_summary(
    table: Seq<TripSummaryRow>,
    raws: Seq<RawTripRecord>,
    period: Date,
    k: DayKey,
)
    requires
        unique_keys(table),
        raws.len() <= max_agg_rows(),
        matching(spec_load_period(raws, period), day_key_fn(), k).len() > 0,
    ensures
        rows_map(spec_run_trip_summary(table, raws, period)).dom().contains(k),
        rows_map(spec_run_trip_summary(table, raws, period))[k].trip_count == matching(
            spec_load_period(raws, period),
            day_key_fn(),
            k,
        ).len(),
{
    let loaded = spec_load_period(raws, period);
    let a = spec_trip_summary_agg(loaded);
    let ks = crate::agg::keys_in_order(loaded, day_key_fn());
    lemma_load_period_len(raws, period);
    crate::agg::lemma_matching_len(loaded, day_key_fn(), k);
    lemma_trip_summary_agg_unique(loaded);
    lemma_spec_merge_map(table, a);
    assert(ks.contains(k)) by {
        if !ks.contains(k) {
            crate::agg::lemma_matching_unseen_empty(loaded, day_key_fn(), k);
        }
    }
    let i = choose|i: int| 0 <= i < ks.len() && ks[i] == k;
    assert(a[i].skey() == k);
    lemma_rows_map_props(a);
    lemma_rows_map_index(a, i);
    assert(rows_map(a)[k] == a[i]);
}

/// A run never loses a key: every key present before a merge is present
/// after it, at every grain.
pub proof fn lemma_run_trip_stats_keeps_keys(
    table: Seq<TripStatsRow>,
    raws: Seq<RawTripRecord>,
    period: Date,
)
    requires
        unique_keys(table),
    ensures
        unique_keys(spec_run_trip_stats(table, raws, period)),
        forall|k: MonthKey| #[trigger]
            rows_map(table).dom().contains(k) ==> rows_map(
                spec_run_trip_stats(table, raws, period),
            ).dom().contains(k),
{
    let a = spec_trip_stats_agg(spec_load_period(raws, period));
    lemma_trip_stats_agg_unique(spec_load_period(raws, period));
    lemma_spec_merge_unique(table, a);
    lemma_spec_merge_map(table, a);
}

/// Key preservation and uniqueness at the location grain.
pub proof fn lemma_run_location_stats_keeps_keys(
    table: Seq<LocationStatsRow>,
    raws: Seq<RawTripRecord>,
    period: Date,
)
    requires
        unique_keys(table),
    ensures
        unique_keys(spec_run_location_stats(table, raws, period)),
        forall|k: LocationKey| #[trigger]
            rows_map(table).dom().contains(k) ==> rows_map(
                spec_run_location_stats(table, raws, period),
            ).dom().contains(k),
{
    let a = spec_location_stats_agg(spec_load_period(raws, period));
    lemma_location_stats_agg_unique(spec_load_period(raws, period));
    lemma_spec_merge_unique(table, a);
    lemma_spec_merge_map(table, a);
}

/// Key preservation and uniqueness at the trip-detail grain.
pub proof fn lemma_run_trip_detail_keeps_keys(
    table: Seq<TripDetailRow>,
    raws: Seq<RawTripRecord>,
    period: Date,
)
    requires
        unique_keys(table),
    ensures
        unique_keys(spec_run_trip_detail(table, raws, period)),
        forall|k: TripDetailKey| #[trigger]
            rows_map(table).dom().contains(k) ==> rows_map(
                spec_run_trip_detail(table, raws, period),
            ).dom().contains(k),
{
    let a = spec_trip_detail_agg(spec_load_period(raws, period));
    lemma_trip_detail_agg_unique(spec_load_period(raws, period));
    lemma_spec_merge_unique(table, a);
    lemma_spec_merge_map(table, a);
}

/// Key preservation and uniqueness at the day grain.
pub proof fn lemma_run_trip_summary_keeps_keys(
    table: Seq<TripSummaryRow>,
    raws: Seq<RawTripRecord>,
    period: Date,
)
    requires
        unique_keys(table),
    ensures
        unique_keys(spec_run_trip_summary(table, raws, period)),
        forall|k: DayKey| #[trigger]
            rows_map(table).dom().contains(k) ==> rows_map(
                spec_run_trip_summary(table, raws, period),
            ).dom().contains(k),
{
    let a = spec_trip_summary_agg(spec_load_period(raws, period));
    lemma_trip_summary_agg_unique(spec_load_period(raws, period));
    lemma_spec_merge_unique(table, a);
    lemma_spec_merge_map(table, a);
}

} // verus!
