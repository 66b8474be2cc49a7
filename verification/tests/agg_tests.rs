use serverless_pipelines_in_rust::detail::aggregate_trip_detail;
use serverless_pipelines_in_rust::location::aggregate_location_stats;
use serverless_pipelines_in_rust::monthly::aggregate_trip_stats;
use serverless_pipelines_in_rust::row::{load_period, RawTripRecord};
use serverless_pipelines_in_rust::summary::aggregate_trip_summary;
use serverless_pipelines_in_rust::time::{Date, TimeOfDay, Timestamp};

fn trip(
    day: u8,
    hour: u8,
    pickup_loc: u32,
    dropoff_loc: u32,
    minutes: u8,
    passengers: Option<u32>,
    distance: u32,
    fare: u32,
    tip: u32,
) -> RawTripRecord {
    let pickup = Timestamp { date: Date { year: 2024, month: 3, day }, hour, minute: 0, second: 0 };
    let dropoff = Timestamp {
        date: Date { year: 2024, month: 3, day },
        hour,
        minute: minutes,
        second: 0,
    };
    RawTripRecord {
        pickup,
        dropoff,
        pickup_location_id: pickup_loc,
        dropoff_location_id: dropoff_loc,
        trip_distance: distance,
        passenger_count: passengers,
        total_amount: fare,
        tip_amount: tip,
    }
}

const MARCH: Date = Date { year: 2024, month: 3, day: 1 };

#[test]
fn monthly_aggregation_exact_values() {
    let raws = vec![
        trip(5, 8, 10, 20, 10, Some(1), 150, 2000, 200),
        trip(5, 10, 10, 20, 20, Some(2), 250, 3000, 500),
        trip(6, 9, 10, 20, 30, None, 200, 1500, 100),
    ];
    let rows = load_period(&raws, MARCH);
    assert_eq!(rows.len(), 3);
    let stats = aggregate_trip_stats(&rows);
    assert_eq!(stats.len(), 1);
    let s = &stats[0];
    assert_eq!(s.year, 2024);
    assert_eq!(s.month_start, MARCH);
    assert_eq!(s.trip_count, 3);
    // (1 + 2 + 0) passengers over three trips, in hundredths.
    assert_eq!(s.avg_passengers, 100);
    assert_eq!(s.avg_trip_distance_miles, 200);
    // (10 + 20 + 30) minutes over three trips, in hundredths of a minute.
    assert_eq!(s.avg_trip_duration_minutes, 2000);
    // 6500 / 3 truncates.
    assert_eq!(s.avg_amount, 2166);
    assert_eq!(s.avg_tip, 266);
}

#[test]
fn monthly_aggregation_splits_months() {
    let mut raws = vec![trip(5, 8, 10, 20, 10, Some(1), 100, 2000, 0)];
    let mut other = trip(5, 8, 10, 20, 10, Some(1), 100, 9000, 0);
    other.pickup.date.month = 4;
    other.dropoff.date.month = 4;
    raws.push(other);
    let rows = load_period(&raws, MARCH);
    // The April record does not survive the March filter.
    assert_eq!(rows.len(), 1);
    let stats = aggregate_trip_stats(&rows);
    assert_eq!(stats.len(), 1);
    assert_eq!(stats[0].trip_count, 1);
    assert_eq!(stats[0].avg_amount, 2000);
}

#[test]
fn location_join_counts_both_directions() {
    let raws = vec![
        trip(5, 8, 10, 20, 10, None, 100, 1000, 0),
        trip(5, 9, 20, 10, 10, None, 100, 1000, 0),
        trip(6, 9, 10, 20, 10, None, 100, 1000, 0),
    ];
    let rows = load_period(&raws, MARCH);
    let locs = aggregate_location_stats(&rows);
    assert_eq!(locs.len(), 2);
    let l10 = locs.iter().find(|l| l.location_id == 10).expect("location 10");
    assert_eq!(l10.num_pickups, 2);
    assert_eq!(l10.num_dropoffs, 1);
    let l20 = locs.iter().find(|l| l.location_id == 20).expect("location 20");
    assert_eq!(l20.num_pickups, 1);
    assert_eq!(l20.num_dropoffs, 2);
}

#[test]
fn location_join_drops_one_sided_locations() {
    // Location 10 only ever picks up; location 20 only ever drops off.
    let raws = vec![
        trip(5, 8, 10, 20, 10, None, 100, 1000, 0),
        trip(6, 9, 10, 20, 10, None, 100, 1000, 0),
    ];
    let rows = load_period(&raws, MARCH);
    let locs = aggregate_location_stats(&rows);
    assert_eq!(locs.len(), 0);
}

#[test]
fn detail_aggregation_min_max() {
    let raws = vec![
        trip(5, 8, 10, 20, 10, Some(1), 100, 2000, 200),
        trip(5, 10, 10, 20, 10, Some(1), 100, 3000, 500),
    ];
    let rows = load_period(&raws, MARCH);
    let details = aggregate_trip_detail(&rows);
    // Hours 8 and 10 share the morning bucket, so one group.
    assert_eq!(details.len(), 1);
    let d = &details[0];
    assert_eq!(d.time_of_day, TimeOfDay::Morning);
    assert_eq!(d.trip_count, 2);
    assert_eq!(d.sum_passengers, 2);
    assert_eq!(d.avg_amount, 2500);
    assert_eq!(d.min_amount, 2000);
    assert_eq!(d.max_amount, 3000);
    assert_eq!(d.avg_tip, 350);
    assert_eq!(d.min_tip, 200);
    assert_eq!(d.max_tip, 500);
}

#[test]
fn detail_buckets_split_groups() {
    let raws = vec![
        trip(5, 8, 10, 20, 10, None, 100, 2000, 0),
        trip(5, 13, 10, 20, 10, None, 100, 3000, 0),
    ];
    let rows = load_period(&raws, MARCH);
    let details = aggregate_trip_detail(&rows);
    assert_eq!(details.len(), 2);
    assert_eq!(details[0].time_of_day, TimeOfDay::Morning);
    assert_eq!(details[1].time_of_day, TimeOfDay::Afternoon);
    assert_eq!(details[0].trip_count, 1);
    assert_eq!(details[1].trip_count, 1);
}

#[test]
fn summary_median_odd_count() {
    let raws = vec![
        trip(5, 8, 10, 20, 10, Some(1), 100, 2000, 100),
        trip(5, 9, 10, 20, 10, Some(1), 100, 9000, 300),
        trip(5, 10, 10, 20, 10, Some(1), 100, 1000, 200),
    ];
    let rows = load_period(&raws, MARCH);
    let summaries = aggregate_trip_summary(&rows);
    assert_eq!(summaries.len(), 1);
    let s = &summaries[0];
    assert_eq!(s.trip_count, 3);
    assert_eq!(s.sum_passengers, 3);
    assert_eq!(s.median_amount, 2000);
    assert_eq!(s.median_tip, 200);
    assert_eq!(s.avg_amount, 4000);
    assert_eq!(s.avg_tip, 200);
}

#[test]
fn summary_median_even_count_truncated_mean() {
    let raws = vec![
        trip(5, 8, 10, 20, 10, None, 100, 1000, 100),
        trip(5, 9, 10, 20, 10, None, 100, 4000, 200),
        trip(5, 10, 10, 20, 10, None, 100, 2000, 301),
        trip(5, 11, 10, 20, 10, None, 100, 9000, 400),
    ];
    let rows = load_period(&raws, MARCH);
    let summaries = aggregate_trip_summary(&rows);
    assert_eq!(summaries.len(), 1);
    let s = &summaries[0];
    // Sorted fares 1000, 2000, 4000, 9000: mean of the middle two.
    assert_eq!(s.median_amount, 3000);
    // Sorted tips 100, 200, 301, 400: (200 + 301) / 2 truncates.
    assert_eq!(s.median_tip, 250);
}

#[test]
fn empty_input_gives_empty_aggregates() {
    let raws: Vec<RawTripRecord> = Vec::new();
    let rows = load_period(&raws, MARCH);
    assert_eq!(rows.len(), 0);
    assert_eq!(aggregate_trip_stats(&rows).len(), 0);
    assert_eq!(aggregate_location_stats(&rows).len(), 0);
    assert_eq!(aggregate_trip_detail(&rows).len(), 0);
    assert_eq!(aggregate_trip_summary(&rows).len(), 0);
}

#[test]
fn negative_durations_average_toward_zero() {
    // A dropoff recorded before its pickup gives a negative duration;
    // the average truncates toward zero.
    let mut backwards = trip(5, 8, 10, 20, 0, None, 100, 1000, 0);
    backwards.pickup.minute = 25;
    let raws = vec![backwards, trip(5, 9, 10, 20, 10, None, 100, 1000, 0)];
    let rows = load_period(&raws, MARCH);
    let stats = aggregate_trip_stats(&rows);
    assert_eq!(stats.len(), 1);
    // Durations -25 and 10: sum -15 over two trips, in hundredths.
    assert_eq!(stats[0].avg_trip_duration_minutes, -750);
}

#[test]
fn absent_passenger_counts_sum_as_zero() {
    let raws = vec![
        trip(5, 8, 10, 20, 10, None, 100, 1000, 0),
        trip(5, 9, 10, 20, 10, Some(3), 100, 1000, 0),
    ];
    let rows = load_period(&raws, MARCH);
    let summaries = aggregate_trip_summary(&rows);
    assert_eq!(summaries[0].sum_passengers, 3);
    let stats = aggregate_trip_stats(&rows);
    // (0 + 3) passengers over two trips, in hundredths.
    assert_eq!(stats[0].avg_passengers, 150);
}
