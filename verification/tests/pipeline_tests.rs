use serverless_pipelines_in_rust::pipeline::{process_month, process_month_details};
use serverless_pipelines_in_rust::row::RawTripRecord;
use serverless_pipelines_in_rust::schema::{
    location_stats_table_schema, partition_column, trip_detail_table_schema,
    trip_stats_table_schema, trip_summary_table_schema, ColumnType,
};
use serverless_pipelines_in_rust::store::{
    open_or_create_action, TableAction, TableOpenOutcome,
};
use serverless_pipelines_in_rust::time::{Date, Timestamp};
use serverless_pipelines_in_rust::PipelineError;

fn trip(
    day: u8,
    hour: u8,
    pickup_loc: u32,
    dropoff_loc: u32,
    passengers: Option<u32>,
    fare: u32,
    tip: u32,
) -> RawTripRecord {
    let pickup = Timestamp { date: Date { year: 2024, month: 3, day }, hour, minute: 0, second: 0 };
    let dropoff = Timestamp {
        date: Date { year: 2024, month: 3, day },
        hour,
        minute: 15,
        second: 0,
    };
    RawTripRecord {
        pickup,
        dropoff,
        pickup_location_id: pickup_loc,
        dropoff_location_id: dropoff_loc,
        trip_distance: 100,
        passenger_count: passengers,
        total_amount: fare,
        tip_amount: tip,
    }
}

const MARCH: Date = Date { year: 2024, month: 3, day: 1 };

/// The three synthetic March 2024 records: two trips 10 to 20 on the
/// fifth with fares 20.00 and 30.00 and tips 2.00 and 5.00, one trip 10
/// to 20 on the sixth with fare 15.00 and tip 1.00.
fn three_records() -> Vec<RawTripRecord> {
    vec![
        trip(5, 8, 10, 20, Some(1), 2000, 200),
        trip(5, 10, 10, 20, Some(2), 3000, 500),
        trip(6, 9, 10, 20, Some(1), 1500, 100),
    ]
}

#[test]
fn end_to_end_scenario() {
    let mut detail = Vec::new();
    let mut summary = Vec::new();
    process_month_details(&three_records(), MARCH, &mut detail, &mut summary);

    assert_eq!(detail.len(), 2);
    let day5 = detail
        .iter()
        .find(|r| r.date == Date { year: 2024, month: 3, day: 5 })
        .expect("group for 2024-03-05");
    assert_eq!(day5.trip_count, 2);
    assert_eq!(day5.avg_amount, 2500);
    assert_eq!(day5.min_amount, 2000);
    assert_eq!(day5.max_amount, 3000);
    assert_eq!(day5.avg_tip, 350);
    let day6 = detail
        .iter()
        .find(|r| r.date == Date { year: 2024, month: 3, day: 6 })
        .expect("group for 2024-03-06");
    assert_eq!(day6.trip_count, 1);
    assert_eq!(day6.avg_amount, 1500);

    // A second run over the same period with one more 2024-03-05 trip,
    // fare 10.00 and tip 0.50, updates that row and leaves the sixth
    // untouched.
    let mut raws = three_records();
    raws.push(trip(5, 9, 10, 20, Some(1), 1000, 50));
    process_month_details(&raws, MARCH, &mut detail, &mut summary);

    assert_eq!(detail.len(), 2);
    let day5 = detail
        .iter()
        .find(|r| r.date == Date { year: 2024, month: 3, day: 5 })
        .expect("group for 2024-03-05");
    assert_eq!(day5.trip_count, 3);
    assert_eq!(day5.avg_amount, 2000);
    assert_eq!(day5.min_amount, 1000);
    assert_eq!(day5.max_amount, 3000);
    let day6 = detail
        .iter()
        .find(|r| r.date == Date { year: 2024, month: 3, day: 6 })
        .expect("group for 2024-03-06");
    assert_eq!(day6.trip_count, 1);
    assert_eq!(day6.avg_amount, 1500);
}

#[test]
fn rerun_is_idempotent() {
    let raws = three_records();
    let mut stats_once = Vec::new();
    let mut locs_once = Vec::new();
    process_month(&raws, MARCH, &mut stats_once, &mut locs_once);

    let mut stats_twice = stats_once.clone();
    let mut locs_twice = locs_once.clone();
    process_month(&raws, MARCH, &mut stats_twice, &mut locs_twice);

    assert_eq!(stats_once, stats_twice);
    assert_eq!(locs_once, locs_twice);

    let mut detail_once = Vec::new();
    let mut summary_once = Vec::new();
    process_month_details(&raws, MARCH, &mut detail_once, &mut summary_once);
    let mut detail_twice = detail_once.clone();
    let mut summary_twice = summary_once.clone();
    process_month_details(&raws, MARCH, &mut detail_twice, &mut summary_twice);
    assert_eq!(detail_once, detail_twice);
    assert_eq!(summary_once, summary_twice);
}

#[test]
fn merge_leaves_other_periods_untouched() {
    // February's run first.
    let feb = Date { year: 2024, month: 2, day: 1 };
    let mut feb_raw = trip(10, 8, 10, 20, Some(1), 4000, 400);
    feb_raw.pickup.date.month = 2;
    feb_raw.dropoff.date.month = 2;
    let mut stats = Vec::new();
    let mut locs = Vec::new();
    process_month(&vec![feb_raw], feb, &mut stats, &mut locs);
    assert_eq!(stats.len(), 1);
    let feb_row = stats[0];

    // March's run inserts a new key and leaves February's row unchanged.
    process_month(&three_records(), MARCH, &mut stats, &mut locs);
    assert_eq!(stats.len(), 2);
    assert_eq!(stats[0], feb_row);
    assert_eq!(stats[1].month_start, MARCH);
    assert_eq!(stats[1].trip_count, 3);
}

#[test]
fn merge_replaces_matched_measures() {
    let mut stats = Vec::new();
    let mut locs = Vec::new();
    process_month(&three_records(), MARCH, &mut stats, &mut locs);
    assert_eq!(stats[0].trip_count, 3);

    // Re-processing the month from a smaller raw set overwrites every
    // measure of the matched key.
    let raws = vec![trip(5, 8, 10, 20, Some(4), 1000, 100)];
    process_month(&raws, MARCH, &mut stats, &mut locs);
    assert_eq!(stats.len(), 1);
    assert_eq!(stats[0].trip_count, 1);
    assert_eq!(stats[0].avg_amount, 1000);
    assert_eq!(stats[0].avg_passengers, 400);
}

#[test]
fn keys_stay_unique_across_merges() {
    let raws = three_records();
    let mut detail = Vec::new();
    let mut summary = Vec::new();
    for _ in 0..3 {
        process_month_details(&raws, MARCH, &mut detail, &mut summary);
    }
    for i in 0..detail.len() {
        for j in 0..detail.len() {
            if i != j {
                let a = &detail[i];
                let b = &detail[j];
                assert!(
                    (a.year, a.date, a.time_of_day, a.pickup_location_id, a.dropoff_location_id)
                        != (b.year, b.date, b.time_of_day, b.pickup_location_id,
                            b.dropoff_location_id)
                );
            }
        }
    }
    assert_eq!(summary.len(), 2);
    assert_ne!(summary[0].date, summary[1].date);
}

#[test]
fn counts_match_filtered_rows() {
    // Conservation: each key's count equals the number of matching
    // filtered rows, and rows of other months do not contribute.
    let mut raws = three_records();
    let mut apr = trip(5, 8, 10, 20, Some(1), 7000, 0);
    apr.pickup.date.month = 4;
    apr.dropoff.date.month = 4;
    raws.push(apr);
    let mut detail = Vec::new();
    let mut summary = Vec::new();
    process_month_details(&raws, MARCH, &mut detail, &mut summary);
    let total: u64 = summary.iter().map(|r| r.trip_count).sum();
    assert_eq!(total, 3);
    let day5 = summary
        .iter()
        .find(|r| r.date == Date { year: 2024, month: 3, day: 5 })
        .expect("day five");
    assert_eq!(day5.trip_count, 2);
}

#[test]
fn schema_registry_contents() {
    let ts = trip_stats_table_schema();
    let names: Vec<&str> = ts.iter().map(|c| c.name).collect();
    assert_eq!(
        names,
        vec![
            "year",
            "month_start",
            "trip_count",
            "avg_passengers",
            "avg_trip_distance_miles",
            "avg_trip_duration_minutes",
            "avg_amount",
            "avg_tip"
        ]
    );
    assert_eq!(ts[0].column_type, ColumnType::Text);
    assert_eq!(ts[1].column_type, ColumnType::Day);
    assert_eq!(ts[2].column_type, ColumnType::Integer);
    assert!(ts.iter().all(|c| !c.nullable));

    let ls = location_stats_table_schema();
    let names: Vec<&str> = ls.iter().map(|c| c.name).collect();
    assert_eq!(
        names,
        vec!["year", "month_start", "location_id", "num_pickups", "num_dropoffs"]
    );
    assert!(ls.iter().all(|c| !c.nullable));

    assert_eq!(trip_detail_table_schema().len(), 14);
    assert_eq!(trip_summary_table_schema().len(), 8);
    assert_eq!(partition_column(), "year");
}

#[test]
fn open_or_create_policy() {
    assert_eq!(
        open_or_create_action(&TableOpenOutcome::Opened),
        Ok(TableAction::UseExisting)
    );
    assert_eq!(
        open_or_create_action(&TableOpenOutcome::MissingTable),
        Ok(TableAction::CreateThenUse)
    );
    assert_eq!(
        open_or_create_action(&TableOpenOutcome::OpenFault),
        Err(PipelineError::TableAccess)
    );
}
