//! The schema registry: the single source of truth for each output
//! table's ordered columns. A table store consults it on creation; the
//! aggregation engine's row types mirror it. Schema evolution is out of
//! scope: each schema is fixed.
use vstd::prelude::*;

verus! {

/// The semantic type of one persisted column. `Fixed` is a fractional
/// quantity held in fixed point with two decimal places.
#[derive(Clone, Copy, PartialEq, Eq, Structural, Debug)]
pub enum ColumnType {
    Text,
    Day,
    Integer,
    Fixed,
}

/// One column of a persisted table: name, semantic type, nullability.
#[derive(Clone, Copy, Debug)]
pub struct Column {
    pub name: &'static str,
    pub column_type: ColumnType,
    pub nullable: bool,
}

/// A schema as the contracts see it: the ordered column descriptions.
pub open spec fn schema_view(cols: Seq<Column>) -> Seq<(Seq<char>, ColumnType, bool)> {
    cols.map_values(|c: Column| (c.name@, c.column_type, c.nullable))
}

/// The monthly trip-stats table: partitioned by `year`, keyed by
/// {year, month_start}, one averaged measure column per metric.
pub open spec fn spec_trip_stats_schema() -> Seq<(Seq<char>, ColumnType, bool)> {
    seq![
        ("year"@, ColumnType::Text, false),
        ("month_start"@, ColumnType::Day, false),
        ("trip_count"@, ColumnType::Integer, false),
        ("avg_passengers"@, ColumnType::Fixed, false),
        ("avg_trip_distance_miles"@, ColumnType::Fixed, false),
        ("avg_trip_duration_minutes"@, ColumnType::Fixed, false),
        ("avg_amount"@, ColumnType::Fixed, false),
        ("avg_tip"@, ColumnType::Fixed, false),
    ]
}

pub fn trip_stats_table_schema() -> (r: Vec<Column>)
    ensures
        schema_view(r@) == spec_trip_stats_schema(),
{
    let mut cols: Vec<Column> = Vec::new();
    cols.push(Column { name: "year", column_type: ColumnType::Text, nullable: false });
    cols.push(Column { name: "month_start", column_type: ColumnType::Day, nullable: false });
    cols.push(Column { name: "trip_count", column_type: ColumnType::Integer, nullable: false });
    cols.push(Column { name: "avg_passengers", column_type: ColumnType::Fixed, nullable: false });
    cols.push(
        Column { name: "avg_trip_distance_miles", column_type: ColumnType::Fixed, nullable: false },
    );
    cols.push(
        Column {
            name: "avg_trip_duration_minutes",
            column_type: ColumnType::Fixed,
            nullable: false,
        },
    );
    cols.push(Column { name: "avg_amount", column_type: ColumnType::Fixed, nullable: false });
    cols.push(Column { name: "avg_tip", column_type: ColumnType::Fixed, nullable: false });
    proof {
        assert(schema_view(cols@) =~= spec_trip_stats_schema());
    }
    cols
}

/// The location-stats table: partitioned by `year`, keyed by
/// {year, month_start, location_id}.
pub open spec fn spec_location_stats_schema() -> Seq<(Seq<char>, ColumnType, bool)> {
    seq![
        ("year"@, ColumnType::Text, false),
        ("month_start"@, ColumnType::Day, false),
        ("location_id"@, ColumnType::Integer, false),
        ("num_pickups"@, ColumnType::Integer, false),
        ("num_dropoffs"@, ColumnType::Integer, false),
    ]
}

pub fn location_stats_table_schema() -> (r: Vec<Column>)
    ensures
        schema_view(r@) == spec_location_stats_schema(),
{
    let mut cols: Vec<Column> = Vec::new();
    cols.push(Column { name: "year", column_type: ColumnType::Text, nullable: false });
    cols.push(Column { name: "month_start", column_type: ColumnType::Day, nullable: false });
    cols.push(Column { name: "location_id", column_type: ColumnType::Integer, nullable: false });
    cols.push(Column { name: "num_pickups", column_type: ColumnType::Integer, nullable: false });
    cols.push(Column { name: "num_dropoffs", column_type: ColumnType::Integer, nullable: false });
    proof {
        assert(schema_view(cols@) =~= spec_location_stats_schema());
    }
    cols
}

/// The trip-detail table: keyed by {year, date, time_of_day, pickup
/// location, dropoff location}.
pub open spec fn spec_trip_detail_schema() -> Seq<(Seq<char>, ColumnType, bool)> {
    seq![
        ("year"@, ColumnType::Text, false),
        ("date"@, ColumnType::Day, false),
        ("time_of_day"@, ColumnType::Text, false),
        ("pickup_location_id"@, ColumnType::Integer, false),
        ("dropoff_location_id"@, ColumnType::Integer, false),
        ("trip_count"@, ColumnType::Integer, false),
        ("sum_passengers"@, ColumnType::Integer, false),
        ("avg_trip_duration_minutes"@, ColumnType::Fixed, false),
        ("avg_amount"@, ColumnType::Fixed, false),
        ("min_amount"@, ColumnType::Fixed, false),
        ("max_amount"@, ColumnType::Fixed, false),
        ("avg_tip"@, ColumnType::Fixed, false),
        ("min_tip"@, ColumnType::Fixed, false),
        ("max_tip"@, ColumnType::Fixed, false),
    ]
}

pub fn trip_detail_table_schema() -> (r: Vec<Column>)
    ensures
        schema_view(r@) == spec_trip_detail_schema(),
{
    let mut cols: Vec<Column> = Vec::new();
    cols.push(Column { name: "year", column_type: ColumnType::Text, nullable: false });
    cols.push(Column { name: "date", column_type: ColumnType::Day, nullable: false });
    cols.push(Column { name: "time_of_day", column_type: ColumnType::Text, nullable: false });
    cols.push(
        Column { name: "pickup_location_id", column_type: ColumnType::Integer, nullable: false },
    );
    cols.push(
        Column { name: "dropoff_location_id", column_type: ColumnType::Integer, nullable: false },
    );
    cols.push(Column { name: "trip_count", column_type: ColumnType::Integer, nullable: false });
    cols.push(Column { name: "sum_passengers", column_type: ColumnType::Integer, nullable: false });
    cols.push(
        Column {
            name: "avg_trip_duration_minutes",
            column_type: ColumnType::Fixed,
            nullable: false,
        },
    );
    cols.push(Column { name: "avg_amount", column_type: ColumnType::Fixed, nullable: false });
    cols.push(Column { name: "min_amount", column_type: ColumnType::Fixed, nullable: false });
    cols.push(Column { name: "max_amount", column_type: ColumnType::Fixed, nullable: false });
    cols.push(Column { name: "avg_tip", column_type: ColumnType::Fixed, nullable: false });
    cols.push(Column { name: "min_tip", column_type: ColumnType::Fixed, nullable: false });
    cols.push(Column { name: "max_tip", column_type: ColumnType::Fixed, nullable: false });
    proof {
        assert(schema_view(cols@) =~= spec_trip_detail_schema());
    }
    cols
}

/// The day-grain trip-summary table: keyed by {year, date}.
pub open spec fn spec_trip_summary_schema() -> Seq<(Seq<char>, ColumnType, bool)> {
    seq![
        ("year"@, ColumnType::Text, false),
        ("date"@, ColumnType::Day, false),
        ("trip_count"@, ColumnType::Integer, false),
        ("sum_passengers"@, ColumnType::Integer, false),
        ("avg_amount"@, ColumnType::Fixed, false),
        ("median_amount"@, ColumnType::Fixed, false),
        ("avg_tip"@, ColumnType::Fixed, false),
        ("median_tip"@, ColumnType::Fixed, false),
    ]
}

pub fn trip_summary_table_schema() -> (r: Vec<Column>)
    ensures
        schema_view(r@) == spec_trip_summary_schema(),
{
    let mut cols: Vec<Column> = Vec::new();
    cols.push(Column { name: "year", column_type: ColumnType::Text, nullable: false });
    cols.push(Column { name: "date", column_type: ColumnType::Day, nullable: false });
    cols.push(Column { name: "trip_count", column_type: ColumnType::Integer, nullable: false });
    cols.push(Column { name: "sum_passengers", column_type: ColumnType::Integer, nullable: false });
    cols.push(Column { name: "avg_amount", column_type: ColumnType::Fixed, nullable: false });
    cols.push(Column { name: "median_amount", column_type: ColumnType::Fixed, nullable: false });
    cols.push(Column { name: "avg_tip", column_type: ColumnType::Fixed, nullable: false });
    cols.push(Column { name: "median_tip", column_type: ColumnType::Fixed, nullable: false });
    proof {
        assert(schema_view(cols@) =~= spec_trip_summary_schema());
    }
    cols
}

/// The single partition column every persisted table uses.
pub fn partition_column() -> (r: &'static str)
    ensures
        r@ == "year"@,
{
    "year"
}

} // verus!
