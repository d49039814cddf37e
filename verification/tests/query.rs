use blitzortung_srv::area::{bounding_box, parse_wkt_polygon, Area};
use blitzortung_srv::executor::Param;
use blitzortung_srv::geom::{Envelope, Grid};
use blitzortung_srv::ieee::Real;
use blitzortung_srv::query::{
    global_grid_query, grid_query, histogram_query, named_to_positional,
    named_to_positional_with_casts, param_names_in_order, select_key_query, select_query,
    strikes_query, IdInterval, Query, TimeInterval,
};
use blitzortung_srv::wkb::{linear_ring, polygon};
use chrono::{TimeZone, Utc};

fn num(value: f64) -> Real {
    Real::from_bits(value.to_bits())
}

fn utc(y: i32, mo: u32, d: u32, h: u32, mi: u32, s: u32) -> i64 {
    Utc.with_ymd_and_hms(y, mo, d, h, mi, s).unwrap().timestamp_micros()
}

/// The area of a polygon in well-known text.
fn wkt_area(wkt: &str) -> Option<Area> {
    let texts = parse_wkt_polygon(wkt)?;
    let mut rings = Vec::new();
    for ring in &texts {
        let mut points = Vec::new();
        for (x, y) in ring {
            points.push((num(x.parse().ok()?), num(y.parse().ok()?)));
        }
        rings.push(points);
    }
    Area::from_polygon(&rings)
}

#[test]
fn named_to_positional_substitution() {
    let sql = "WHERE x >= %(a)s AND y < %(b)s";
    assert_eq!(named_to_positional(sql), "WHERE x >= $1 AND y < $2");
    assert_eq!(param_names_in_order(sql), vec!["a", "b"]);
}

#[test]
fn strikes_sql_matches_python() {
    let interval = TimeInterval::new(utc(2020, 1, 1, 0, 0, 0), utc(2020, 1, 1, 0, 5, 0));
    let q = strikes_query(&interval, Some(IdInterval { start: 100 }));
    let expected = "SELECT id, \"timestamp\", nanoseconds, \
         ST_X(ST_Transform(geog::geometry, %(srid)s)) AS x, \
         ST_Y(ST_Transform(geog::geometry, %(srid)s)) AS y, \
         altitude, amplitude, error2d, stationcount \
         FROM strikes WHERE \"timestamp\" >= %(start_time)s AND \"timestamp\" < %(end_time)s \
         AND id >= %(start_id)s ORDER BY id";
    assert_eq!(q.to_sql(), expected);
    assert_eq!(q.parameters().len(), 4); // srid, start_time, end_time, start_id
    // The PostgreSQL rendering adds explicit casts (see `Query::casts`).
    assert_eq!(
        q.to_postgres(),
        "SELECT id, \"timestamp\", nanoseconds, \
         ST_X(ST_Transform(geog::geometry, $1::integer)) AS x, \
         ST_Y(ST_Transform(geog::geometry, $1::integer)) AS y, \
         altitude, amplitude, error2d, stationcount \
         FROM strikes WHERE \"timestamp\" >= $2::timestamptz AND \"timestamp\" < $3::timestamptz \
         AND id >= $4::bigint ORDER BY id"
    );
}

/// Regression for the `0x00` / "invalid byte sequence for encoding UTF8"
/// failure: without an explicit `::integer`, PostgreSQL cannot choose between
/// `ST_Transform(geometry, integer)` and `ST_Transform(geometry, text)` and
/// defaults the placeholder to `text`; tokio-postgres then sends the integer
/// in binary form and the server rejects the NUL byte.  The default select
/// query must therefore carry the cast.
#[test]
fn to_postgres_adds_explicit_casts() {
    let interval = TimeInterval::new(utc(2020, 1, 1, 0, 0, 0), utc(2020, 1, 1, 0, 5, 0));
    let q = select_query(&interval, None, Some(1), 4326);
    let sql = q.to_postgres();
    assert!(sql.contains("ST_X(ST_Transform(geog::geometry, $1::integer))"));
    assert!(sql.contains("ST_Y(ST_Transform(geog::geometry, $1::integer))"));
    assert!(sql.contains("\"timestamp\" >= $2::timestamptz"));
    assert!(sql.contains("\"timestamp\" < $3::timestamptz"));
    assert!(sql.contains("region = $4::smallint"));
    // No bare (ambiguous, server-inferred) integer placeholder remains.
    assert!(!sql.contains("geog::geometry, $1)"));
}

/// A query without geometry still casts its integer/timestamp params.
#[test]
fn grid_query_to_postgres_casts_all_numeric_params() {
    let interval = TimeInterval::new(utc(2020, 1, 1, 0, 0, 0), utc(2020, 1, 1, 0, 5, 0));
    let grid = Grid::new(num(-25.0), num(56.0), num(27.0), num(71.0), num(0.14), num(0.08));
    let sql = grid_query(&grid, &interval, Some(1), 0).to_postgres();
    assert!(sql.contains("geog::geometry, $1::integer)"));
    assert!(!sql.contains("%(xmin)s"));
    assert!(sql.contains("$2::double precision")); // xmin
    assert!(sql.contains("$7::integer")); // envelope_srid
    assert!(sql.contains("region = $10::smallint"));
}

#[test]
fn grid_query_sql_matches_python() {
    let interval = TimeInterval::new(utc(2020, 1, 1, 0, 0, 0), utc(2020, 1, 1, 0, 5, 0));
    let grid = Grid::new(num(-25.0), num(56.8605750930044), num(27.0), num(71.94746107673467), num(0.14017221762500753), num(0.08865376938211966));
    let q = grid_query(&grid, &interval, Some(1), 0);
    let expected = "SELECT \
         TRUNC((ST_X(ST_Transform(geog::geometry, %(srid)s)) - %(xmin)s) / %(xdiv)s)::integer AS rx, \
         TRUNC((ST_Y(ST_Transform(geog::geometry, %(srid)s)) - %(ymin)s) / %(ydiv)s)::integer AS ry, \
         count(*) AS strike_count, max(\"timestamp\") as \"timestamp\" \
         FROM strikes WHERE \
         ST_GeomFromWKB(%(envelope)s, %(envelope_srid)s) && geog AND \
         \"timestamp\" >= %(start_time)s AND \"timestamp\" < %(end_time)s \
         AND region = %(region)s \
         GROUP BY rx, ry";
    assert_eq!(q.to_sql(), expected);
    // Param order follows SQL token order
    let params = q.parameters();
    assert_eq!(params.len(), 10);
    assert!(matches!(params[0], Param::Int(4326))); // srid
    assert!(matches!(params[1], Param::Float(_))); // xmin
    assert!(matches!(params[5], Param::Bytea(_))); // envelope
    assert!(matches!(params[6], Param::Int(4326))); // envelope_srid
    assert!(matches!(params[7], Param::Timestamp(_))); // start_time
    assert!(matches!(params[8], Param::Timestamp(_))); // end_time
    assert!(matches!(params[9], Param::Int(1))); // region
}

#[test]
fn grid_query_without_region_has_no_region_condition() {
    let interval = TimeInterval::new(utc(2020, 1, 1, 0, 0, 0), utc(2020, 1, 1, 0, 5, 0));
    let grid = Grid::new(num(-25.0), num(56.8605750930044), num(27.0), num(71.94746107673467), num(0.14017221762500753), num(0.08865376938211966));
    let q = grid_query(&grid, &interval, None, 0);
    assert!(!q.to_sql().contains("region"));
    assert_eq!(q.parameters().len(), 9);
}

#[test]
fn global_grid_query_sql_matches_python() {
    let interval = TimeInterval::new(utc(2020, 1, 1, 0, 0, 0), utc(2020, 1, 1, 0, 5, 0));
    let grid = Grid::new(num(-180.0), num(179.79137864480873), num(-90.0), num(89.79069969676917), num(0.3183994501281493), num(0.2356365657886883));
    let q = global_grid_query(&grid, &interval, 0);
    let expected = "SELECT \
         ROUND((ST_X(ST_Transform(geog::geometry, %(srid)s)) - %(xdiv)s * 0.5) / %(xdiv)s)::integer AS rx, \
         ROUND((ST_Y(ST_Transform(geog::geometry, %(srid)s)) - %(ydiv)s * 0.5) / %(ydiv)s)::integer AS ry, \
         count(*) AS strike_count, max(\"timestamp\") as \"timestamp\" \
         FROM strikes WHERE \
         \"timestamp\" >= %(start_time)s AND \"timestamp\" < %(end_time)s \
         GROUP BY rx, ry";
    assert_eq!(q.to_sql(), expected);
    // srid, xdiv, ydiv, start_time, end_time = 5 parameters
    let params = q.parameters();
    assert_eq!(params.len(), 5);
    assert!(matches!(params[0], Param::Int(4326)));
    assert!(matches!(params[1], Param::Float(_)));
}

#[test]
fn histogram_sql_matches_python() {
    let interval = TimeInterval::new(utc(2020, 1, 1, 0, 0, 0), utc(2020, 1, 1, 0, 5, 0));
    let q = histogram_query(&interval, 5, None, None);
    let expected = "SELECT -extract( epoch from %(end_time)s - \"timestamp\")::int/60/%(binsize)s as interval, count(*) \
         FROM strikes WHERE \"timestamp\" >= %(start_time)s AND \"timestamp\" < %(end_time)s \
         GROUP BY interval ORDER BY interval";
    assert_eq!(q.to_sql(), expected);
    // parameter order follows SQL token order: end_time, binsize,
    // start_time (end_time already seen)
    let params = q.parameters();
    assert_eq!(params.len(), 3);
    assert!(matches!(params[0], Param::Timestamp(_)));
    assert!(matches!(params[1], Param::Int(5)));
    assert!(matches!(params[2], Param::Timestamp(_)));
    assert_eq!(q.to_postgres(), "SELECT -extract( epoch from $1::timestamptz - \"timestamp\")::int/60/$2::integer as interval, count(*) FROM strikes WHERE \"timestamp\" >= $3::timestamptz AND \"timestamp\" < $1::timestamptz GROUP BY interval ORDER BY interval");
}

#[test]
fn histogram_sql_with_region_and_envelope() {
    let interval = TimeInterval::new(utc(2020, 1, 1, 0, 0, 0), utc(2020, 1, 1, 0, 5, 0));
    let grid = Grid::new(num(-25.0), num(56.8605750930044), num(27.0), num(71.94746107673467), num(0.14017221762500753), num(0.08865376938211966));
    let q = histogram_query(&interval, 5, Some(1), Some(&grid));
    let sql = q.to_sql();
    assert!(sql.contains("AND region = %(region)s"));
    assert!(sql.contains("AND ST_SetSRID(CAST(%(envelope)s AS geometry), %(envelope_srid)s) && geog"));
    let params = q.parameters();
    assert_eq!(params.len(), 6); // end_time, binsize, start_time, region, envelope, envelope_srid
    assert!(matches!(params[3], Param::Int(1)));
    assert!(matches!(params[4], Param::Bytea(_)));
    assert!(matches!(params[5], Param::Int(4326)));
}

#[test]
fn repeated_named_params_map_to_single_positional() {
    let interval = TimeInterval::new(utc(2020, 1, 1, 0, 0, 0), utc(2020, 1, 1, 0, 5, 0));
    let grid = Grid::new(num(-25.0), num(56.8605750930044), num(27.0), num(71.94746107673467), num(0.14017221762500753), num(0.08865376938211966));
    let q = grid_query(&grid, &interval, Some(1), 0);
    let sql = q.to_postgres();
    // srid appears twice in the SQL but only once as a positional param
    assert!(sql.contains("ST_X(ST_Transform(geog::geometry, $1::integer)"));
    assert!(sql.contains("ST_Y(ST_Transform(geog::geometry, $1::integer)"));
    // region is the tenth distinct parameter
    assert!(sql.contains("region = $10::smallint"));
    assert_eq!(q.parameters().len(), 10);
}

#[test]
fn select_query_matches_python() {
    let interval = TimeInterval::new(utc(2020, 1, 1, 0, 0, 0), utc(2020, 1, 1, 0, 5, 0));
    let q = select_query(&interval, None, None, 4326);
    let expected = "SELECT id, \"timestamp\", nanoseconds, \
         ST_X(ST_Transform(geog::geometry, %(srid)s)) AS x, \
         ST_Y(ST_Transform(geog::geometry, %(srid)s)) AS y, \
         altitude, amplitude, error2d, stationcount \
         FROM strikes WHERE \"timestamp\" >= %(start_time)s AND \"timestamp\" < %(end_time)s \
         ORDER BY id";
    assert_eq!(q.to_sql(), expected);
}

#[test]
fn select_key_query_matches_python() {
    let interval = TimeInterval::new(utc(2020, 1, 1, 0, 0, 0), utc(2020, 1, 1, 0, 5, 0));
    let q = select_key_query(&interval, None, None, 4326);
    let expected = "SELECT \"timestamp\", nanoseconds, \
         ST_X(ST_Transform(geog::geometry, %(srid)s)) AS x, \
         ST_Y(ST_Transform(geog::geometry, %(srid)s)) AS y, error2d \
         FROM strikes WHERE \"timestamp\" >= %(start_time)s AND \"timestamp\" < %(end_time)s";
    assert_eq!(q.to_sql(), expected);
    assert_eq!(q.parameters().len(), 3);
}

#[test]
fn select_key_query_with_region() {
    let interval = TimeInterval::new(utc(2020, 1, 1, 0, 0, 0), utc(2020, 1, 1, 0, 5, 0));
    let q = select_key_query(&interval, None, Some(7), 4326);
    assert!(q.to_sql().contains("region = %(region)s"));
    assert!(matches!(q.parameters().last(), Some(Param::Int(7))));
}

#[test]
fn select_query_with_envelope_area_adds_bbox_only() {
    let interval = TimeInterval::new(utc(2020, 1, 1, 0, 0, 0), utc(2020, 1, 1, 0, 5, 0));
    let area = Area::from_envelope(&Envelope::new(num(10.0), num(12.0), num(50.0), num(52.0)));
    let q = select_query(&interval, Some(&area), None, 4326);
    let sql = q.to_sql();
    assert!(sql.contains("ST_GeomFromWKB(%(envelope)s, %(srid)s) && geog"));
    assert!(!sql.contains("ST_Intersects"));
    assert!(q.parameters().iter().any(|p| matches!(p, Param::Bytea(_))));
}

#[test]
fn select_query_with_polygon_area_adds_intersects() {
    let interval = TimeInterval::new(utc(2020, 1, 1, 0, 0, 0), utc(2020, 1, 1, 0, 5, 0));
    let area = Area::from_polygon(&[vec![
        (num(0.0), num(0.0)),
        (num(2.0), num(0.0)),
        (num(1.0), num(1.0)),
        (num(0.0), num(2.0)),
        (num(0.0), num(0.0)),
    ]])
    .unwrap();
    let q = select_query(&interval, Some(&area), None, 4326);
    let sql = q.to_sql();
    assert!(sql.contains("ST_Intersects(ST_GeomFromWKB(%(geometry)s"));
    // two bytea params: envelope and geometry
    let bytea = q
        .parameters()
        .iter()
        .filter(|p| matches!(p, Param::Bytea(_)))
        .count();
    assert_eq!(bytea, 2);
}

#[test]
fn select_query_area_matching_envelope_skips_intersects() {
    let interval = TimeInterval::new(utc(2020, 1, 1, 0, 0, 0), utc(2020, 1, 1, 0, 5, 0));
    let area = Area::from_polygon(&[vec![
        (num(0.0), num(0.0)),
        (num(0.0), num(2.0)),
        (num(2.0), num(2.0)),
        (num(2.0), num(0.0)),
        (num(0.0), num(0.0)),
    ]])
    .unwrap();
    assert!(area.geometry_wkb.is_none());
    let q = select_query(&interval, Some(&area), None, 4326);
    assert!(!q.to_sql().contains("ST_Intersects"));
}

#[test]
fn parse_wkt_polygon_envelope() {
    let area = wkt_area("POLYGON((0 0, 1 0, 1 1, 0 1, 0 0))").unwrap();
    assert!(area.geometry_wkb.is_none(), "square is its own envelope");
}

#[test]
fn parse_wkt_polygon_non_envelope() {
    let area = wkt_area("POLYGON((0 0, 2 0, 1 1, 0 2, 0 0))").unwrap();
    assert!(area.geometry_wkb.is_some());
}

#[test]
fn parse_wkt_polygon_with_hole() {
    let area = wkt_area(
        "POLYGON((0 0, 4 0, 4 4, 0 4, 0 0),(1 1, 2 1, 2 2, 1 2, 1 1))",
    )
    .unwrap();
    assert!(area.geometry_wkb.is_some());
}

#[test]
fn parse_wkt_rejects_non_polygon() {
    assert!(wkt_area("POINT(0 0)").is_none());
    assert!(wkt_area("POLYGON EMPTY").is_none());
    assert!(wkt_area("not wkt").is_none());
}

#[test]
fn duration_seconds_is_total_seconds() {
    let interval = TimeInterval::new(utc(2020, 1, 1, 0, 0, 0), utc(2020, 1, 1, 0, 5, 0));
    assert_eq!(interval.duration_seconds(), 300);
    // 24h+ deltas do NOT wrap (total_seconds semantics)
    let interval = TimeInterval::new(utc(2020, 1, 1, 0, 0, 0), utc(2020, 1, 2, 0, 0, 0));
    assert_eq!(interval.duration_seconds(), 86400);
    let interval = TimeInterval::new(utc(2020, 1, 1, 0, 0, 0), utc(2020, 1, 1, 23, 59, 0));
    assert_eq!(interval.duration_seconds(), 86340);
}
#[test]
fn encodes_ring_with_expected_layout() {
    let wkb = linear_ring(&[(num(1.0), num(2.0)), (num(3.0), num(4.0))]);
    assert_eq!(wkb.len(), 1 + 4 + 4 + 3 * 16);
    assert_eq!(wkb[0], 0x01);
    assert_eq!(u32::from_le_bytes(wkb[1..5].try_into().unwrap()), 2);
    let n = u32::from_le_bytes(wkb[5..9].try_into().unwrap());
    assert_eq!(n, 3); // first point repeated to close the ring
    assert_eq!(f64::from_le_bytes(wkb[9..17].try_into().unwrap()), 1.0);
    assert_eq!(f64::from_le_bytes(wkb[17..25].try_into().unwrap()), 2.0);
}

#[test]
fn encodes_polygon_with_its_rings() {
    let ring = vec![(num(1.0), num(2.0)), (num(3.0), num(4.0)), (num(1.0), num(2.0))];
    let wkb = polygon(&[ring]);
    assert_eq!(wkb.len(), 1 + 4 + 4 + 4 + 3 * 16);
    assert_eq!(u32::from_le_bytes(wkb[1..5].try_into().unwrap()), 3);
    assert_eq!(u32::from_le_bytes(wkb[5..9].try_into().unwrap()), 1);
    assert_eq!(u32::from_le_bytes(wkb[9..13].try_into().unwrap()), 3);
}

#[test]
fn a_bounding_box_holds_its_points() {
    let points = [(num(1.0), num(-2.0)), (num(-3.0), num(4.0)), (num(0.5), num(0.5))];
    let envelope = bounding_box(&points);
    assert_eq!(envelope, Envelope::new(num(-3.0), num(1.0), num(-2.0), num(4.0)));
}

#[test]
fn unbalanced_well_known_text_is_refused() {
    assert!(parse_wkt_polygon("POLYGON((0 0, 1 0, 1 1, 0 1, 0 0)").is_none());
    assert!(parse_wkt_polygon("POLYGON)0 0(").is_none());
}

#[test]
fn clauses_are_written_in_their_order() {
    let query = Query::new("t")
        .column("a")
        .column("count(*) AS n")
        .condition("a > %(low)s")
        .param("low", Param::Int(3))
        .cast("low", "integer")
        .group_by("a")
        .group_having("count(*) > %(least)s", "least", Param::Int(5))
        .order_by("a", true)
        .order_by("n", false)
        .limit(10);
    assert_eq!(
        query.to_sql(),
        "SELECT a, count(*) AS n FROM t WHERE a > %(low)s GROUP BY a HAVING count(*) > %(least)s \
         ORDER BY a DESC, n LIMIT 10"
    );
    assert_eq!(
        query.to_postgres(),
        "SELECT a, count(*) AS n FROM t WHERE a > $1::integer GROUP BY a HAVING count(*) > $2 \
         ORDER BY a DESC, n LIMIT 10"
    );
    assert_eq!(query.parameters(), vec![Param::Int(3), Param::Int(5)]);
    assert_eq!(
        Query::new("t").set_columns(&["x", "y"]).to_sql(),
        "SELECT x, y FROM t"
    );
}

#[test]
fn casts_follow_their_placeholders() {
    let casts = vec![("b".to_string(), "text".to_string())];
    assert_eq!(
        named_to_positional_with_casts("%(a)s %(b)s %(a)s %(b)s", &casts),
        "$1 $2::text $1 $2::text"
    );
    // An open bracket without an end is no placeholder.
    assert_eq!(named_to_positional("%(a"), "%(a");
}

#[test]
fn a_threshold_restricts_the_cells() {
    let interval = TimeInterval::new(0, 60_000_000);
    let grid = Grid::new(num(0.0), num(1.0), num(0.0), num(1.0), num(0.1), num(0.1));
    let query = grid_query(&grid, &interval, Some(1), 5);
    assert!(query.to_sql().contains("HAVING count(*) > %(count_threshold)s"));
    assert_eq!(query.parameters().len(), 11);
    let query = global_grid_query(&grid, &interval, 5);
    assert!(query.to_sql().contains("HAVING count(*) > %(count_threshold)s"));
    assert_eq!(interval.minutes(), 1);
}
