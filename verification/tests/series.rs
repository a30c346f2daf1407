//! Plot series: samples, decimation and axis groups.

use mavlog::plot::{
    axis_groups, decimate, default_true, finite, series_data, smaller, AxisGroup, PlotDef, Point,
    SeriesData, SeriesDef, DECIMATE_ABOVE, INFINITY, NEG_INFINITY,
};
use mavlog::session::Session;
use mavlog::tlog;
use mavlog::value::{Number, Real};

// v2 HEARTBEAT frames (msg id 0) differing only by sysid (byte index 4),
// decoding to mavlink_version = 3.
const V2_HEARTBEAT_SYS1: &[u8] =
    &[0xFD, 9, 0, 0, 1, 1, 1, 0, 0, 0, 0, 0, 0, 0, 2, 3, 81, 4, 3, 0, 0];
const V2_HEARTBEAT_SYS2: &[u8] =
    &[0xFD, 9, 0, 0, 1, 2, 1, 0, 0, 0, 0, 0, 0, 0, 2, 3, 81, 4, 3, 0, 0];

fn record(timestamp_us: u64, frame: &[u8]) -> Vec<u8> {
    let mut rec = timestamp_us.to_be_bytes().to_vec();
    rec.extend_from_slice(frame);
    rec
}

fn as_double(n: Number) -> f64 {
    match n {
        Number::Signed(i) => i as f64,
        Number::Unsigned(u) => u as f64,
        Number::Real(Real::Signed { raw, multiplier }) => raw as f64 * f64::from_bits(multiplier),
        Number::Real(Real::Unsigned { count, multiplier }) => {
            count as f64 * f64::from_bits(multiplier)
        }
        Number::Real(Real::Single { bits_32, multiplier }) => {
            f32::from_bits(bits_32) as f64 * f64::from_bits(multiplier)
        }
        Number::Real(Real::Double { bits_64, multiplier }) => {
            f64::from_bits(bits_64) * f64::from_bits(multiplier)
        }
    }
}

/// The points of a series, as pairs of doubles.
fn extract(session: &Session, series: &SeriesDef) -> Vec<[f64; 2]> {
    let samples: Vec<(u64, Option<u64>)> = session
        .series_samples(series)
        .into_iter()
        .map(|(t, n)| (t, Some(as_double(n).to_bits())))
        .collect();
    series_data(&samples)
        .points
        .iter()
        .map(|p| [p.timestamp_us as f64, f64::from_bits(p.value)])
        .collect()
}

#[test]
fn extract_filters_by_sysid_and_reads_the_field() {
    let mut data = record(1_000_000, V2_HEARTBEAT_SYS1);
    data.extend(record(2_000_000, V2_HEARTBEAT_SYS2));
    let entries = tlog::parse(&data);
    let session = Session::new("x".to_string(), data, entries, None);

    let series = SeriesDef {
        sysid: Some(1),
        compid: None,
        msg_type: "HEARTBEAT".to_string(),
        field: "mavlink_version".to_string(),
        name: None,
        unit: None,
    };
    assert_eq!(extract(&session, &series), vec![[1_000_000.0, 3.0]]);
}

#[test]
fn extract_skips_nonnumeric_fields() {
    let data = record(1_000_000, V2_HEARTBEAT_SYS1);
    let entries = tlog::parse(&data);
    let session = Session::new("x".to_string(), data, entries, None);

    // `mavtype` is an enum field, serializing as {"type": "..."}, not a plain
    // number — it should be skipped rather than coerced.
    let series = SeriesDef {
        sysid: None,
        compid: None,
        msg_type: "HEARTBEAT".to_string(),
        field: "mavtype".to_string(),
        name: None,
        unit: None,
    };
    assert!(extract(&session, &series).is_empty());
}

#[test]
fn samples_without_a_value_are_skipped() {
    let d = series_data(&[(1, Some(2.0f64.to_bits())), (2, None), (3, Some((-1.5f64).to_bits()))]);
    assert_eq!(d.points.len(), 2);
    assert_eq!(d.points[1], Point { timestamp_us: 3, value: (-1.5f64).to_bits() });
    assert_eq!(f64::from_bits(d.y_min), -1.5);
    assert_eq!(f64::from_bits(d.y_max), 2.0);
}

#[test]
fn range_ignores_what_is_not_finite() {
    let d = series_data(&[
        (1, Some(f64::NAN.to_bits())),
        (2, Some(4.0f64.to_bits())),
        (3, Some(f64::INFINITY.to_bits())),
    ]);
    assert_eq!(d.points.len(), 3);
    assert_eq!(f64::from_bits(d.y_min), 4.0);
    assert_eq!(f64::from_bits(d.y_max), 4.0);
    let empty = series_data(&[]);
    assert_eq!((empty.y_min, empty.y_max), (INFINITY, NEG_INFINITY));
}

#[test]
fn bits_compare_like_doubles() {
    let values = [-3.5f64, -0.0, 0.0, 1e-300, 2.0, 1e300, f64::INFINITY, f64::NEG_INFINITY];
    for a in values {
        for b in values {
            assert_eq!(smaller(a.to_bits(), b.to_bits()), a < b, "{a} < {b}");
        }
        assert_eq!(finite(a.to_bits()), a.is_finite());
        assert!(!smaller(a.to_bits(), f64::NAN.to_bits()));
        assert!(!smaller(f64::NAN.to_bits(), a.to_bits()));
    }
    assert!(!finite(f64::NAN.to_bits()));
    assert_eq!(INFINITY, f64::INFINITY.to_bits());
    assert_eq!(NEG_INFINITY, f64::NEG_INFINITY.to_bits());
}

fn series_with_unit(unit: Option<&str>) -> SeriesDef {
    SeriesDef {
        sysid: None,
        compid: None,
        msg_type: "M".to_string(),
        field: "f".to_string(),
        name: None,
        unit: unit.map(str::to_string),
    }
}

fn data(y_min: f64, y_max: f64) -> SeriesData {
    SeriesData {
        points: vec![
            Point { timestamp_us: 0, value: y_min.to_bits() },
            Point { timestamp_us: 1, value: y_max.to_bits() },
        ],
        y_min: y_min.to_bits(),
        y_max: y_max.to_bits(),
    }
}

/// A range as numbers.
fn range(bits: (u64, u64)) -> (f64, f64) {
    (f64::from_bits(bits.0), f64::from_bits(bits.1))
}

/// A positive, finite span.
fn finite_span(span: f64) -> f64 {
    if span.is_finite() && span > 0.0 {
        span
    } else {
        1.0
    }
}

/// Scale and offset of a group.
fn transform(g: &AxisGroup) -> (f64, f64) {
    match g.map {
        None => (1.0, 0.0),
        Some(m) => {
            let (pmin, pmax) = range(m.primary);
            let (gmin, gmax) = range(m.own);
            let scale = finite_span(finite_span(pmax - pmin) / finite_span(gmax - gmin));
            let offset = pmin - gmin * scale;
            if offset.is_finite() {
                (scale, offset)
            } else {
                (1.0, 0.0)
            }
        }
    }
}

#[test]
fn axis_groups_single_unit_is_identity() {
    let series = vec![series_with_unit(Some("m")), series_with_unit(Some("m"))];
    let d = vec![data(0.0, 10.0), data(5.0, 20.0)];
    let groups = axis_groups(&series, &d);
    assert_eq!(groups.len(), 1);
    assert_eq!(groups[0].series, vec![0, 1]);
    let (scale, offset) = transform(&groups[0]);
    assert_eq!(scale, 1.0);
    assert_eq!(offset, 0.0);
}

#[test]
fn axis_groups_blank_unit_groups_with_none() {
    let series = vec![series_with_unit(None), series_with_unit(Some("  "))];
    let d = vec![data(0.0, 1.0), data(0.0, 1.0)];
    let groups = axis_groups(&series, &d);
    assert_eq!(groups.len(), 1);
    assert_eq!(groups[0].unit, None);
}

#[test]
fn axis_groups_rescales_second_unit_invertibly() {
    // Primary "m" spans 0..100; secondary "deg" spans 0..360. The secondary
    // group's map must send its own range onto the primary's.
    let series = vec![series_with_unit(Some("m")), series_with_unit(Some("deg"))];
    let d = vec![data(0.0, 100.0), data(0.0, 360.0)];
    let groups = axis_groups(&series, &d);
    assert_eq!(groups.len(), 2);
    let (scale, offset) = transform(&groups[1]);
    // Endpoints of the secondary map onto the primary endpoints.
    assert!((0.0 * scale + offset - 0.0).abs() < 1e-9);
    assert!((360.0 * scale + offset - 100.0).abs() < 1e-9);
    // And the inverse recovers a real value: displayed 50 -> real 180.
    let real = (50.0 - offset) / scale;
    assert!((real - 180.0).abs() < 1e-9);
}

#[test]
fn axis_groups_flat_secondary_is_finite() {
    // A flat (zero-span) secondary series must not produce NaN/inf.
    let series = vec![series_with_unit(Some("m")), series_with_unit(Some("v"))];
    let d = vec![data(0.0, 100.0), data(7.0, 7.0)];
    let groups = axis_groups(&series, &d);
    let (scale, offset) = transform(&groups[1]);
    assert!(scale.is_finite());
    assert!(offset.is_finite());
}

#[test]
fn axis_groups_tolerates_empty_series() {
    let series = vec![series_with_unit(Some("m")), series_with_unit(Some("deg"))];
    let empty = SeriesData { points: vec![], y_min: INFINITY, y_max: NEG_INFINITY };
    let d = vec![empty, data(0.0, 360.0)];
    let groups = axis_groups(&series, &d);
    // Primary has no finite range -> everything stays identity, no panic.
    assert!(groups.iter().all(|g| {
        let (scale, offset) = transform(g);
        scale.is_finite() && offset.is_finite()
    }));
    assert!(groups.iter().all(|g| g.map.is_none()));
}

#[test]
fn axis_groups_follow_the_order_of_units() {
    let series = vec![
        series_with_unit(Some("deg")),
        series_with_unit(Some(" m ")),
        series_with_unit(None),
        series_with_unit(Some("deg")),
        series_with_unit(Some("m")),
    ];
    let d = vec![data(0.0, 1.0), data(2.0, 3.0), data(4.0, 5.0), data(-1.0, 0.5), data(9.0, 9.5)];
    let groups = axis_groups(&series, &d);
    let units: Vec<Option<&str>> = groups.iter().map(|g| g.unit.as_deref()).collect();
    assert_eq!(units, vec![Some("deg"), Some("m"), None]);
    assert_eq!(groups[0].series, vec![0, 3]);
    assert_eq!(groups[1].series, vec![1, 4]);
    assert!(groups[0].map.is_none());
    let m = groups[1].map.unwrap();
    assert_eq!(range(m.primary), (-1.0, 1.0));
    assert_eq!(range(m.own), (2.0, 9.5));
}

#[test]
fn axis_groups_need_no_more_than_the_primary_range() {
    let series = vec![series_with_unit(Some("m")), series_with_unit(Some("deg"))];
    let empty = SeriesData {
        points: Vec::new(),
        y_min: f64::INFINITY.to_bits(),
        y_max: f64::NEG_INFINITY.to_bits(),
    };
    let groups = axis_groups(&series, &[empty]);
    assert_eq!(groups.len(), 2);
    assert!(groups.iter().all(|g| g.map.is_none()));
}

#[test]
fn decimate_keeps_the_order_of_time() {
    let points: Vec<Point> = (0..250_000u64)
        .map(|i| Point { timestamp_us: i, value: ((250_000 - i) as f64).to_bits() })
        .collect();
    let out = decimate(points);
    assert!(!out.is_empty() && out.len() <= DECIMATE_ABOVE);
    assert!(out.windows(2).all(|w| w[0].timestamp_us <= w[1].timestamp_us));
}

#[test]
fn decimate_keeps_short_series_untouched() {
    let points: Vec<Point> = (0..10u64)
        .map(|i| Point { timestamp_us: i, value: (i as f64).to_bits() })
        .collect();
    assert_eq!(decimate(points.clone()), points);
}

#[test]
fn decimate_shrinks_long_series_and_keeps_extremes() {
    let points: Vec<Point> = (0..500_000u64)
        .map(|i| Point { timestamp_us: i, value: ((i % 1000) as f64).to_bits() })
        .collect();
    let out = decimate(points);
    assert!(out.len() <= DECIMATE_ABOVE);
    assert!(!out.is_empty());
    // The global max (999) must survive decimation.
    assert!(out.iter().any(|p| f64::from_bits(p.value) == 999.0));
    assert!(out.iter().any(|p| f64::from_bits(p.value) == 0.0));
    assert!(out.windows(2).all(|w| w[0].timestamp_us <= w[1].timestamp_us));
}

#[test]
fn plot_definitions_show_marks_by_default() {
    assert!(default_true());
}

#[test]
fn copied_plot_is_the_same() {
    let p = PlotDef {
        name: "climb".to_string(),
        series: vec![series_with_unit(Some("m")), series_with_unit(None)],
        show_marks: false,
    };
    let q = p.copied();
    assert!(p.same(&q));
    assert_eq!(q.series.len(), 2);
    let r = PlotDef { show_marks: true, ..p.copied() };
    assert!(!p.same(&r));
}
