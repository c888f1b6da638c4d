use flatgeobuf::{ColumnType, FgbWriter, GeometryType};
use geozero::{ColumnValue, PropertyProcessor};
use spatialtime::ned;
use spatialtime::offset::{parse_utc_offset, UtcOffset};
use spatialtime::osm;
use spatialtime::shared::{get_intersection, SpatialtimeError};
use spatialtime::Coordinate;

fn coord(lon: f64, lat: f64) -> Coordinate {
    Coordinate { lon_bits: lon.to_bits(), lat_bits: lat.to_bits() }
}

struct Region {
    geom: geo::Geometry,
    tzid: Option<&'static str>,
    offset: Option<&'static str>,
}

fn square(min_x: f64, min_y: f64, max_x: f64, max_y: f64) -> geo::Geometry {
    let ring = geo::LineString::from(vec![
        (min_x, min_y),
        (max_x, min_y),
        (max_x, max_y),
        (min_x, max_y),
        (min_x, min_y),
    ]);
    geo::Geometry::MultiPolygon(geo::MultiPolygon::new(vec![geo::Polygon::new(ring, vec![])]))
}

fn build_archive(regions: &[Region]) -> Vec<u8> {
    let options = flatgeobuf::FgbWriterOptions {
        detect_type: false,
        ..Default::default()
    };
    let mut writer =
        FgbWriter::create_with_options("timezones", GeometryType::Unknown, options).unwrap();
    writer.add_column("tzid", ColumnType::String, |_fbb, col| {
        col.nullable = true;
    });
    writer.add_column("offset", ColumnType::String, |_fbb, col| {
        col.nullable = true;
    });
    for region in regions {
        writer
            .add_feature_geom(region.geom.clone(), |feat| {
                if let Some(tzid) = region.tzid {
                    feat.property(0, "tzid", &ColumnValue::String(tzid)).unwrap();
                }
                if let Some(offset) = region.offset {
                    feat.property(1, "offset", &ColumnValue::String(offset)).unwrap();
                }
            })
            .unwrap();
    }
    let mut fgb: Vec<u8> = Vec::new();
    writer.write(&mut fgb).unwrap();
    zstd::stream::encode_all(fgb.as_slice(), 0).unwrap()
}

/// Two regions with both identifier and offset, as the NED dataset has.
fn ned_archive() -> Vec<u8> {
    build_archive(&[
        Region {
            geom: square(-80.0, 35.0, -75.0, 40.0),
            tzid: Some("America/New_York"),
            offset: Some("-5.0"),
        },
        Region {
            geom: square(147.0, -37.0, 151.0, -33.0),
            tzid: Some("Australia/Sydney"),
            offset: Some("10.0"),
        },
    ])
}

/// Two regions with only an identifier, as the OSM dataset has.
fn osm_archive() -> Vec<u8> {
    build_archive(&[
        Region {
            geom: square(-80.0, 35.0, -75.0, 40.0),
            tzid: Some("America/New_York"),
            offset: None,
        },
        Region {
            geom: square(147.0, -37.0, 151.0, -33.0),
            tzid: Some("Australia/Sydney"),
            offset: None,
        },
    ])
}

#[test]
fn ned_test() {
    let archive = ned_archive();
    let white_house = coord(-77.0365, 38.8977);
    let the_lodge = coord(149.1165, -35.3108);

    let response = ned::lookup(&archive, &the_lodge).unwrap();
    println!("{:?}", response);
    assert_eq!(
        ned::lookup(&archive, &white_house).unwrap().offset,
        UtcOffset { centihours: -500 }
    );
    assert_eq!(
        ned::lookup(&archive, &the_lodge).unwrap().offset,
        UtcOffset { centihours: 1000 }
    )
}

#[test]
fn osm_test() {
    let archive = osm_archive();
    let white_house = coord(-77.0365, 38.8977);
    let the_lodge = coord(149.1165, -35.3108);

    assert_eq!(
        osm::lookup(&archive, &white_house).unwrap().tzid,
        "America/New_York"
    );
    assert_eq!(
        osm::lookup(&archive, &the_lodge).unwrap().tzid,
        "Australia/Sydney"
    )
}

#[test]
fn ned_reports_tzid_too() {
    let archive = ned_archive();
    let response = ned::lookup(&archive, &coord(-77.0365, 38.8977)).unwrap();
    assert_eq!(response.tzid, Some("America/New_York".to_string()));
}

#[test]
fn ocean_yields_no_intersection() {
    let archive = osm_archive();
    let mid_atlantic = coord(-30.0, 10.0);
    let result = osm::lookup(&archive, &mid_atlantic);
    assert!(matches!(result, Err(SpatialtimeError::NoIntersection)));
}

#[test]
fn repeated_lookups_are_identical() {
    let archive = ned_archive();
    let point = coord(149.1165, -35.3108);
    let first = ned::lookup(&archive, &point);
    let second = ned::lookup(&archive, &point);
    let third = ned::lookup(&archive, &point);
    assert_eq!(first, second);
    assert_eq!(second, third);
}

#[test]
fn boundary_point_is_consistent() {
    // two regions sharing the edge at longitude 10
    let archive = build_archive(&[
        Region {
            geom: square(9.0, 0.0, 10.0, 1.0),
            tzid: Some("Zone/West"),
            offset: None,
        },
        Region {
            geom: square(10.0, 0.0, 11.0, 1.0),
            tzid: Some("Zone/East"),
            offset: None,
        },
    ]);
    let on_edge = coord(10.0, 0.5);
    let first = osm::lookup(&archive, &on_edge).unwrap();
    assert!(first.tzid == "Zone/West" || first.tzid == "Zone/East");
    for _ in 0..5 {
        let again = osm::lookup(&archive, &on_edge).unwrap();
        assert_eq!(first, again);
    }
}

#[test]
fn offset_without_identifier() {
    let archive = build_archive(&[Region {
        geom: square(55.0, 20.0, 60.0, 25.0),
        tzid: None,
        offset: Some("3.5"),
    }]);
    let response = ned::lookup(&archive, &coord(57.0, 22.0)).unwrap();
    assert_eq!(response.offset, UtcOffset { centihours: 350 });
    assert_eq!(response.tzid, None);
}

#[test]
fn non_polygonal_candidate_is_skipped() {
    let point_geom = geo::Geometry::Point(geo::Point::new(5.0, 5.0));
    let archive = build_archive(&[
        Region {
            geom: point_geom,
            tzid: Some("Zone/Dot"),
            offset: None,
        },
        Region {
            geom: square(4.0, 4.0, 6.0, 6.0),
            tzid: Some("Zone/Square"),
            offset: None,
        },
    ]);
    let response = osm::lookup(&archive, &coord(5.0, 5.0)).unwrap();
    assert_eq!(response.tzid, "Zone/Square");
}

#[test]
fn bounding_box_overlap_is_not_containment() {
    // the query point lies inside the triangle's bounding box but outside
    // the triangle itself
    let ring = geo::LineString::from(vec![(0.0, 0.0), (4.0, 0.0), (0.0, 4.0), (0.0, 0.0)]);
    let triangle = geo::Geometry::MultiPolygon(geo::MultiPolygon::new(vec![geo::Polygon::new(
        ring,
        vec![],
    )]));
    let archive = build_archive(&[Region {
        geom: triangle,
        tzid: Some("Zone/Triangle"),
        offset: None,
    }]);
    let result = osm::lookup(&archive, &coord(3.5, 3.5));
    assert!(matches!(result, Err(SpatialtimeError::NoIntersection)));
    let inside = osm::lookup(&archive, &coord(0.5, 0.5)).unwrap();
    assert_eq!(inside.tzid, "Zone/Triangle");
}

#[test]
fn missing_offset_property() {
    let archive = osm_archive();
    let result = ned::lookup(&archive, &coord(-77.0365, 38.8977));
    match result {
        Err(SpatialtimeError::Properties(name)) => assert_eq!(name, "offset"),
        other => panic!("expected a property error, got {:?}", other),
    }
}

#[test]
fn unparseable_offset_property() {
    let archive = build_archive(&[Region {
        geom: square(0.0, 0.0, 1.0, 1.0),
        tzid: None,
        offset: Some("half past"),
    }]);
    let result = ned::lookup(&archive, &coord(0.5, 0.5));
    match result {
        Err(SpatialtimeError::Properties(name)) => {
            assert_eq!(name, "offset conversion: half past")
        },
        other => panic!("expected a property error, got {:?}", other),
    }
}

#[test]
fn missing_tzid_property() {
    let archive = build_archive(&[Region {
        geom: square(0.0, 0.0, 1.0, 1.0),
        tzid: None,
        offset: Some("1"),
    }]);
    let result = osm::lookup(&archive, &coord(0.5, 0.5));
    match result {
        Err(SpatialtimeError::Properties(name)) => assert_eq!(name, "tzid"),
        other => panic!("expected a property error, got {:?}", other),
    }
}

#[test]
fn corrupt_compressed_archive() {
    let garbage: Vec<u8> = vec![1, 2, 3, 4, 5];
    let result = osm::lookup(&garbage, &coord(0.0, 0.0));
    assert!(matches!(result, Err(SpatialtimeError::Zst)));
}

#[test]
fn decompressed_bytes_not_a_collection() {
    let not_fgb = zstd::stream::encode_all(&b"these bytes are no feature collection"[..], 0).unwrap();
    let result = osm::lookup(&not_fgb, &coord(0.0, 0.0));
    assert!(matches!(result, Err(SpatialtimeError::Fgb)));
}

#[test]
fn intersection_properties_are_exposed() {
    let archive = ned_archive();
    let props = get_intersection(&archive, &coord(-77.0365, 38.8977)).unwrap();
    assert_eq!(props.get("tzid"), Some("America/New_York".to_string()));
    assert_eq!(props.get("offset"), Some("-5.0".to_string()));
    assert_eq!(props.get("population"), None);
}

#[test]
fn error_messages() {
    assert_eq!(
        SpatialtimeError::Zst.message(),
        "Error decompressing"
    );
    assert_eq!(
        SpatialtimeError::Properties("offset".to_string()).message(),
        "Error fetching properties: offset"
    );
    assert_eq!(
        SpatialtimeError::NoIntersection.message(),
        "No intersection found!"
    );
}

#[test]
fn parse_exact_offsets() {
    assert_eq!(parse_utc_offset("0"), Some(UtcOffset { centihours: 0 }));
    assert_eq!(parse_utc_offset("-5.0"), Some(UtcOffset { centihours: -500 }));
    assert_eq!(parse_utc_offset("+10.0"), Some(UtcOffset { centihours: 1000 }));
    assert_eq!(parse_utc_offset("5.75"), Some(UtcOffset { centihours: 575 }));
    assert_eq!(parse_utc_offset("12.75"), Some(UtcOffset { centihours: 1275 }));
    assert_eq!(parse_utc_offset("-9.5"), Some(UtcOffset { centihours: -950 }));
    assert_eq!(parse_utc_offset("5.7500"), Some(UtcOffset { centihours: 575 }));
    assert_eq!(parse_utc_offset("00010"), Some(UtcOffset { centihours: 1000 }));
    assert_eq!(parse_utc_offset("0.25"), Some(UtcOffset { centihours: 25 }));
    // forms with a bare decimal point on one side
    assert_eq!(parse_utc_offset("5."), Some(UtcOffset { centihours: 500 }));
    assert_eq!(parse_utc_offset(".5"), Some(UtcOffset { centihours: 50 }));
    assert_eq!(parse_utc_offset("-.25"), Some(UtcOffset { centihours: -25 }));
    // scientific notation
    assert_eq!(parse_utc_offset("1e3"), Some(UtcOffset { centihours: 100000 }));
    assert_eq!(parse_utc_offset("2E2"), Some(UtcOffset { centihours: 20000 }));
    assert_eq!(parse_utc_offset("1e-2"), Some(UtcOffset { centihours: 1 }));
    assert_eq!(parse_utc_offset("5.125e1"), Some(UtcOffset { centihours: 5125 }));
    assert_eq!(parse_utc_offset("+.5e+1"), Some(UtcOffset { centihours: 500 }));
    assert_eq!(
        parse_utc_offset("0e99999999999999999999999999"),
        Some(UtcOffset { centihours: 0 })
    );
    // the largest magnitude the representation holds
    assert_eq!(
        parse_utc_offset("92233720368547758.07"),
        Some(UtcOffset { centihours: i64::MAX })
    );
}

#[test]
fn parse_rejects_malformed_offsets() {
    assert_eq!(parse_utc_offset(""), None);
    assert_eq!(parse_utc_offset("-"), None);
    assert_eq!(parse_utc_offset("+"), None);
    assert_eq!(parse_utc_offset("."), None);
    assert_eq!(parse_utc_offset("5..5"), None);
    assert_eq!(parse_utc_offset("5.755"), None);
    assert_eq!(parse_utc_offset("5.125"), None);
    assert_eq!(parse_utc_offset("-0.005"), None);
    assert_eq!(parse_utc_offset("abc"), None);
    assert_eq!(parse_utc_offset("5a"), None);
    assert_eq!(parse_utc_offset(" 5"), None);
    assert_eq!(parse_utc_offset("5e"), None);
    assert_eq!(parse_utc_offset("e3"), None);
    assert_eq!(parse_utc_offset("1e+"), None);
    assert_eq!(parse_utc_offset("1e3.5"), None);
    assert_eq!(parse_utc_offset("1e-3"), None);
    assert_eq!(parse_utc_offset("1e99999999999999999999999999"), None);
    assert_eq!(parse_utc_offset("inf"), None);
    assert_eq!(parse_utc_offset("9223372036854775807"), None);
    assert_eq!(parse_utc_offset("92233720368547758.08"), None);
}
