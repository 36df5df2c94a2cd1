use geohash::{
    decode, decode_bbox, encode, hash_value_of_char, neighbor, neighbors, Coordinate, Direction,
    GeohashError, MAX_HASH_LENGTH,
};

/// Fixed-point units per degree, as a float: 2^53.
const SCALE_F: f64 = 9007199254740992.0;

/// A degree value as a fixed-point unit count. Rounding up keeps every
/// comparison against the dyadic interval midpoints exact.
fn units(deg: f64) -> i64 {
    (deg * SCALE_F).ceil() as i64
}

/// A fixed-point unit count as a degree value.
fn degrees(u: i64) -> f64 {
    (u as f64) / SCALE_F
}

fn coord(x: f64, y: f64) -> Coordinate {
    Coordinate { x: units(x), y: units(y) }
}

const ALPHABET: &str = "0123456789bcdefghjkmnpqrstuvwxyz";

#[test]
fn encode_fixture_length_five() {
    let c = coord(-120.6623, 35.3003);
    assert_eq!(encode(c, 5).expect("valid coordinate"), "9q60y");
}

#[test]
fn encode_fixture_length_ten() {
    let c = coord(-120.6623, 35.3003);
    assert_eq!(encode(c, 10).expect("valid coordinate"), "9q60y60rhs");
}

#[test]
fn decode_fixture_length_five() {
    let (c, lon_err, lat_err) = decode("9q60y").expect("valid hash");
    assert_eq!(degrees(c.x), -120.65185546875);
    assert_eq!(degrees(c.y), 35.31005859375);
    assert_eq!(degrees(lon_err), 0.02197265625);
    assert_eq!(degrees(lat_err), 0.02197265625);
}

#[test]
fn decode_fixture_length_ten() {
    let (c, lon_err, lat_err) = decode("9q60y60rhs").expect("valid hash");
    assert_eq!(degrees(c.x), -120.66229999065399);
    assert_eq!(degrees(c.y), 35.300298035144806);
    assert_eq!(degrees(lon_err), 0.000005364418029785156);
    assert_eq!(degrees(lat_err), 0.000002682209014892578);
}

#[test]
fn neighbors_fixture() {
    let ns = neighbors("9q60y60rhs").expect("valid hash");
    assert_eq!(ns.n, "9q60y60rht");
    assert_eq!(ns.ne, "9q60y60rhv");
    assert_eq!(ns.e, "9q60y60rhu");
    assert_eq!(ns.se, "9q60y60rhg");
    assert_eq!(ns.s, "9q60y60rhe");
    assert_eq!(ns.sw, "9q60y60rh7");
    assert_eq!(ns.w, "9q60y60rhk");
    assert_eq!(ns.nw, "9q60y60rhm");
}

#[test]
fn neighbor_single_direction() {
    let n = neighbor("9q60y60rhs", Direction::N).expect("valid hash");
    assert_eq!(n, "9q60y60rht");
    let sw = neighbor("9q60y60rhs", Direction::SW).expect("valid hash");
    assert_eq!(sw, "9q60y60rh7");
}

#[test]
fn encode_out_of_range_longitude_fails() {
    let c = coord(200.0, 35.0);
    match encode(c, 5) {
        Err(GeohashError::InvalidCoordinateRange(bad)) => assert_eq!(bad, c),
        other => panic!("expected a range error, got {:?}", other),
    }
}

#[test]
fn encode_out_of_range_latitude_fails() {
    let c = coord(10.0, -90.5);
    match encode(c, 5) {
        Err(GeohashError::InvalidCoordinateRange(bad)) => assert_eq!(bad, c),
        other => panic!("expected a range error, got {:?}", other),
    }
}

#[test]
fn encode_boundary_coordinates_succeed() {
    assert_eq!(encode(coord(180.0, 90.0), 3).expect("on the boundary"), "zzz");
    assert_eq!(encode(coord(-180.0, -90.0), 3).expect("on the boundary"), "000");
}

#[test]
fn decode_invalid_characters_fail() {
    for bad in ['a', 'i', 'l', 'o', 'A'] {
        let hash: String = bad.to_string();
        match decode(&hash) {
            Err(GeohashError::InvalidHashCharacter(c)) => assert_eq!(c, bad),
            other => panic!("expected a character error, got {:?}", other),
        }
    }
}

#[test]
fn decode_reports_first_invalid_character() {
    match decode_bbox("9qLo") {
        Err(GeohashError::InvalidHashCharacter(c)) => assert_eq!(c, 'L'),
        other => panic!("expected a character error, got {:?}", other),
    }
}

#[test]
fn hash_value_of_char_matches_alphabet() {
    for (i, c) in ALPHABET.chars().enumerate() {
        assert_eq!(hash_value_of_char(c).expect("alphabet character"), i);
    }
    assert!(matches!(
        hash_value_of_char('o'),
        Err(GeohashError::InvalidHashCharacter('o'))
    ));
}

#[test]
fn encode_produces_alphabet_strings_of_requested_length() {
    let c = coord(2.3488, 48.8534);
    for n in 1..=20 {
        let hash = encode(c, n).expect("valid coordinate");
        assert_eq!(hash.len(), n);
        assert!(hash.chars().all(|ch| ALPHABET.contains(ch)));
    }
}

#[test]
fn bbox_corners_are_ordered() {
    for hash in ["9q60y", "u09tunq", "z", "0", "s00000"] {
        let rect = decode_bbox(hash).expect("valid hash");
        assert!(rect.min().x <= rect.max().x);
        assert!(rect.min().y <= rect.max().y);
    }
}

#[test]
fn bbox_nesting_along_prefixes() {
    let hash = "9q60y60rhs";
    for n in 1..hash.len() {
        let outer = decode_bbox(&hash[..n]).expect("valid hash");
        let inner = decode_bbox(&hash[..n + 1]).expect("valid hash");
        assert!(outer.min().x <= inner.min().x);
        assert!(inner.max().x <= outer.max().x);
        assert!(outer.min().y <= inner.min().y);
        assert!(inner.max().y <= outer.max().y);
    }
}

#[test]
fn round_trip_stays_within_errors_and_errors_shrink() {
    let c = coord(-3.70325, 40.4167);
    let mut previous: Option<(i64, i64)> = None;
    for n in 1..=MAX_HASH_LENGTH {
        let hash = encode(c, n).expect("valid coordinate");
        let (center, lon_err, lat_err) = decode(&hash).expect("valid hash");
        assert!((c.x - center.x).abs() <= lon_err);
        assert!((c.y - center.y).abs() <= lat_err);
        if let Some((prev_lon, prev_lat)) = previous {
            assert!(lon_err < prev_lon);
            assert!(lat_err < prev_lat);
        }
        previous = Some((lon_err, lat_err));
    }
}

#[test]
fn neighbor_beyond_pole_fails() {
    // A length-one hash whose cell touches the north pole: stepping north
    // probes a latitude above 90 degrees, which fails rather than wrapping.
    let hash = encode(coord(0.0, 80.0), 1).expect("valid coordinate");
    match neighbor(&hash, Direction::N) {
        Err(GeohashError::InvalidCoordinateRange(_)) => {},
        other => panic!("expected a range error, got {:?}", other),
    }
}

#[test]
fn neighbors_fail_as_a_whole_at_the_antimeridian() {
    // A cell on the antimeridian: the western neighbor would wrap, so the
    // whole call fails with the range error and no partial record.
    let hash = encode(coord(-179.9999, 0.1), 6).expect("valid coordinate");
    match neighbors(&hash) {
        Err(GeohashError::InvalidCoordinateRange(_)) => {},
        other => panic!("expected a range error, got {:?}", other),
    }
}

#[test]
fn direction_sign_vectors() {
    assert_eq!(Direction::N.to_tuple(), (1, 0));
    assert_eq!(Direction::NE.to_tuple(), (1, 1));
    assert_eq!(Direction::E.to_tuple(), (0, 1));
    assert_eq!(Direction::SE.to_tuple(), (-1, 1));
    assert_eq!(Direction::S.to_tuple(), (-1, 0));
    assert_eq!(Direction::SW.to_tuple(), (-1, -1));
    assert_eq!(Direction::W.to_tuple(), (0, -1));
    assert_eq!(Direction::NW.to_tuple(), (1, -1));
}

#[test]
fn encode_determinism() {
    let c = coord(-5.603, 42.605);
    let first = encode(c, 5).expect("valid coordinate");
    let second = encode(c, 5).expect("valid coordinate");
    assert_eq!(first, second);
    assert_eq!(first, "ezs42");
}
