use livox_sdk2::wire::{read_i16_le, read_i32_le, read_u16_le, read_u32_le};
use livox_sdk2::points::{
    is_valid_return, parse_cartesian_high, parse_cartesian_low, parse_double_echo, parse_spherical,
    point_from_high, Coordinates, RawPoint,
};

/// Metres of a point, as a consumer of the library computes them.
fn to_meters(p: &RawPoint) -> (f64, f64, f64) {
    match p.coords {
        Coordinates::Millimeters { x, y, z } => (x as f64 * 0.001, y as f64 * 0.001, z as f64 * 0.001),
        Coordinates::Centimeters { x, y, z } => (x as f64 * 0.01, y as f64 * 0.01, z as f64 * 0.01),
        Coordinates::Spherical { depth, theta, phi } => {
            let deg2rad = std::f64::consts::PI / 180.0;
            let depth = depth as f64 * 0.001;
            let theta = theta as f64 * 0.01 * deg2rad;
            let phi = phi as f64 * 0.01 * deg2rad;
            let cp = phi.cos();
            (depth * cp * theta.cos(), depth * cp * theta.sin(), depth * phi.sin())
        }
    }
}

#[test]
fn cartesian_high() {
    // x=1000mm, y=-500mm, z=250mm, refl=128, tag=0
    let mut buf = [0u8; 14];
    buf[0..4].copy_from_slice(&1000i32.to_le_bytes());
    buf[4..8].copy_from_slice(&(-500i32).to_le_bytes());
    buf[8..12].copy_from_slice(&250i32.to_le_bytes());
    buf[12] = 128;
    let pts = parse_cartesian_high(&buf);
    assert_eq!(pts.len(), 1);
    let (x, y, z) = to_meters(&pts[0]);
    assert_eq!(x, 1.0);
    assert_eq!(y, -0.5);
    assert_eq!(z, 0.25);
    assert_eq!(pts[0].reflectivity, 128);
}

#[test]
fn cartesian_low() {
    // x=100cm, y=-50cm, z=25cm, refl=64, tag=0
    let mut buf = [0u8; 8];
    buf[0..2].copy_from_slice(&100i16.to_le_bytes());
    buf[2..4].copy_from_slice(&(-50i16).to_le_bytes());
    buf[4..6].copy_from_slice(&25i16.to_le_bytes());
    buf[6] = 64;
    let pts = parse_cartesian_low(&buf);
    assert_eq!(pts.len(), 1);
    let (x, y, z) = to_meters(&pts[0]);
    assert_eq!(x, 1.0);
    assert_eq!(y, -0.5);
    assert_eq!(z, 0.25);
}

#[test]
fn spherical() {
    // depth=2000mm, theta=0 (0°), phi=3000 (30°), refl=200, tag=0
    let mut buf = [0u8; 12];
    buf[0..4].copy_from_slice(&2000u32.to_le_bytes());
    buf[4..6].copy_from_slice(&0u16.to_le_bytes());
    buf[6..8].copy_from_slice(&3000u16.to_le_bytes());
    buf[8] = 200;
    let pts = parse_spherical(&buf);
    assert_eq!(pts.len(), 1);
    let p = pts[0];
    let (x, y, z) = to_meters(&p);
    // x = 2*cos(30°)*cos(0°) ≈ 1.732
    assert!((x - 1.7320508).abs() < 1e-6);
    assert!((y).abs() < 1e-12);
    // z = 2*sin(30°) = 1.0
    assert!((z - 1.0).abs() < 1e-12);
    assert_eq!(p.reflectivity, 200);
}

#[test]
fn double_echo() {
    let mut buf = [0u8; 28];
    buf[0..4].copy_from_slice(&1000i32.to_le_bytes()); // p1.x = 1m
    buf[14..18].copy_from_slice(&(-2000i32).to_le_bytes()); // p2.x = -2m
    buf[27] = 7; // p2.tag
    let pts = parse_double_echo(&buf);
    assert_eq!(pts.len(), 2);
    assert_eq!(to_meters(&pts[0]).0, 1.0);
    assert_eq!(to_meters(&pts[1]).0, -2.0);
    assert_eq!(pts[1].tag, 7);
}

#[test]
fn truncated_data_yields_partial_or_empty() {
    assert!(parse_cartesian_high(&[0u8; 13]).is_empty());
    assert_eq!(parse_cartesian_high(&[0u8; 28]).len(), 2);
}

#[test]
fn invalid_point_heuristic() {
    // reflectivity 0xFF marks invalid/Livox blind-spot convention.
    let p = RawPoint { coords: Coordinates::Millimeters { x: 1000, y: 0, z: 0 }, reflectivity: 0xFF, tag: 0 };
    assert!(!p.is_valid());
    let ok = RawPoint { coords: Coordinates::Millimeters { x: 1000, y: 0, z: 0 }, reflectivity: 50, tag: 0 };
    assert!(ok.is_valid());
}

#[test]
fn nonzero_tag_is_invalid() {
    let p = RawPoint { coords: Coordinates::Centimeters { x: 1, y: 2, z: 3 }, reflectivity: 10, tag: 1 };
    assert!(!p.is_valid());
    assert!(!is_valid_return(0xFF, 3));
    assert!(is_valid_return(0, 0));
}

#[test]
fn cartesian_high_exact_record() {
    let mut buf = [0u8; 14];
    buf[0..4].copy_from_slice(&i32::MIN.to_le_bytes());
    buf[4..8].copy_from_slice(&i32::MAX.to_le_bytes());
    buf[8..12].copy_from_slice(&(-1i32).to_le_bytes());
    buf[12] = 0xFF;
    buf[13] = 2;
    let pts = parse_cartesian_high(&buf);
    assert_eq!(
        pts,
        vec![RawPoint {
            coords: Coordinates::Millimeters { x: i32::MIN, y: i32::MAX, z: -1 },
            reflectivity: 0xFF,
            tag: 2
        }]
    );
    assert_eq!(point_from_high(&buf), pts[0]);
}

#[test]
fn cartesian_low_signed_extremes() {
    let mut buf = [0u8; 17];
    buf[0..2].copy_from_slice(&i16::MIN.to_le_bytes());
    buf[2..4].copy_from_slice(&i16::MAX.to_le_bytes());
    buf[4..6].copy_from_slice(&(-2i16).to_le_bytes());
    buf[6] = 9;
    buf[7] = 1;
    buf[8..10].copy_from_slice(&300i16.to_le_bytes());
    let pts = parse_cartesian_low(&buf);
    assert_eq!(pts.len(), 2);
    assert_eq!(pts[0].coords, Coordinates::Centimeters { x: i16::MIN, y: i16::MAX, z: -2 });
    assert_eq!((pts[0].reflectivity, pts[0].tag), (9, 1));
    assert_eq!(pts[1].coords, Coordinates::Centimeters { x: 300, y: 0, z: 0 });
}

#[test]
fn spherical_raw_fields() {
    let mut buf = [0u8; 24];
    buf[0..4].copy_from_slice(&70000u32.to_le_bytes());
    buf[4..6].copy_from_slice(&36000u16.to_le_bytes());
    buf[6..8].copy_from_slice(&65535u16.to_le_bytes());
    buf[8] = 5;
    buf[9] = 6;
    buf[10] = 0xAA; // unused bytes of the record
    buf[11] = 0xBB;
    buf[12..16].copy_from_slice(&u32::MAX.to_le_bytes());
    let pts = parse_spherical(&buf);
    assert_eq!(pts.len(), 2);
    assert_eq!(
        pts[0],
        RawPoint { coords: Coordinates::Spherical { depth: 70000, theta: 36000, phi: 65535 }, reflectivity: 5, tag: 6 }
    );
    assert_eq!(pts[1].coords, Coordinates::Spherical { depth: u32::MAX, theta: 0, phi: 0 });
}

#[test]
fn double_echo_matches_high_reading() {
    let mut buf = [0u8; 60];
    for (i, b) in buf.iter_mut().enumerate() {
        *b = (i * 7 + 3) as u8;
    }
    let echo = parse_double_echo(&buf);
    let high = parse_cartesian_high(&buf[..56]);
    assert_eq!(echo.len(), 4);
    assert_eq!(echo, high);
    assert!(parse_double_echo(&buf[..27]).is_empty());
}

#[test]
fn high_parse_ignores_trailing_bytes_and_concatenates() {
    let mut a = [0u8; 28];
    for (i, b) in a.iter_mut().enumerate() {
        *b = (i * 13 + 1) as u8;
    }
    let b = [4u8, 0, 0, 0, 5, 0, 0, 0, 6, 0, 0, 0, 7, 8, 99, 98];
    let mut ab = a.to_vec();
    ab.extend_from_slice(&b);
    let mut expected = parse_cartesian_high(&a);
    expected.extend(parse_cartesian_high(&b));
    assert_eq!(parse_cartesian_high(&ab), expected);
    assert_eq!(parse_cartesian_high(&ab), parse_cartesian_high(&ab[..42]));
    assert_eq!(expected[2].coords, Coordinates::Millimeters { x: 4, y: 5, z: 6 });
}

#[test]
fn little_endian_readers() {
    let b = [0x00u8, 0x34, 0x12, 0xFF, 0xFF, 0xFF, 0x80];
    assert_eq!(read_u16_le(&b, 1), 0x1234);
    assert_eq!(read_u16_le(&b, 3), 0xFFFF);
    assert_eq!(read_i16_le(&b, 3), -1);
    assert_eq!(read_i16_le(&b, 5), -32513);
    assert_eq!(read_u32_le(&b, 1), 0xFFFF_1234);
    assert_eq!(read_i32_le(&b, 1), -60876);
    assert_eq!(read_i32_le(&b, 3), i32::from_le_bytes([0xFF, 0xFF, 0xFF, 0x80]));
    assert_eq!(read_i32_le(&b, 3), -2130706433);
}
