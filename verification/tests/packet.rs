use livox_sdk2::packet::{
    Packet, DATA_TYPE_CARTESIAN_HIGH, DATA_TYPE_CARTESIAN_LOW, DATA_TYPE_DOUBLE_ECHO, DATA_TYPE_IMU,
    DATA_TYPE_SPHERICAL, PACKET_HEADER_SIZE,
};
use livox_sdk2::points::{parse_cartesian_high, parse_cartesian_low, parse_double_echo, parse_spherical, Coordinates};

/// A datagram with the given header fields and payload.
fn datagram(data_type: u8, payload: &[u8]) -> Vec<u8> {
    let mut raw = vec![0u8; PACKET_HEADER_SIZE];
    raw[0] = 0;
    let length = (PACKET_HEADER_SIZE + payload.len()) as u16;
    raw[1..3].copy_from_slice(&length.to_le_bytes());
    raw[3..5].copy_from_slice(&1000u16.to_le_bytes());
    raw[5..7].copy_from_slice(&96u16.to_le_bytes());
    raw[7..9].copy_from_slice(&0xBEEFu16.to_le_bytes());
    raw[9] = 17;
    raw[10] = data_type;
    raw[11] = 1;
    raw[24..28].copy_from_slice(&0xDEAD_BEEFu32.to_le_bytes());
    raw[28..36].copy_from_slice(&[1, 2, 3, 4, 5, 6, 7, 8]);
    raw.extend_from_slice(payload);
    raw
}

#[test]
fn header_fields_are_decoded() {
    let raw = datagram(DATA_TYPE_CARTESIAN_HIGH, &[0u8; 14]);
    let p = Packet::new(&raw).expect("complete packet");
    assert_eq!(p.version(), 0);
    assert_eq!(p.length(), 50);
    assert_eq!(p.time_interval(), 1000);
    assert_eq!(p.dot_num(), 96);
    assert_eq!(p.udp_cnt(), 0xBEEF);
    assert_eq!(p.frame_cnt(), 17);
    assert_eq!(p.data_type(), DATA_TYPE_CARTESIAN_HIGH);
    assert_eq!(p.time_type(), 1);
    assert_eq!(p.crc32(), 0xDEAD_BEEF);
    assert_eq!(p.timestamp(), [1, 2, 3, 4, 5, 6, 7, 8]);
    assert_eq!(p.data(), &[0u8; 14][..]);
}

#[test]
fn payload_stops_at_announced_length() {
    let mut raw = datagram(DATA_TYPE_CARTESIAN_HIGH, &[9u8; 14]);
    raw.extend_from_slice(&[0xEE; 10]); // trailing bytes beyond `length`
    let p = Packet::new(&raw).unwrap();
    assert_eq!(p.data().len(), 14);
    assert_eq!(p.data(), &[9u8; 14][..]);
}

#[test]
fn short_buffers_are_refused() {
    assert!(Packet::new(&[0u8; 35]).is_none());
    let raw = datagram(DATA_TYPE_CARTESIAN_HIGH, &[0u8; 14]);
    assert!(Packet::new(&raw[..49]).is_none());
    assert!(Packet::new(&raw[..50]).is_some());
}

#[test]
fn length_below_header_gives_empty_payload() {
    let mut raw = datagram(DATA_TYPE_CARTESIAN_HIGH, &[1u8; 14]);
    raw[1..3].copy_from_slice(&20u16.to_le_bytes());
    let p = Packet::new(&raw).unwrap();
    assert_eq!(p.length(), 20);
    assert!(p.data().is_empty());
    assert!(p.points().is_empty());
}

#[test]
fn points_follow_data_type() {
    let mut payload = [0u8; 28];
    for (i, b) in payload.iter_mut().enumerate() {
        *b = (i * 5 + 1) as u8;
    }
    let cases = [
        (DATA_TYPE_CARTESIAN_HIGH, parse_cartesian_high(&payload)),
        (DATA_TYPE_CARTESIAN_LOW, parse_cartesian_low(&payload)),
        (DATA_TYPE_SPHERICAL, parse_spherical(&payload)),
        (DATA_TYPE_DOUBLE_ECHO, parse_double_echo(&payload)),
    ];
    for (t, expected) in cases {
        let raw = datagram(t, &payload);
        let p = Packet::new(&raw).unwrap();
        assert_eq!(p.points(), expected);
    }
    assert_eq!(Packet::new(&datagram(DATA_TYPE_CARTESIAN_LOW, &payload)).unwrap().points().len(), 3);
}

#[test]
fn imu_and_unknown_types_yield_no_points() {
    let payload = [7u8; 24];
    assert!(Packet::new(&datagram(DATA_TYPE_IMU, &payload)).unwrap().points().is_empty());
    assert!(Packet::new(&datagram(200, &payload)).unwrap().points().is_empty());
}

#[test]
fn cartesian_packet_decodes_point() {
    let mut payload = [0u8; 14];
    payload[0..4].copy_from_slice(&1234i32.to_le_bytes());
    payload[4..8].copy_from_slice(&(-1i32).to_le_bytes());
    payload[8..12].copy_from_slice(&7i32.to_le_bytes());
    payload[12] = 44;
    let raw = datagram(DATA_TYPE_CARTESIAN_HIGH, &payload);
    let pts = Packet::new(&raw).unwrap().points();
    assert_eq!(pts.len(), 1);
    assert_eq!(pts[0].coords, Coordinates::Millimeters { x: 1234, y: -1, z: 7 });
    assert_eq!(pts[0].reflectivity, 44);
    assert!(pts[0].is_valid());
}
